//! What the listener hands to the thread that may block.
//!
//! The listener closes the queue when it stops. The other thread leaves only when the queue
//! is closed and every request that was handed over has been answered.

use vstd::prelude::*;

use crate::hostcall::protocol::Service;

verus! {

/// A packet that is dealt with by the thread that may block.
#[derive(Clone, Copy, Debug, PartialEq, Eq, Structural)]
pub struct IoRequest {
    pub index: u16,
    pub service: Service,
}

/// What the thread that may block does next.
#[derive(Clone, Copy, Debug, PartialEq, Eq, Structural)]
pub enum IoStep {
    /// Deal with a request and answer it.
    Serve(IoRequest),
    /// Wait until something is handed over or the queue is closed.
    Wait,
    /// Leave.
    Leave,
}

/// The requests that were handed over and are not answered yet.
pub struct IoQueue {
    serving: Option<IoRequest>,
    waiting: Vec<IoRequest>,
    open: bool,
    handed: Ghost<Seq<IoRequest>>,
    done: Ghost<Seq<IoRequest>>,
}

impl IoQueue {
    /// All requests that were ever handed over, in order.
    pub closed spec fn handed_over(&self) -> Seq<IoRequest> {
        self.handed@
    }

    /// The requests that were answered, in order.
    pub closed spec fn answered(&self) -> Seq<IoRequest> {
        self.done@
    }

    /// The request that is being dealt with.
    pub closed spec fn in_work(&self) -> Option<IoRequest> {
        self.serving
    }

    /// The requests that nobody has dealt with yet.
    pub closed spec fn in_line(&self) -> Seq<IoRequest> {
        self.waiting@
    }

    /// Requests may still be handed over.
    pub closed spec fn is_open(&self) -> bool {
        self.open
    }

    /// Every request that was handed over was answered, is being dealt with, or waits, in
    /// this order.
    pub open spec fn wf(&self) -> bool {
        self.handed_over() == self.answered() + match self.in_work() {
            Some(r) => seq![r],
            None => Seq::empty(),
        } + self.in_line()
    }

    /// A queue to which nothing was handed over.
    pub fn new() -> (r: IoQueue)
        ensures
            r.wf(),
            r.is_open(),
            r.handed_over() == Seq::<IoRequest>::empty(),
            r.answered() == Seq::<IoRequest>::empty(),
            r.in_work() is None,
    {
        let r = IoQueue {
            serving: None,
            waiting: Vec::new(),
            open: true,
            handed: Ghost(Seq::empty()),
            done: Ghost(Seq::empty()),
        };
        assert(r.handed_over() =~= r.answered() + Seq::empty() + r.in_line());
        r
    }

    /// Hands a request over.
    pub fn hand_over(&mut self, request: IoRequest)
        requires
            old(self).wf(),
        ensures
            final(self).wf(),
            final(self).is_open() == old(self).is_open(),
            final(self).handed_over() == old(self).handed_over().push(request),
            final(self).answered() == old(self).answered(),
            final(self).in_work() == old(self).in_work(),
            final(self).in_line() == old(self).in_line().push(request),
    {
        self.waiting.push(request);
        self.handed = Ghost(self.handed@.push(request));
        assert(self.handed_over() =~= self.answered() + match self.in_work() {
            Some(r) => seq![r],
            None => Seq::empty(),
        } + self.in_line());
    }

    /// Closes the queue: nothing more will be handed over.
    pub fn close(&mut self)
        requires
            old(self).wf(),
        ensures
            final(self).wf(),
            !final(self).is_open(),
            final(self).handed_over() == old(self).handed_over(),
            final(self).answered() == old(self).answered(),
            final(self).in_work() == old(self).in_work(),
            final(self).in_line() == old(self).in_line(),
    {
        self.open = false;
    }

    /// Decides what the thread that may block does next. Requests are taken in the order in
    /// which they were handed over, and the thread leaves only when all are answered.
    pub fn next(&mut self) -> (step: IoStep)
        requires
            old(self).wf(),
            old(self).in_work() is None,
        ensures
            final(self).wf(),
            final(self).is_open() == old(self).is_open(),
            final(self).handed_over() == old(self).handed_over(),
            final(self).answered() == old(self).answered(),
            match step {
                IoStep::Serve(r) => {
                    &&& old(self).in_line().len() > 0
                    &&& r == old(self).in_line()[0]
                    &&& final(self).in_work() == Some(r)
                    &&& final(self).in_line() == old(self).in_line().skip(1)
                },
                IoStep::Wait => {
                    &&& old(self).in_line().len() == 0
                    &&& old(self).is_open()
                    &&& *final(self) == *old(self)
                },
                IoStep::Leave => {
                    &&& old(self).in_line().len() == 0
                    &&& !old(self).is_open()
                    &&& *final(self) == *old(self)
                    &&& final(self).answered() == final(self).handed_over()
                },
            },
    {
        if self.waiting.len() == 0 {
            assert(self.handed_over() =~= self.answered());
            return if self.open {
                IoStep::Wait
            } else {
                IoStep::Leave
            };
        }
        let request: IoRequest = self.waiting.remove(0);
        self.serving = Some(request);
        proof {
            let line = old(self).in_line();
            assert(self.in_line() =~= line.skip(1));
            assert(old(self).answered() + Seq::empty() + line =~= self.answered() + seq![request]
                + self.in_line());
        }
        IoStep::Serve(request)
    }

    /// Notes that the request in work is answered.
    pub fn note_answer(&mut self)
        requires
            old(self).wf(),
            old(self).in_work() is Some,
        ensures
            final(self).wf(),
            final(self).is_open() == old(self).is_open(),
            final(self).handed_over() == old(self).handed_over(),
            final(self).answered() == old(self).answered().push(old(self).in_work()->0),
            final(self).in_work() is None,
            final(self).in_line() == old(self).in_line(),
    {
        proof {
            let r = self.serving->0;
            assert(self.answered() + seq![r] + self.in_line() =~= self.answered().push(r)
                + Seq::empty() + self.in_line());
        }
        self.done = Ghost(self.done@.push(self.serving->0));
        self.serving = None;
    }
}

} // verus!
