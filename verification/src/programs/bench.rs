//! How long a round trip to the host takes.

use vstd::prelude::*;

verus! {

/// What the benchmark does next.
#[derive(Clone, Copy, Debug, PartialEq, Eq, Structural)]
pub enum BenchStep {
    /// Take a free packet, fill it and hand it over.
    Pop,
    /// Look whether the host has answered.
    Spin,
    /// Give the packet back.
    Release,
    /// The benchmark is over.
    Stop,
}

/// One thread's benchmark.
#[derive(Clone, Copy, Debug, PartialEq, Eq, Structural)]
pub struct Bench {
    /// The round trips to make.
    pub num_iters: u32,
    /// How often a look for an answer is repeated at most.
    pub max_spin: u32,
    /// What comes next.
    pub step: BenchStep,
    /// The looks since the packet was handed over.
    pub spins: u32,
    /// The failed attempts to take a packet.
    pub retries: u64,
    /// The round trips that were made.
    pub completed: u64,
    /// Whether no packet was free.
    pub exhausted: bool,
}

impl Bench {
    /// What holds between two steps.
    pub open spec fn wf(&self) -> bool {
        &&& self.completed <= self.num_iters
        &&& self.retries <= (self.completed + 1) * 0xFFFF_FFFF
        &&& self.step == BenchStep::Pop ==> self.retries <= self.completed * 0xFFFF_FFFF
        &&& self.step != BenchStep::Stop ==> self.completed < self.num_iters && !self.exhausted
        &&& self.step == BenchStep::Stop ==> self.exhausted || self.completed == self.num_iters
        &&& self.step == BenchStep::Spin ==> self.spins < self.max_spin || self.spins == 0
    }

    /// A benchmark at its start.
    pub fn new(num_iters: u32, max_spin: u32) -> (b: Bench)
        ensures
            b.wf(),
            b.num_iters == num_iters,
            b.max_spin == max_spin,
            b.step == if num_iters == 0 {
                BenchStep::Stop
            } else {
                BenchStep::Pop
            },
            b.retries == 0,
            b.completed == 0,
            !b.exhausted,
    {
        Bench {
            num_iters,
            max_spin,
            step: if num_iters == 0 {
                BenchStep::Stop
            } else {
                BenchStep::Pop
            },
            spins: 0,
            retries: 0,
            completed: 0,
            exhausted: false,
        }
    }

    /// A packet was taken after some failed attempts, or none was free.
    pub fn popped(&mut self, found: bool, retries: u32)
        requires
            old(self).wf(),
            old(self).step == BenchStep::Pop,
        ensures
            final(self).wf(),
            *final(self) == if found {
                Bench {
                    step: BenchStep::Spin,
                    spins: 0,
                    retries: (old(self).retries + retries) as u64,
                    ..*old(self)
                }
            } else {
                Bench { step: BenchStep::Stop, exhausted: true, ..*old(self) }
            },
    {
        if found {
            assert((self.completed + 1) * 0xFFFF_FFFF <= u64::MAX);
            self.retries = self.retries + retries as u64;
            self.spins = 0;
            self.step = BenchStep::Spin;
        } else {
            self.exhausted = true;
            self.step = BenchStep::Stop;
        }
    }

    /// A look for the answer: the packet goes back once the answer is there, or after the
    /// last look.
    pub fn looked(&mut self, ready: bool)
        requires
            old(self).wf(),
            old(self).step == BenchStep::Spin,
        ensures
            final(self).wf(),
            *final(self) == if ready {
                Bench { step: BenchStep::Release, ..*old(self) }
            } else {
                Bench {
                    step: if old(self).spins + 1 >= old(self).max_spin {
                        BenchStep::Release
                    } else {
                        BenchStep::Spin
                    },
                    spins: (old(self).spins + 1) as u32,
                    ..*old(self)
                }
            },
    {
        if ready {
            self.step = BenchStep::Release;
        } else {
            self.spins = self.spins + 1;
            if self.spins >= self.max_spin {
                self.step = BenchStep::Release;
            }
        }
    }

    /// The packet was given back: the round trip counts.
    pub fn released(&mut self)
        requires
            old(self).wf(),
            old(self).step == BenchStep::Release,
        ensures
            final(self).wf(),
            *final(self) == (Bench {
                step: if old(self).completed + 1 == old(self).num_iters {
                    BenchStep::Stop
                } else {
                    BenchStep::Pop
                },
                completed: (old(self).completed + 1) as u64,
                ..*old(self)
            }),
    {
        self.completed = self.completed + 1;
        if self.completed == self.num_iters as u64 {
            self.step = BenchStep::Stop;
        } else {
            self.step = BenchStep::Pop;
        }
    }

    /// What a thread reports: the elapsed time, the failed attempts and the round trips.
    pub fn report(&self, start: u64, end: u64) -> (r: [u64; 3])
        requires
            start <= end,
        ensures
            r@ == seq![(end - start) as u64, self.retries, self.completed],
    {
        let r = [end - start, self.retries, self.completed];
        assert(r@ =~= seq![(end - start) as u64, self.retries, self.completed]);
        r
    }
}

/// Leaves the result of a thread: three words, after those of the threads before it.
pub fn hostcall_latency_bench(results: &mut Vec<u64>, tid: usize, report: &[u64; 3])
    requires
        tid * 3 + 3 <= old(results)@.len(),
    ensures
        final(results)@ == old(results)@.update(tid * 3, report@[0]).update(
            tid * 3 + 1,
            report@[1],
        ).update(tid * 3 + 2, report@[2]),
{
    let _len: usize = results.len();
    let base: usize = tid * 3;
    results.set(base, report[0]);
    results.set(base + 1, report[1]);
    results.set(base + 2, report[2]);
}

/// The result of one thread of the benchmark on a buffer with a stack for each block. It
/// lies where that of the other benchmark lies.
pub fn hostcall_latency_bench_v2(results: &mut Vec<u64>, tid: usize, report: &[u64; 3])
    requires
        tid * 3 + 3 <= old(results)@.len(),
    ensures
        final(results)@ == old(results)@.update(tid * 3, report@[0]).update(
            tid * 3 + 1,
            report@[1],
        ).update(tid * 3 + 2, report@[2]),
{
    hostcall_latency_bench(results, tid, report);
}

/// A benchmark that is over made all its round trips, unless no packet was free.
pub proof fn bench_completes(b: Bench)
    requires
        b.wf(),
        b.step == BenchStep::Stop,
        !b.exhausted,
    ensures
        b.completed == b.num_iters,
{
}

/// Threads do not write over each other's results.
pub proof fn reports_do_not_collide(a: int, b: int, i: int, j: int)
    requires
        a != b,
        0 <= i < 3,
        0 <= j < 3,
    ensures
        a * 3 + i != b * 3 + j,
{
}

} // verus!
