//! Open files by their descriptors.

use std::collections::HashMap;
use vstd::prelude::*;

verus! {

/// The files that device code has open. `H` is the host's handle of a file.
pub struct FdTable<H> {
    pub open: HashMap<u64, H>,
    /// The descriptor of the next file. Descriptor 0 is never given out.
    pub next_fd: u64,
}

impl<H> View for FdTable<H> {
    type V = Map<u64, H>;

    open spec fn view(&self) -> Map<u64, H> {
        self.open@
    }
}

impl<H> FdTable<H> {
    /// Every open descriptor has been given out before.
    pub open spec fn wf(&self) -> bool {
        &&& self.next_fd >= 1
        &&& forall|fd: u64| #[trigger] self@.contains_key(fd) ==> 1 <= fd < self.next_fd
    }

    /// No file is open.
    pub fn new() -> (r: FdTable<H>)
        ensures
            r.wf(),
            r@ == Map::<u64, H>::empty(),
            r.next_fd == 1,
    {
        FdTable { open: HashMap::new(), next_fd: 1 }
    }

    /// Enters a file and returns its descriptor.
    pub fn insert(&mut self, file: H) -> (fd: u64)
        requires
            old(self).wf(),
            old(self).next_fd < u64::MAX,
        ensures
            final(self).wf(),
            fd == old(self).next_fd,
            final(self).next_fd == fd + 1,
            final(self)@ == old(self)@.insert(fd, file),
            !old(self)@.contains_key(fd),
    {
        broadcast use vstd::std_specs::hash::group_hash_axioms;

        let fd: u64 = self.next_fd;
        self.next_fd = self.next_fd + 1;
        self.open.insert(fd, file);
        assert(self@ == old(self)@.insert(fd, file));
        fd
    }

    /// Whether a descriptor is open.
    pub fn is_open(&self, fd: u64) -> (r: bool)
        ensures
            r == self@.contains_key(fd),
    {
        broadcast use vstd::std_specs::hash::group_hash_axioms;

        self.open.contains_key(&fd)
    }

    /// Takes a file out of the table.
    pub fn remove(&mut self, fd: u64) -> (r: Option<H>)
        requires
            old(self).wf(),
        ensures
            final(self).wf(),
            final(self)@ == old(self)@.remove(fd),
            final(self).next_fd == old(self).next_fd,
            r == if old(self)@.contains_key(fd) {
                Some(old(self)@[fd])
            } else {
                None
            },
    {
        broadcast use vstd::std_specs::hash::group_hash_axioms;

        let r = self.open.remove(&fd);
        assert(self@ == old(self)@.remove(fd));
        r
    }
}

/// A descriptor is never given out twice: each is greater than all that were given out
/// before, open or closed.
pub proof fn descriptors_are_never_reused<H>(
    before: FdTable<H>,
    after: FdTable<H>,
    fd1: u64,
    fd2: u64,
)
    requires
        before.wf(),
        fd1 < before.next_fd,
        fd2 == before.next_fd,
        after.next_fd == fd2 + 1,
    ensures
        fd1 < fd2 < after.next_fd,
{
}

/// A file that was opened and then closed leaves the table as it was.
pub proof fn closing_undoes_opening<H>(before: Map<u64, H>, fd: u64, file: H)
    requires
        !before.contains_key(fd),
    ensures
        before.insert(fd, file).remove(fd) == before,
        before.insert(fd, file).contains_key(fd),
        before.insert(fd, file)[fd] == file,
{
    assert(before.insert(fd, file).remove(fd) =~= before);
}

} // verus!
