//! Per-process file descriptor tables with the three standard streams, anonymous
//! pipes between user processes, readiness polling, and the manager that ties
//! them together.

use vstd::prelude::*;
use crate::system::Pid;

verus! {

/// Maximum number of file descriptors per process.
pub const MAX_FDS: usize = 256;

pub const STDIN_FD: u32 = 0;

pub const STDOUT_FD: u32 = 1;

pub const STDERR_FD: u32 = 2;

/// Open mode of a file descriptor.
#[derive(Clone, Copy, PartialEq, Eq, Debug, Structural)]
pub struct FdFlags {
    pub read: bool,
    pub write: bool,
    pub append: bool,
    pub nonblock: bool,
    /// Close on exec.
    pub cloexec: bool,
}

impl FdFlags {
    pub open spec fn mode(read: bool, write: bool, nonblock: bool) -> FdFlags {
        FdFlags { read, write, append: false, nonblock, cloexec: false }
    }

    pub fn read_only() -> (f: Self)
        ensures
            f == FdFlags::mode(true, false, false),
    {
        FdFlags { read: true, write: false, append: false, nonblock: false, cloexec: false }
    }

    pub fn write_only() -> (f: Self)
        ensures
            f == FdFlags::mode(false, true, false),
    {
        FdFlags { read: false, write: true, append: false, nonblock: false, cloexec: false }
    }

    pub fn read_write() -> (f: Self)
        ensures
            f == FdFlags::mode(true, true, false),
    {
        FdFlags { read: true, write: true, append: false, nonblock: false, cloexec: false }
    }

    pub fn read_write_nb() -> (f: Self)
        ensures
            f == FdFlags::mode(true, true, true),
    {
        FdFlags { read: true, write: true, append: false, nonblock: true, cloexec: false }
    }
}

impl Default for FdFlags {
    fn default() -> (f: Self)
        ensures
            f == FdFlags::mode(true, true, false),
    {
        Self::read_write()
    }
}

/// What a file descriptor refers to.
#[derive(Debug, PartialEq, Eq)]
pub enum FdTarget {
    /// A file, by path.
    File { path: String, inode: u64 },
    /// The read end of a pipe.
    PipeRead { pipe_id: u64 },
    /// The write end of a pipe.
    PipeWrite { pipe_id: u64 },
    Stdin,
    Stdout,
    Stderr,
    Socket { socket_id: u64 },
    /// A sink such as `/dev/null`.
    Null,
}

impl Clone for FdTarget {
    fn clone(&self) -> (r: Self)
        ensures
            r == *self,
    {
        match self {
            FdTarget::File { path, inode } => FdTarget::File { path: path.clone(), inode: *inode },
            FdTarget::PipeRead { pipe_id } => FdTarget::PipeRead { pipe_id: *pipe_id },
            FdTarget::PipeWrite { pipe_id } => FdTarget::PipeWrite { pipe_id: *pipe_id },
            FdTarget::Stdin => FdTarget::Stdin,
            FdTarget::Stdout => FdTarget::Stdout,
            FdTarget::Stderr => FdTarget::Stderr,
            FdTarget::Socket { socket_id } => FdTarget::Socket { socket_id: *socket_id },
            FdTarget::Null => FdTarget::Null,
        }
    }
}

/// One entry of a file descriptor table.
#[derive(Debug)]
pub struct FileDescriptor {
    pub fd: u32,
    pub target: FdTarget,
    pub flags: FdFlags,
    pub offset: u64,
    pub closed: bool,
}

/// A descriptor as `FileDescriptor::new` makes it: at offset 0 and open.
pub open spec fn fresh_fd(fd: u32, target: FdTarget, flags: FdFlags) -> FileDescriptor {
    FileDescriptor { fd, target, flags, offset: 0, closed: false }
}

impl Clone for FileDescriptor {
    fn clone(&self) -> (r: Self)
        ensures
            r == *self,
    {
        FileDescriptor {
            fd: self.fd,
            target: self.target.clone(),
            flags: self.flags,
            offset: self.offset,
            closed: self.closed,
        }
    }
}

impl FileDescriptor {
    pub fn new(fd: u32, target: FdTarget, flags: FdFlags) -> (d: Self)
        ensures
            d == fresh_fd(fd, target, flags),
    {
        FileDescriptor { fd, target, flags, offset: 0, closed: false }
    }

    pub fn is_readable(&self) -> (r: bool)
        ensures
            r == (self.flags.read && !self.closed),
    {
        self.flags.read && !self.closed
    }

    pub fn is_writable(&self) -> (r: bool)
        ensures
            r == (self.flags.write && !self.closed),
    {
        self.flags.write && !self.closed
    }

    pub fn is_closed(&self) -> (r: bool)
        ensures
            r == self.closed,
    {
        self.closed
    }
}

/// A slot that `alloc` may hand out: empty, or holding a closed descriptor.
pub open spec fn slot_free(s: Option<FileDescriptor>) -> bool {
    s is None || s->0.closed
}

/// A slot that holds an open descriptor.
pub open spec fn slot_open(s: Option<FileDescriptor>) -> bool {
    s is Some && !s->0.closed
}

/// `i` is the lowest free slot at or above 3.
pub open spec fn first_free(fds: Seq<Option<FileDescriptor>>, i: int) -> bool {
    &&& 3 <= i < fds.len()
    &&& slot_free(fds[i])
    &&& forall|j: int| 3 <= j < i ==> !slot_free(fds[j])
}

/// The lowest free slot at or above 3, if any.
pub open spec fn free_index(fds: Seq<Option<FileDescriptor>>) -> Option<int> {
    if exists|i: int| first_free(fds, i) {
        Some(choose|i: int| first_free(fds, i))
    } else {
        None
    }
}

/// The slots after `alloc_fd(target, flags)`.
pub open spec fn after_alloc(fds: Seq<Option<FileDescriptor>>, target: FdTarget, flags: FdFlags) -> Seq<Option<FileDescriptor>> {
    match free_index(fds) {
        Some(i) => fds.update(i, Some(fresh_fd(i as u32, target, flags))),
        None => fds,
    }
}

/// The next descriptor hint after handing out slot `fd`, if one was handed out.
pub open spec fn bumped(next: u32, fd: Option<int>) -> u32 {
    match fd {
        Some(i) => if i >= next {
            (i + 1) as u32
        } else {
            next
        },
        None => next,
    }
}

/// There is only one lowest free slot.
pub proof fn lemma_first_free_unique(fds: Seq<Option<FileDescriptor>>, i: int)
    requires
        first_free(fds, i),
    ensures
        free_index(fds) == Some(i),
{
    let k = choose|k: int| first_free(fds, k);
    assert(first_free(fds, k));
    if k < i {
        assert(!slot_free(fds[k]));
    } else if i < k {
        assert(!slot_free(fds[i]));
    }
}

/// The open descriptor `fd` names, if any.
pub open spec fn open_entry(fds: Seq<Option<FileDescriptor>>, fd: u32) -> Option<FileDescriptor> {
    if fd < fds.len() && slot_open(fds[fd as int]) {
        fds[fd as int]
    } else {
        None
    }
}

/// The test "slot is open".
pub open spec fn open_pred() -> spec_fn(Option<FileDescriptor>) -> bool {
    |s: Option<FileDescriptor>| slot_open(s)
}

/// The slot numbers of the open descriptors, in ascending order.
pub open spec fn open_fds(fds: Seq<Option<FileDescriptor>>) -> Seq<u32>
    decreases fds.len(),
{
    if fds.len() == 0 {
        Seq::empty()
    } else if slot_open(fds.last()) {
        open_fds(fds.drop_last()).push((fds.len() - 1) as u32)
    } else {
        open_fds(fds.drop_last())
    }
}

/// The slots with every open descriptor marked closed.
pub open spec fn all_closed(fds: Seq<Option<FileDescriptor>>) -> Seq<Option<FileDescriptor>> {
    fds.map_values(
        |s: Option<FileDescriptor>|
            if slot_open(s) {
                Some(FileDescriptor { closed: true, ..s->0 })
            } else {
                s
            },
    )
}

/// The slots of a new table: the three standard streams, then nothing.
pub open spec fn initial_fds() -> Seq<Option<FileDescriptor>> {
    Seq::new(
        MAX_FDS as nat,
        |i: int|
            if i == 0 {
                Some(fresh_fd(STDIN_FD, FdTarget::Stdin, FdFlags::mode(true, false, false)))
            } else if i == 1 {
                Some(fresh_fd(STDOUT_FD, FdTarget::Stdout, FdFlags::mode(false, true, false)))
            } else if i == 2 {
                Some(fresh_fd(STDERR_FD, FdTarget::Stderr, FdFlags::mode(false, true, false)))
            } else {
                None
            },
    )
}

/// `t2` and `r` are table `t` and the result after `dup(fd)`.
pub open spec fn dup_done(t: FdTable, t2: FdTable, fd: u32, r: Option<u32>) -> bool {
    &&& t2.pid == t.pid
    &&& match open_entry(t.fds@, fd) {
        None => r is None && t2.fds@ == t.fds@ && t2.next_fd == t.next_fd,
        Some(e) => {
            &&& t2.fds@ == after_alloc(t.fds@, e.target, e.flags)
            &&& t2.next_fd == bumped(t.next_fd, free_index(t.fds@))
            &&& r == match free_index(t.fds@) {
                Some(i) => Some(i as u32),
                None => None::<u32>,
            }
        },
    }
}

/// `t2` and `r` are table `t` and the result after `dup2(old_fd, new_fd)`.
pub open spec fn dup2_done(t: FdTable, t2: FdTable, old_fd: u32, new_fd: u32, r: bool) -> bool {
    &&& t2.pid == t.pid
    &&& t2.next_fd == t.next_fd
    &&& r == (open_entry(t.fds@, old_fd) is Some && new_fd < MAX_FDS)
    &&& r ==> t2.fds@ == t.fds@.update(
        new_fd as int,
        Some(fresh_fd(new_fd, open_entry(t.fds@, old_fd)->0.target, open_entry(t.fds@, old_fd)->0.flags)),
    )
    &&& !r ==> t2.fds@ == t.fds@
}

/// `t2` and `r` are table `t` and the result after `seek(fd, offset)`.
pub open spec fn seek_done(t: FdTable, t2: FdTable, fd: u32, offset: u64, r: bool) -> bool {
    &&& t2.pid == t.pid
    &&& t2.next_fd == t.next_fd
    &&& r == (open_entry(t.fds@, fd) is Some)
    &&& r ==> t2.fds@ == t.fds@.update(fd as int, Some(FileDescriptor { offset: offset, ..t.fds@[fd as int]->0 }))
    &&& !r ==> t2.fds@ == t.fds@
}

/// The descriptor table of one process.
#[derive(Debug)]
pub struct FdTable {
    pub pid: Pid,
    pub fds: Vec<Option<FileDescriptor>>,
    pub next_fd: u32,
}

impl FdTable {
    /// There is a slot for every descriptor number below `MAX_FDS`.
    pub open spec fn wf(&self) -> bool {
        self.fds@.len() == MAX_FDS
    }

    pub fn new(pid: Pid) -> (t: Self)
        ensures
            t.wf(),
            t.pid == pid,
            t.next_fd == 3,
            t.fds@ == initial_fds(),
    {
        let mut fds: Vec<Option<FileDescriptor>> = Vec::new();
        fds.push(Some(FileDescriptor::new(STDIN_FD, FdTarget::Stdin, FdFlags::read_only())));
        fds.push(Some(FileDescriptor::new(STDOUT_FD, FdTarget::Stdout, FdFlags::write_only())));
        fds.push(Some(FileDescriptor::new(STDERR_FD, FdTarget::Stderr, FdFlags::write_only())));
        let mut i: usize = 3;
        while i < MAX_FDS
            invariant
                3 <= i <= MAX_FDS,
                fds@.len() == i,
                fds@[0] == Some(fresh_fd(STDIN_FD, FdTarget::Stdin, FdFlags::mode(true, false, false))),
                fds@[1] == Some(fresh_fd(STDOUT_FD, FdTarget::Stdout, FdFlags::mode(false, true, false))),
                fds@[2] == Some(fresh_fd(STDERR_FD, FdTarget::Stderr, FdFlags::mode(false, true, false))),
                forall|k: int| 3 <= k < i ==> #[trigger] fds@[k] is None,
            decreases MAX_FDS - i,
        {
            fds.push(None);
            i = i + 1;
        }
        assert(fds@ =~= initial_fds());
        FdTable { pid, fds, next_fd: 3 }
    }

    fn slot_is_free(&self, i: usize) -> (r: bool)
        requires
            i < self.fds@.len(),
        ensures
            r == slot_free(self.fds@[i as int]),
    {
        match &self.fds[i] {
            Some(d) => d.closed,
            None => true,
        }
    }

    /// Hands out the lowest free descriptor number from 3 up, as `alloc` does in the kernel API.
    pub fn alloc_fd(&mut self, target: FdTarget, flags: FdFlags) -> (r: Option<u32>)
        requires
            old(self).wf(),
        ensures
            final(self).wf(),
            final(self).pid == old(self).pid,
            match r {
                Some(fd) => {
                    &&& first_free(old(self).fds@, fd as int)
                    &&& final(self).fds@ == old(self).fds@.update(fd as int, Some(fresh_fd(fd, target, flags)))
                    &&& final(self).next_fd == if fd >= old(self).next_fd {
                        (fd + 1) as u32
                    } else {
                        old(self).next_fd
                    }
                },
                None => {
                    &&& forall|j: int| 3 <= j < MAX_FDS ==> !slot_free(#[trigger] old(self).fds@[j])
                    &&& *final(self) == *old(self)
                },
            },
            r == match free_index(old(self).fds@) {
                Some(i) => Some(i as u32),
                None => None::<u32>,
            },
            final(self).fds@ == after_alloc(old(self).fds@, target, flags),
            final(self).next_fd == bumped(old(self).next_fd, free_index(old(self).fds@)),
    {
        let mut i: usize = 3;
        while i < MAX_FDS
            invariant
                self.wf(),
                *self == *old(self),
                3 <= i <= MAX_FDS,
                forall|j: int| 3 <= j < i ==> !slot_free(#[trigger] self.fds@[j]),
            decreases MAX_FDS - i,
        {
            if self.slot_is_free(i) {
                let fd = i as u32;
                self.fds.set(i, Some(FileDescriptor::new(fd, target, flags)));
                if fd >= self.next_fd {
                    self.next_fd = fd + 1;
                }
                proof {
                    lemma_first_free_unique(old(self).fds@, i as int);
                }
                return Some(fd);
            }
            i = i + 1;
        }
        assert(!exists|k: int| first_free(old(self).fds@, k));
        None
    }

    /// The open descriptor `fd`, if there is one.
    pub fn get(&self, fd: u32) -> (r: Option<&FileDescriptor>)
        requires
            self.wf(),
        ensures
            match r {
                Some(d) => open_entry(self.fds@, fd) == Some(*d),
                None => open_entry(self.fds@, fd) is None,
            },
    {
        let idx = fd as usize;
        if idx < MAX_FDS {
            match &self.fds[idx] {
                Some(d) => if d.closed {
                    None
                } else {
                    Some(d)
                },
                None => None,
            }
        } else {
            None
        }
    }

    /// Mutable access to the open descriptor `fd`, if there is one.
    pub fn get_mut(&mut self, fd: u32) -> (r: Option<&mut FileDescriptor>)
        requires
            old(self).wf(),
        ensures
            final(self).pid == old(self).pid,
            final(self).next_fd == old(self).next_fd,
            match r {
                Some(d) => {
                    &&& open_entry(old(self).fds@, fd) == Some(*d)
                    &&& final(self).fds@ == old(self).fds@.update(fd as int, Some(*final(d)))
                },
                None => open_entry(old(self).fds@, fd) is None && *final(self) == *old(self),
            },
    {
        let idx = fd as usize;
        if idx < MAX_FDS && !self.slot_is_free(idx) {
            let slot = &mut self.fds[idx];
            match slot {
                Some(d) => Some(d),
                None => None,
            }
        } else {
            None
        }
    }

    /// Closes `fd`; false if it was not open.
    pub fn close(&mut self, fd: u32) -> (r: bool)
        requires
            old(self).wf(),
        ensures
            final(self).wf(),
            final(self).pid == old(self).pid,
            final(self).next_fd == old(self).next_fd,
            r == (open_entry(old(self).fds@, fd) is Some),
            r ==> final(self).fds@ == old(self).fds@.update(
                fd as int,
                Some(FileDescriptor { closed: true, ..old(self).fds@[fd as int]->0 }),
            ),
            !r ==> *final(self) == *old(self),
    {
        let idx = fd as usize;
        if idx < MAX_FDS {
            let copy = match &self.fds[idx] {
                Some(d) => if d.closed {
                    None
                } else {
                    Some(d.clone())
                },
                None => None,
            };
            match copy {
                Some(d) => {
                    self.fds.set(idx, Some(FileDescriptor { closed: true, ..d }));
                    true
                },
                None => false,
            }
        } else {
            false
        }
    }

    /// Closes every open descriptor (on process exit); returns how many.
    pub fn close_all(&mut self) -> (r: usize)
        requires
            old(self).wf(),
        ensures
            final(self).wf(),
            final(self).pid == old(self).pid,
            final(self).next_fd == old(self).next_fd,
            final(self).fds@ == all_closed(old(self).fds@),
            r == old(self).fds@.filter(open_pred()).len(),
    {
        let ghost orig = self.fds@;
        let mut count: usize = 0;
        let mut i: usize = 0;
        while i < self.fds.len()
            invariant
                self.fds@.len() == orig.len(),
                orig.len() == MAX_FDS,
                self.pid == old(self).pid,
                self.next_fd == old(self).next_fd,
                orig == old(self).fds@,
                i <= orig.len(),
                count == orig.take(i as int).filter(open_pred()).len(),
                count <= i,
                forall|k: int| 0 <= k < i ==> #[trigger] self.fds@[k] == all_closed(orig)[k],
                forall|k: int| i <= k < orig.len() ==> #[trigger] self.fds@[k] == orig[k],
            decreases orig.len() - i,
        {
            proof {
                crate::seqs::lemma_filter_take_succ(orig, i as int, open_pred());
            }
            let copy = match &self.fds[i] {
                Some(d) => if d.closed {
                    None
                } else {
                    Some(d.clone())
                },
                None => None,
            };
            match copy {
                Some(d) => {
                    self.fds.set(i, Some(FileDescriptor { closed: true, ..d }));
                    count = count + 1;
                },
                None => {},
            }
            i = i + 1;
        }
        proof {
            crate::seqs::lemma_take_full(orig);
            assert(self.fds@ =~= all_closed(orig));
        }
        count
    }

    /// Duplicates `fd` into the lowest free slot.
    pub fn dup(&mut self, fd: u32) -> (r: Option<u32>)
        requires
            old(self).wf(),
        ensures
            final(self).wf(),
            final(self).pid == old(self).pid,
            open_entry(old(self).fds@, fd) is None ==> r is None && *final(self) == *old(self),
            open_entry(old(self).fds@, fd) matches Some(e) ==> match r {
                Some(n) => {
                    &&& first_free(old(self).fds@, n as int)
                    &&& final(self).fds@ == old(self).fds@.update(n as int, Some(fresh_fd(n, e.target, e.flags)))
                    &&& final(self).next_fd == if n >= old(self).next_fd {
                        (n + 1) as u32
                    } else {
                        old(self).next_fd
                    }
                },
                None => {
                    &&& forall|j: int| 3 <= j < MAX_FDS ==> !slot_free(#[trigger] old(self).fds@[j])
                    &&& *final(self) == *old(self)
                },
            },
            dup_done(*old(self), *final(self), fd, r),
    {
        let entry = match self.get(fd) {
            Some(e) => e.clone(),
            None => {
                return None;
            },
        };
        self.alloc_fd(entry.target, entry.flags)
    }

    /// Makes `new_fd` a copy of `old_fd`, closing what `new_fd` held; false if
    /// `old_fd` is not open or `new_fd` is out of range.
    pub fn dup2(&mut self, old_fd: u32, new_fd: u32) -> (r: bool)
        requires
            old(self).wf(),
        ensures
            final(self).wf(),
            final(self).pid == old(self).pid,
            final(self).next_fd == old(self).next_fd,
            r == (open_entry(old(self).fds@, old_fd) is Some && new_fd < MAX_FDS),
            r ==> final(self).fds@ == old(self).fds@.update(
                new_fd as int,
                Some(
                    fresh_fd(
                        new_fd,
                        open_entry(old(self).fds@, old_fd)->0.target,
                        open_entry(old(self).fds@, old_fd)->0.flags,
                    ),
                ),
            ),
            !r ==> *final(self) == *old(self),
            dup2_done(*old(self), *final(self), old_fd, new_fd, r),
    {
        let entry = match self.get(old_fd) {
            Some(e) => e.clone(),
            None => {
                return false;
            },
        };
        let idx = new_fd as usize;
        if idx >= MAX_FDS {
            return false;
        }
        self.fds.set(idx, Some(FileDescriptor::new(new_fd, entry.target, entry.flags)));
        true
    }

    /// Number of open descriptors.
    pub fn open_count(&self) -> (r: usize)
        requires
            self.wf(),
        ensures
            r == self.fds@.filter(open_pred()).len(),
    {
        let mut count: usize = 0;
        let mut i: usize = 0;
        while i < self.fds.len()
            invariant
                self.wf(),
                i <= self.fds@.len(),
                count == self.fds@.take(i as int).filter(open_pred()).len(),
                count <= i,
            decreases self.fds@.len() - i,
        {
            proof {
                crate::seqs::lemma_filter_take_succ(self.fds@, i as int, open_pred());
            }
            let open = match &self.fds[i] {
                Some(d) => !d.closed,
                None => false,
            };
            if open {
                count = count + 1;
            }
            i = i + 1;
        }
        proof {
            crate::seqs::lemma_take_full(self.fds@);
        }
        count
    }

    /// The open descriptor numbers, ascending.
    pub fn list_fds(&self) -> (r: Vec<u32>)
        requires
            self.wf(),
        ensures
            r@ == open_fds(self.fds@),
    {
        let mut out: Vec<u32> = Vec::new();
        let mut i: usize = 0;
        while i < self.fds.len()
            invariant
                self.wf(),
                i <= self.fds@.len(),
                out@ == open_fds(self.fds@.take(i as int)),
            decreases self.fds@.len() - i,
        {
            proof {
                crate::seqs::lemma_take_succ(self.fds@, i as int);
                assert(self.fds@.take(i + 1).drop_last() =~= self.fds@.take(i as int));
            }
            let open = match &self.fds[i] {
                Some(d) => !d.closed,
                None => false,
            };
            if open {
                out.push(i as u32);
            }
            i = i + 1;
        }
        proof {
            crate::seqs::lemma_take_full(self.fds@);
        }
        out
    }

    /// `fd` is open and allows writing (or reading, when `want_write` is false).
    pub fn check_access(&self, fd: u32, want_write: bool) -> (r: bool)
        requires
            self.wf(),
        ensures
            r == match open_entry(self.fds@, fd) {
                Some(e) => if want_write {
                    e.flags.write
                } else {
                    e.flags.read
                },
                None => false,
            },
    {
        match self.get(fd) {
            Some(entry) => if want_write {
                entry.is_writable()
            } else {
                entry.is_readable()
            },
            None => false,
        }
    }

    /// Moves the offset of `fd`; false if it is not open.
    pub fn seek(&mut self, fd: u32, offset: u64) -> (r: bool)
        requires
            old(self).wf(),
        ensures
            final(self).wf(),
            final(self).pid == old(self).pid,
            final(self).next_fd == old(self).next_fd,
            r == (open_entry(old(self).fds@, fd) is Some),
            r ==> final(self).fds@ == old(self).fds@.update(
                fd as int,
                Some(FileDescriptor { offset: offset, ..old(self).fds@[fd as int]->0 }),
            ),
            !r ==> *final(self) == *old(self),
            seek_done(*old(self), *final(self), fd, offset, r),
    {
        match self.get_mut(fd) {
            Some(entry) => {
                entry.offset = offset;
                true
            },
            None => false,
        }
    }
}

/// Capacity of a pipe's buffer (64 KiB).
pub const PIPE_BUF_SIZE: usize = 65536;

/// A one-directional channel between processes.
pub struct Pipe {
    pub id: u64,
    pub buffer: Vec<u8>,
    pub read_end_open: bool,
    pub write_end_open: bool,
    pub total_read: u64,
    pub total_written: u64,
}

/// What a pipe holds.
pub struct PipeView {
    pub id: u64,
    pub buffer: Seq<u8>,
    pub read_end_open: bool,
    pub write_end_open: bool,
    pub total_read: u64,
    pub total_written: u64,
}

impl View for Pipe {
    type V = PipeView;

    open spec fn view(&self) -> PipeView {
        PipeView {
            id: self.id,
            buffer: self.buffer@,
            read_end_open: self.read_end_open,
            write_end_open: self.write_end_open,
            total_read: self.total_read,
            total_written: self.total_written,
        }
    }
}

/// A new pipe with both ends open.
pub open spec fn fresh_pipe(id: u64) -> PipeView {
    PipeView {
        id,
        buffer: Seq::empty(),
        read_end_open: true,
        write_end_open: true,
        total_read: 0,
        total_written: 0,
    }
}

/// How many bytes a write of `len` bytes puts into the pipe: none once the read end
/// is closed, else as many as fit.
pub open spec fn pipe_accepts(p: PipeView, len: nat) -> nat {
    if !p.read_end_open {
        0
    } else if len <= PIPE_BUF_SIZE - p.buffer.len() {
        len
    } else {
        (PIPE_BUF_SIZE - p.buffer.len()) as nat
    }
}

/// The pipe after a write of `data`.
pub open spec fn pipe_written(p: PipeView, data: Seq<u8>) -> PipeView {
    let n = pipe_accepts(p, data.len());
    if !p.read_end_open {
        p
    } else {
        PipeView {
            buffer: p.buffer + data.take(n as int),
            total_written: (p.total_written + n) as u64,
            ..p
        }
    }
}

/// How many bytes a read into a buffer of `len` bytes takes.
pub open spec fn pipe_gives(p: PipeView, len: nat) -> nat {
    if len <= p.buffer.len() {
        len
    } else {
        p.buffer.len()
    }
}

/// The pipe after a read of `n` bytes.
pub open spec fn pipe_read(p: PipeView, n: nat) -> PipeView {
    if p.buffer.len() == 0 {
        p
    } else {
        PipeView {
            buffer: p.buffer.skip(n as int),
            total_read: (p.total_read + n) as u64,
            ..p
        }
    }
}

/// The read counter of pipe `pipe_id`, if there is one, can take a read into
/// `len` bytes.
pub open spec fn read_room(ps: PipesView, pipe_id: u64, len: nat) -> bool {
    pipe_index(ps.pipes, pipe_id) matches Some(i) ==> ps.pipes[i].total_read + pipe_gives(ps.pipes[i], len)
        <= u64::MAX
}

/// The write counter of pipe `pipe_id`, if there is one, can take a write of
/// `len` bytes.
pub open spec fn write_room(ps: PipesView, pipe_id: u64, len: nat) -> bool {
    pipe_index(ps.pipes, pipe_id) matches Some(i) ==> ps.pipes[i].total_written + pipe_accepts(ps.pipes[i], len)
        <= u64::MAX
}

/// The open descriptor `fd` of process `pid`.
pub open spec fn io_entry(tables: Seq<FdTable>, pid: Pid, fd: u32) -> Option<FileDescriptor> {
    match table_index(tables, pid) {
        Some(i) => open_entry(tables[i].fds@, fd),
        None => None,
    }
}

impl Pipe {
    /// The buffer never holds more than its capacity.
    pub open spec fn wf(&self) -> bool {
        self.buffer@.len() <= PIPE_BUF_SIZE
    }

    pub fn new(id: u64) -> (p: Self)
        ensures
            p.wf(),
            p@ == fresh_pipe(id),
    {
        Pipe {
            id,
            buffer: Vec::new(),
            read_end_open: true,
            write_end_open: true,
            total_read: 0,
            total_written: 0,
        }
    }

    /// Appends as much of `data` as fits; nothing once the read end is closed.
    /// Returns the number of bytes taken.
    pub fn write(&mut self, data: &[u8]) -> (n: usize)
        requires
            old(self).wf(),
            old(self)@.total_written + pipe_accepts(old(self)@, data@.len()) <= u64::MAX,
        ensures
            final(self).wf(),
            n == pipe_accepts(old(self)@, data@.len()),
            final(self)@ == pipe_written(old(self)@, data@),
    {
        if !self.read_end_open {
            return 0;
        }
        let space = PIPE_BUF_SIZE - self.buffer.len();
        let to_write = if data.len() < space { data.len() } else { space };
        let mut i: usize = 0;
        while i < to_write
            invariant
                i <= to_write,
                to_write <= data@.len(),
                old(self).buffer@.len() + to_write <= PIPE_BUF_SIZE,
                self.buffer@ == old(self).buffer@ + data@.take(i as int),
                self.id == old(self).id,
                self.read_end_open == old(self).read_end_open,
                self.write_end_open == old(self).write_end_open,
                self.total_read == old(self).total_read,
                self.total_written == old(self).total_written,
            decreases to_write - i,
        {
            self.buffer.push(data[i]);
            i = i + 1;
            assert(self.buffer@ =~= old(self).buffer@ + data@.take(i as int));
        }
        self.total_written = self.total_written + to_write as u64;
        to_write
    }

    /// Moves the oldest bytes into the front of `buf`. Returns how many, and
    /// whether the pipe is at end of file (empty with its write end closed).
    pub fn read(&mut self, buf: &mut [u8]) -> (r: (usize, bool))
        requires
            old(self).wf(),
            old(self)@.total_read + pipe_gives(old(self)@, old(buf)@.len()) <= u64::MAX,
        ensures
            final(self).wf(),
            r.0 == pipe_gives(old(self)@, old(buf)@.len()),
            r.1 == (old(self).buffer@.len() == 0 && !old(self).write_end_open),
            final(self)@ == pipe_read(old(self)@, r.0 as nat),
            final(buf)@ == old(self).buffer@.take(r.0 as int) + old(buf)@.skip(r.0 as int),
    {
        if self.buffer.len() == 0 {
            assert(old(buf)@.skip(0) =~= old(buf)@);
            return (0, !self.write_end_open);
        }
        let to_read = if buf.len() < self.buffer.len() { buf.len() } else { self.buffer.len() };
        let mut i: usize = 0;
        while i < to_read
            invariant
                i <= to_read,
                to_read <= buf@.len(),
                to_read <= self.buffer@.len(),
                self.buffer@ == old(self).buffer@,
                buf@.len() == old(buf)@.len(),
                forall|k: int| 0 <= k < i ==> buf@[k] == self.buffer@[k],
                forall|k: int| i <= k < buf@.len() ==> buf@[k] == old(buf)@[k],
            decreases to_read - i,
        {
            buf[i] = self.buffer[i];
            i = i + 1;
        }
        assert(buf@ =~= old(self).buffer@.take(to_read as int) + old(buf)@.skip(to_read as int));
        let mut rest: Vec<u8> = Vec::new();
        let mut j: usize = to_read;
        while j < self.buffer.len()
            invariant
                to_read <= j <= self.buffer@.len(),
                self.buffer@ == old(self).buffer@,
                rest@ == self.buffer@.subrange(to_read as int, j as int),
            decreases self.buffer@.len() - j,
        {
            rest.push(self.buffer[j]);
            j = j + 1;
            assert(rest@ =~= self.buffer@.subrange(to_read as int, j as int));
        }
        assert(rest@ =~= old(self).buffer@.skip(to_read as int));
        self.buffer = rest;
        self.total_read = self.total_read + to_read as u64;
        (to_read, false)
    }

    pub fn available(&self) -> (r: usize)
        ensures
            r == self.buffer@.len(),
    {
        self.buffer.len()
    }

    pub fn is_full(&self) -> (r: bool)
        ensures
            r == (self.buffer@.len() >= PIPE_BUF_SIZE),
    {
        self.buffer.len() >= PIPE_BUF_SIZE
    }

    pub fn is_empty(&self) -> (r: bool)
        ensures
            r == (self.buffer@.len() == 0),
    {
        self.buffer.len() == 0
    }

    pub fn close_read(&mut self)
        ensures
            final(self)@ == (PipeView { read_end_open: false, ..old(self)@ }),
    {
        self.read_end_open = false;
    }

    pub fn close_write(&mut self)
        ensures
            final(self)@ == (PipeView { write_end_open: false, ..old(self)@ }),
    {
        self.write_end_open = false;
    }
}

/// The pipe at position `i` is the first with id `id`.
pub open spec fn pipe_first_at(ps: Seq<PipeView>, id: u64, i: int) -> bool {
    &&& 0 <= i < ps.len()
    &&& ps[i].id == id
    &&& forall|j: int| 0 <= j < i ==> ps[j].id != id
}

/// Position of the first pipe with id `id`, if any.
pub open spec fn pipe_index(ps: Seq<PipeView>, id: u64) -> Option<int> {
    if exists|i: int| pipe_first_at(ps, id, i) {
        Some(choose|i: int| pipe_first_at(ps, id, i))
    } else {
        None
    }
}

/// A pipe that `cleanup` keeps: one end is open or data is left in it.
pub open spec fn pipe_live(p: PipeView) -> bool {
    p.read_end_open || p.write_end_open || p.buffer.len() > 0
}

pub open spec fn live_pred() -> spec_fn(PipeView) -> bool {
    |p: PipeView| pipe_live(p)
}

/// What a pipe manager holds.
pub struct PipesView {
    pub pipes: Seq<PipeView>,
    pub next_id: u64,
}

/// The pipes created so far that have not been cleaned up.
pub struct PipeManager {
    pipes: Vec<Pipe>,
    next_id: u64,
}

pub open spec fn pipe_views(s: Seq<Pipe>) -> Seq<PipeView> {
    s.map_values(|p: Pipe| p@)
}

impl View for PipeManager {
    type V = PipesView;

    closed spec fn view(&self) -> PipesView {
        PipesView { pipes: pipe_views(self.pipes@), next_id: self.next_id }
    }
}

/// The first pipe with id `id` replaced by `p`.
pub open spec fn with_pipe(v: PipesView, id: u64, p: PipeView) -> PipesView {
    match pipe_index(v.pipes, id) {
        Some(i) => PipesView { pipes: v.pipes.update(i, p), ..v },
        None => v,
    }
}

proof fn lemma_pipe_update(s: Seq<Pipe>, i: int)
    requires
        0 <= i < s.len(),
    ensures
        forall|p: Pipe| #[trigger] pipe_views(s.update(i, p)) == pipe_views(s).update(i, p@),
        forall|p: Pipe|
            p.wf() && (forall|j: int| 0 <= j < s.len() ==> #[trigger] s[j].wf()) ==> forall|j: int|
                0 <= j < s.len() ==> #[trigger] s.update(i, p)[j].wf(),
{
    assert forall|p: Pipe| #[trigger] pipe_views(s.update(i, p)) == pipe_views(s).update(i, p@) by {
        assert(pipe_views(s.update(i, p)) =~= pipe_views(s).update(i, p@));
    }
}

impl PipeManager {
    pub closed spec fn wf(&self) -> bool {
        forall|i: int| 0 <= i < self.pipes@.len() ==> #[trigger] self.pipes@[i].wf()
    }

    pub fn new() -> (m: Self)
        ensures
            m.wf(),
            m@ == (PipesView { pipes: Seq::empty(), next_id: 1 }),
    {
        let m = PipeManager { pipes: Vec::new(), next_id: 1 };
        assert(m@.pipes =~= Seq::<PipeView>::empty());
        m
    }

    /// Creates a pipe with the next id; returns the id and the targets of its
    /// read and write ends.
    pub fn create_pipe(&mut self) -> (r: (u64, FdTarget, FdTarget))
        requires
            old(self).wf(),
            old(self)@.next_id < u64::MAX,
        ensures
            final(self).wf(),
            r.0 == old(self)@.next_id,
            r.1 == (FdTarget::PipeRead { pipe_id: r.0 }),
            r.2 == (FdTarget::PipeWrite { pipe_id: r.0 }),
            final(self)@ == (PipesView {
                pipes: old(self)@.pipes.push(fresh_pipe(r.0)),
                next_id: (old(self)@.next_id + 1) as u64,
            }),
    {
        let id = self.next_id;
        self.next_id = self.next_id + 1;
        self.pipes.push(Pipe::new(id));
        assert(pipe_views(self.pipes@) =~= pipe_views(old(self).pipes@).push(fresh_pipe(id)));
        (id, FdTarget::PipeRead { pipe_id: id }, FdTarget::PipeWrite { pipe_id: id })
    }

    fn find(&self, id: u64) -> (r: Option<usize>)
        ensures
            match r {
                Some(i) => pipe_index(self@.pipes, id) == Some(i as int) && i < self.pipes@.len(),
                None => pipe_index(self@.pipes, id) is None,
            },
    {
        let mut i: usize = 0;
        while i < self.pipes.len()
            invariant
                i <= self.pipes@.len(),
                forall|j: int| 0 <= j < i ==> self.pipes@[j].id != id,
            decreases self.pipes@.len() - i,
        {
            if self.pipes[i].id == id {
                proof {
                    assert(pipe_first_at(self@.pipes, id, i as int));
                    let k = choose|k: int| pipe_first_at(self@.pipes, id, k);
                    assert(k == i);
                }
                return Some(i);
            }
            i = i + 1;
        }
        None
    }

    pub fn get_pipe(&self, id: u64) -> (r: Option<&Pipe>)
        ensures
            match r {
                Some(p) => pipe_index(self@.pipes, id) matches Some(i) && self@.pipes[i] == p@,
                None => pipe_index(self@.pipes, id) is None,
            },
    {
        match self.find(id) {
            Some(i) => Some(&self.pipes[i]),
            None => None,
        }
    }

    pub fn get_pipe_mut(&mut self, id: u64) -> (r: Option<&mut Pipe>)
        requires
            old(self).wf(),
        ensures
            match r {
                Some(p) => {
                    &&& pipe_index(old(self)@.pipes, id) matches Some(i)
                    &&& old(self)@.pipes[i] == p@
                    &&& p.wf()
                    &&& (final(p).wf() ==> final(self).wf())
                    &&& final(self)@ == with_pipe(old(self)@, id, final(p)@)
                },
                None => {
                    &&& pipe_index(old(self)@.pipes, id) is None
                    &&& final(self)@ == old(self)@
                    &&& final(self).wf()
                },
            },
    {
        match self.find(id) {
            Some(i) => {
                proof {
                    assert(self.pipes@[i as int].wf());
                    lemma_pipe_update(self.pipes@, i as int);
                }
                let r = &mut self.pipes[i];
                Some(r)
            },
            None => None,
        }
    }

    /// Writes into pipe `pipe_id`; `None` if there is no such pipe.
    pub fn write(&mut self, pipe_id: u64, data: &[u8]) -> (r: Option<usize>)
        requires
            old(self).wf(),
            write_room(old(self)@, pipe_id, data@.len()),
        ensures
            final(self).wf(),
            match pipe_index(old(self)@.pipes, pipe_id) {
                Some(i) => {
                    &&& r == Some(pipe_accepts(old(self)@.pipes[i], data@.len()) as usize)
                    &&& final(self)@ == with_pipe(old(self)@, pipe_id, pipe_written(old(self)@.pipes[i], data@))
                },
                None => r is None && final(self)@ == old(self)@,
            },
    {
        match self.get_pipe_mut(pipe_id) {
            Some(p) => Some(p.write(data)),
            None => None,
        }
    }

    /// Reads from pipe `pipe_id`; `None` if there is no such pipe.
    pub fn read(&mut self, pipe_id: u64, buf: &mut [u8]) -> (r: Option<(usize, bool)>)
        requires
            old(self).wf(),
            read_room(old(self)@, pipe_id, old(buf)@.len()),
        ensures
            final(self).wf(),
            match pipe_index(old(self)@.pipes, pipe_id) {
                Some(i) => {
                    let p = old(self)@.pipes[i];
                    let n = pipe_gives(p, old(buf)@.len());
                    &&& r == Some((n as usize, p.buffer.len() == 0 && !p.write_end_open))
                    &&& final(self)@ == with_pipe(old(self)@, pipe_id, pipe_read(p, n))
                    &&& final(buf)@ == p.buffer.take(n as int) + old(buf)@.skip(n as int)
                },
                None => r is None && final(self)@ == old(self)@ && final(buf)@ == old(buf)@,
            },
    {
        match self.get_pipe_mut(pipe_id) {
            Some(p) => Some(p.read(buf)),
            None => None,
        }
    }

    /// Closes the write end (`is_write`) or the read end of pipe `pipe_id`.
    pub fn close_end(&mut self, pipe_id: u64, is_write: bool)
        requires
            old(self).wf(),
        ensures
            final(self).wf(),
            match pipe_index(old(self)@.pipes, pipe_id) {
                Some(i) => final(self)@ == with_pipe(
                    old(self)@,
                    pipe_id,
                    if is_write {
                        PipeView { write_end_open: false, ..old(self)@.pipes[i] }
                    } else {
                        PipeView { read_end_open: false, ..old(self)@.pipes[i] }
                    },
                ),
                None => final(self)@ == old(self)@,
            },
    {
        match self.get_pipe_mut(pipe_id) {
            Some(p) => {
                if is_write {
                    p.close_write();
                } else {
                    p.close_read();
                }
            },
            None => {},
        }
    }

    /// Drops the pipes with both ends closed and nothing left in them; returns how
    /// many were dropped.
    pub fn cleanup(&mut self) -> (r: usize)
        requires
            old(self).wf(),
        ensures
            final(self).wf(),
            final(self)@ == (PipesView { pipes: old(self)@.pipes.filter(live_pred()), ..old(self)@ }),
            r == old(self)@.pipes.len() - old(self)@.pipes.filter(live_pred()).len(),
    {
        let ghost all = self@.pipes;
        let mut rest: Vec<Pipe> = Vec::new();
        std::mem::swap(&mut rest, &mut self.pipes);
        let ghost orig = rest@;
        let total = rest.len();
        let mut taken: usize = 0;
        proof {
            assert(pipe_views(orig) == all);
        }
        while rest.len() > 0
            invariant
                taken + rest@.len() == orig.len(),
                total == orig.len(),
                rest@ == orig.skip(taken as int),
                pipe_views(orig) == all,
                forall|j: int| 0 <= j < orig.len() ==> #[trigger] orig[j].wf(),
                pipe_views(self.pipes@) == all.take(taken as int).filter(live_pred()),
                forall|j: int| 0 <= j < self.pipes@.len() ==> #[trigger] self.pipes@[j].wf(),
                self.next_id == old(self).next_id,
            decreases rest@.len(),
        {
            let p = rest.remove(0);
            proof {
                assert(p == orig[taken as int]);
                assert(all[taken as int] == p@);
                crate::seqs::lemma_filter_take_succ(all, taken as int, live_pred());
            }
            let ghost before = self.pipes@;
            if p.read_end_open || p.write_end_open || p.buffer.len() > 0 {
                self.pipes.push(p);
                assert(pipe_views(self.pipes@) =~= pipe_views(before).push(all[taken as int]));
            }
            taken = taken + 1;
            assert(rest@ =~= orig.skip(taken as int));
        }
        proof {
            crate::seqs::lemma_take_full(all);
            all.lemma_filter_len(live_pred());
        }
        total - self.pipes.len()
    }

    pub fn pipe_count(&self) -> (r: usize)
        ensures
            r == self@.pipes.len(),
    {
        self.pipes.len()
    }
}

/// A readiness condition of a descriptor.
#[derive(Clone, Copy, PartialEq, Eq, Debug, Structural)]
pub enum PollEvent {
    Readable,
    Writable,
    Error,
    Hangup,
}

/// A descriptor to poll: the events asked for and, after `poll`, those reported.
#[derive(Clone, Debug)]
pub struct PollEntry {
    pub fd: u32,
    pub events: Vec<PollEvent>,
    pub revents: Vec<PollEvent>,
}

impl PollEntry {
    pub fn new(fd: u32, events: Vec<PollEvent>) -> (e: Self)
        ensures
            e.fd == fd,
            e.events@ == events@,
            e.revents@ == Seq::<PollEvent>::empty(),
    {
        PollEntry { fd, events, revents: Vec::new() }
    }
}

/// `ev` when `cond` holds, else nothing.
pub open spec fn when(cond: bool, ev: PollEvent) -> Seq<PollEvent> {
    if cond {
        seq![ev]
    } else {
        Seq::empty()
    }
}

/// The events `poll` reports for descriptor `fd` asked for `events`: an error for
/// a descriptor that is not open; for a pipe's read end, readable when data is
/// waiting or hang-up once the writer is gone; for a write end, writable while there
/// is room and hang-up once the reader is gone; the standard streams, files and the
/// null device are always ready for what they are asked; sockets report nothing.
pub open spec fn poll_events(table: FdTable, pv: PipesView, fd: u32, events: Seq<PollEvent>) -> Seq<PollEvent> {
    let want_read = events.contains(PollEvent::Readable);
    let want_write = events.contains(PollEvent::Writable);
    match open_entry(table.fds@, fd) {
        None => seq![PollEvent::Error],
        Some(e) => match e.target {
            FdTarget::PipeRead { pipe_id } => match pipe_index(pv.pipes, pipe_id) {
                Some(i) => if !want_read {
                    Seq::empty()
                } else if pv.pipes[i].buffer.len() > 0 {
                    seq![PollEvent::Readable]
                } else {
                    when(!pv.pipes[i].write_end_open, PollEvent::Hangup)
                },
                None => Seq::empty(),
            },
            FdTarget::PipeWrite { pipe_id } => match pipe_index(pv.pipes, pipe_id) {
                Some(i) => if !want_write {
                    Seq::empty()
                } else {
                    when(pv.pipes[i].buffer.len() < PIPE_BUF_SIZE, PollEvent::Writable) + when(
                        !pv.pipes[i].read_end_open,
                        PollEvent::Hangup,
                    )
                },
                None => Seq::empty(),
            },
            FdTarget::Stdin => when(want_read, PollEvent::Readable),
            FdTarget::Stdout | FdTarget::Stderr => when(want_write, PollEvent::Writable),
            FdTarget::File { .. } | FdTarget::Null => when(want_read, PollEvent::Readable) + when(
                want_write,
                PollEvent::Writable,
            ),
            FdTarget::Socket { .. } => Seq::empty(),
        },
    }
}

/// The number of entries of `es` that `poll` reports something for.
pub open spec fn ready_count(table: FdTable, pv: PipesView, es: Seq<PollEntry>) -> nat
    decreases es.len(),
{
    if es.len() == 0 {
        0
    } else {
        ready_count(table, pv, es.drop_last()) + if poll_events(
            table,
            pv,
            es.last().fd,
            es.last().events@,
        ).len() > 0 {
            1nat
        } else {
            0nat
        }
    }
}

fn has_event(v: &Vec<PollEvent>, e: PollEvent) -> (r: bool)
    ensures
        r == v@.contains(e),
{
    let mut i: usize = 0;
    while i < v.len()
        invariant
            i <= v@.len(),
            forall|k: int| 0 <= k < i ==> v@[k] != e,
        decreases v@.len() - i,
    {
        if v[i] == e {
            return true;
        }
        i = i + 1;
    }
    false
}

fn copy_events(v: &Vec<PollEvent>) -> (r: Vec<PollEvent>)
    ensures
        r@ == v@,
{
    let mut out: Vec<PollEvent> = Vec::new();
    let mut i: usize = 0;
    while i < v.len()
        invariant
            i <= v@.len(),
            out@ == v@.take(i as int),
        decreases v@.len() - i,
    {
        out.push(v[i]);
        i = i + 1;
        assert(out@ =~= v@.take(i as int));
    }
    assert(out@ =~= v@);
    out
}

fn revents_for(table: &FdTable, pipe_mgr: &PipeManager, fd: u32, events: &Vec<PollEvent>) -> (r: Vec<PollEvent>)
    requires
        table.wf(),
    ensures
        r@ == poll_events(*table, pipe_mgr@, fd, events@),
{
    let mut out: Vec<PollEvent> = Vec::new();
    let entry = match table.get(fd) {
        Some(e) => e,
        None => {
            out.push(PollEvent::Error);
            assert(out@ =~= seq![PollEvent::Error]);
            return out;
        },
    };
    let want_read = has_event(events, PollEvent::Readable);
    let want_write = has_event(events, PollEvent::Writable);
    match &entry.target {
        FdTarget::PipeRead { pipe_id } => {
            match pipe_mgr.get_pipe(*pipe_id) {
                Some(pipe) => {
                    if want_read {
                        if !pipe.is_empty() {
                            out.push(PollEvent::Readable);
                        } else if !pipe.write_end_open {
                            out.push(PollEvent::Hangup);
                        }
                    }
                },
                None => {},
            }
        },
        FdTarget::PipeWrite { pipe_id } => {
            match pipe_mgr.get_pipe(*pipe_id) {
                Some(pipe) => {
                    if want_write {
                        if !pipe.is_full() {
                            out.push(PollEvent::Writable);
                        }
                        if !pipe.read_end_open {
                            out.push(PollEvent::Hangup);
                        }
                    }
                },
                None => {},
            }
        },
        FdTarget::Stdin => {
            if want_read {
                out.push(PollEvent::Readable);
            }
        },
        FdTarget::Stdout | FdTarget::Stderr => {
            if want_write {
                out.push(PollEvent::Writable);
            }
        },
        FdTarget::File { .. } | FdTarget::Null => {
            if want_read {
                out.push(PollEvent::Readable);
            }
            if want_write {
                out.push(PollEvent::Writable);
            }
        },
        FdTarget::Socket { .. } => {},
    }
    assert(out@ =~= poll_events(*table, pipe_mgr@, fd, events@));
    out
}

/// Fills in the reported events of every entry; returns how many entries report
/// something.
pub fn poll(table: &FdTable, pipe_mgr: &PipeManager, entries: &mut [PollEntry]) -> (r: usize)
    requires
        table.wf(),
    ensures
        final(entries)@.len() == old(entries)@.len(),
        forall|i: int|
            0 <= i < old(entries)@.len() ==> {
                &&& (#[trigger] final(entries)@[i]).fd == old(entries)@[i].fd
                &&& final(entries)@[i].events@ == old(entries)@[i].events@
                &&& final(entries)@[i].revents@ == poll_events(
                    *table,
                    pipe_mgr@,
                    old(entries)@[i].fd,
                    old(entries)@[i].events@,
                )
            },
        r == ready_count(*table, pipe_mgr@, old(entries)@),
{
    let ghost orig = entries@;
    let mut ready: usize = 0;
    let mut i: usize = 0;
    while i < entries.len()
        invariant
            table.wf(),
            entries@.len() == orig.len(),
            orig == old(entries)@,
            i <= orig.len(),
            ready <= i,
            ready == ready_count(*table, pipe_mgr@, orig.take(i as int)),
            forall|k: int|
                i <= k < orig.len() ==> #[trigger] entries@[k] == orig[k],
            forall|k: int|
                0 <= k < i ==> {
                    &&& (#[trigger] entries@[k]).fd == orig[k].fd
                    &&& entries@[k].events@ == orig[k].events@
                    &&& entries@[k].revents@ == poll_events(*table, pipe_mgr@, orig[k].fd, orig[k].events@)
                },
        decreases orig.len() - i,
    {
        let fd = entries[i].fd;
        let events = copy_events(&entries[i].events);
        let revents = revents_for(table, pipe_mgr, fd, &events);
        let hit = revents.len() > 0;
        entries[i] = PollEntry { fd, events, revents };
        proof {
            assert(orig.take(i + 1).drop_last() =~= orig.take(i as int));
        }
        if hit {
            ready = ready + 1;
        }
        i = i + 1;
    }
    proof {
        crate::seqs::lemma_take_full(orig);
    }
    ready
}

/// The table at position `i` is the first one of process `pid`.
pub open spec fn table_first_at(ts: Seq<FdTable>, pid: Pid, i: int) -> bool {
    &&& 0 <= i < ts.len()
    &&& ts[i].pid == pid
    &&& forall|j: int| 0 <= j < i ==> ts[j].pid != pid
}

/// Position of the table of process `pid`, if it is registered.
pub open spec fn table_index(ts: Seq<FdTable>, pid: Pid) -> Option<int> {
    if exists|i: int| table_first_at(ts, pid, i) {
        Some(choose|i: int| table_first_at(ts, pid, i))
    } else {
        None
    }
}

/// The bytes a read from standard input yields.
pub open spec fn stdin_bytes() -> Seq<u8> {
    seq![115u8, 116u8, 100u8, 105u8, 110u8, 10u8]
}

/// How many bytes a read from a file or the null device yields into a buffer of
/// `len` bytes (at most a page).
pub open spec fn file_read_len(len: nat) -> nat {
    if len <= 4096 {
        len
    } else {
        4096
    }
}

/// `slot` holds descriptor `fd`, freshly opened on the file `path`.
pub open spec fn opened_file(slot: Option<FileDescriptor>, fd: u32, path: Seq<char>, flags: FdFlags) -> bool {
    match slot {
        Some(d) => {
            &&& d.fd == fd && d.flags == flags && d.offset == 0 && !d.closed
            &&& match d.target {
                FdTarget::File { path: p, inode } => p@ == path && inode == 0,
                _ => false,
            }
        },
        None => false,
    }
}

/// File descriptor tables of the registered processes, their pipes, and I/O
/// counters.
pub struct UserIoManager {
    pub fd_tables: Vec<FdTable>,
    pub pipes: PipeManager,
    pub total_reads: u64,
    pub total_writes: u64,
    pub total_opens: u64,
    pub total_closes: u64,
}

impl UserIoManager {
    pub open spec fn wf(&self) -> bool {
        &&& forall|i: int| 0 <= i < self.fd_tables@.len() ==> #[trigger] self.fd_tables@[i].wf()
        &&& self.pipes.wf()
    }

    pub fn new() -> (m: Self)
        ensures
            m.wf(),
            m.fd_tables@ == Seq::<FdTable>::empty(),
            m.pipes@ == (PipesView { pipes: Seq::empty(), next_id: 1 }),
            m.total_reads == 0 && m.total_writes == 0 && m.total_opens == 0 && m.total_closes == 0,
    {
        UserIoManager {
            fd_tables: Vec::new(),
            pipes: PipeManager::new(),
            total_reads: 0,
            total_writes: 0,
            total_opens: 0,
            total_closes: 0,
        }
    }

    fn find(&self, pid: Pid) -> (r: Option<usize>)
        ensures
            match r {
                Some(i) => table_index(self.fd_tables@, pid) == Some(i as int) && i < self.fd_tables@.len(),
                None => table_index(self.fd_tables@, pid) is None,
            },
    {
        let mut i: usize = 0;
        while i < self.fd_tables.len()
            invariant
                i <= self.fd_tables@.len(),
                forall|j: int| 0 <= j < i ==> self.fd_tables@[j].pid != pid,
            decreases self.fd_tables@.len() - i,
        {
            if self.fd_tables[i].pid == pid {
                proof {
                    assert(table_first_at(self.fd_tables@, pid, i as int));
                    let k = choose|k: int| table_first_at(self.fd_tables@, pid, k);
                    assert(k == i);
                }
                return Some(i);
            }
            i = i + 1;
        }
        None
    }

    /// Gives process `pid` a table with the standard streams, unless it has one.
    pub fn register(&mut self, pid: Pid)
        requires
            old(self).wf(),
        ensures
            final(self).wf(),
            final(self).pipes@ == old(self).pipes@,
            final(self).total_reads == old(self).total_reads,
            final(self).total_writes == old(self).total_writes,
            final(self).total_opens == old(self).total_opens,
            final(self).total_closes == old(self).total_closes,
            table_index(old(self).fd_tables@, pid) is Some ==> final(self).fd_tables@ == old(self).fd_tables@,
            table_index(old(self).fd_tables@, pid) is None ==> {
                let t = final(self).fd_tables@.last();
                &&& final(self).fd_tables@.len() == old(self).fd_tables@.len() + 1
                &&& final(self).fd_tables@.drop_last() == old(self).fd_tables@
                &&& t.pid == pid && t.next_fd == 3 && t.fds@ == initial_fds()
            },
    {
        if self.find(pid).is_none() {
            self.fd_tables.push(FdTable::new(pid));
            assert(self.fd_tables@.drop_last() =~= old(self).fd_tables@);
        }
    }

    /// Closes every descriptor of process `pid` and drops its table; returns how
    /// many descriptors were closed (0 for an unknown process).
    pub fn unregister(&mut self, pid: Pid) -> (r: usize)
        requires
            old(self).wf(),
            table_index(old(self).fd_tables@, pid) matches Some(i) ==> old(self).total_closes + old(
                self,
            ).fd_tables@[i].fds@.filter(open_pred()).len() <= u64::MAX,
        ensures
            final(self).wf(),
            final(self).pipes@ == old(self).pipes@,
            final(self).total_reads == old(self).total_reads,
            final(self).total_writes == old(self).total_writes,
            final(self).total_opens == old(self).total_opens,
            match table_index(old(self).fd_tables@, pid) {
                Some(i) => {
                    &&& r == old(self).fd_tables@[i].fds@.filter(open_pred()).len()
                    &&& final(self).fd_tables@ == old(self).fd_tables@.remove(i)
                    &&& final(self).total_closes == old(self).total_closes + r
                },
                None => r == 0 && final(self).fd_tables@ == old(self).fd_tables@ && final(self).total_closes
                    == old(self).total_closes,
            },
    {
        match self.find(pid) {
            Some(i) => {
                let mut t = self.fd_tables.remove(i);
                proof {
                    assert(old(self).fd_tables@[i as int].wf());
                }
                let count = t.close_all();
                self.total_closes = self.total_closes + count as u64;
                count
            },
            None => 0,
        }
    }

    /// Opens `path` in the lowest free descriptor of process `pid`.
    pub fn open(&mut self, pid: Pid, path: &str, flags: FdFlags) -> (r: Option<u32>)
        requires
            old(self).wf(),
            table_index(old(self).fd_tables@, pid) matches Some(i) && (exists|j: int|
                3 <= j < MAX_FDS && slot_free(#[trigger] old(self).fd_tables@[i].fds@[j])) ==> old(self).total_opens
                < u64::MAX,
        ensures
            final(self).wf(),
            final(self).pipes@ == old(self).pipes@,
            final(self).total_reads == old(self).total_reads,
            final(self).total_writes == old(self).total_writes,
            final(self).total_closes == old(self).total_closes,
            final(self).fd_tables@.len() == old(self).fd_tables@.len(),
            match table_index(old(self).fd_tables@, pid) {
                Some(i) => {
                    let t = old(self).fd_tables@[i];
                    let t2 = final(self).fd_tables@[i];
                    &&& final(self).fd_tables@ == old(self).fd_tables@.update(i, t2)
                    &&& t2.pid == t.pid
                    &&& match r {
                        Some(fd) => {
                            &&& first_free(t.fds@, fd as int)
                            &&& opened_file(t2.fds@[fd as int], fd, path@, flags)
                            &&& t2.fds@ == t.fds@.update(fd as int, t2.fds@[fd as int])
                            &&& final(self).total_opens == old(self).total_opens + 1
                        },
                        None => {
                            &&& forall|j: int| 3 <= j < MAX_FDS ==> !slot_free(#[trigger] t.fds@[j])
                            &&& t2 == t
                            &&& final(self).total_opens == old(self).total_opens
                        },
                    }
                },
                None => r is None && final(self).fd_tables@ == old(self).fd_tables@ && final(self).total_opens
                    == old(self).total_opens,
            },
    {
        match self.find(pid) {
            Some(i) => {
                proof {
                    assert(self.fd_tables@[i as int].wf());
                }
                let target = FdTarget::File { path: String::from_str(path), inode: 0 };
                let table = &mut self.fd_tables[i];
                let fd = table.alloc_fd(target, flags);
                if fd.is_some() {
                    self.total_opens = self.total_opens + 1;
                }
                proof {
                    assert forall|j: int| 0 <= j < self.fd_tables@.len() implies #[trigger] self.fd_tables@[j].wf() by {
                        if j != i {
                            assert(self.fd_tables@[j] == old(self).fd_tables@[j]);
                        }
                    }
                }
                fd
            },
            None => None,
        }
    }

    /// Closes descriptor `fd` of process `pid`; false if either is unknown or the
    /// descriptor is not open.
    pub fn close(&mut self, pid: Pid, fd: u32) -> (r: bool)
        requires
            old(self).wf(),
            table_index(old(self).fd_tables@, pid) matches Some(i) && open_entry(old(self).fd_tables@[i].fds@, fd)
                is Some ==> old(self).total_closes < u64::MAX,
        ensures
            final(self).wf(),
            final(self).pipes@ == old(self).pipes@,
            final(self).total_reads == old(self).total_reads,
            final(self).total_writes == old(self).total_writes,
            final(self).total_opens == old(self).total_opens,
            match table_index(old(self).fd_tables@, pid) {
                Some(i) => {
                    let t = old(self).fd_tables@[i];
                    &&& r == (open_entry(t.fds@, fd) is Some)
                    &&& r ==> final(self).fd_tables@ == old(self).fd_tables@.update(
                        i,
                        FdTable {
                            fds: final(self).fd_tables@[i].fds,
                            ..t
                        },
                    ) && final(self).fd_tables@[i].fds@ == t.fds@.update(
                        fd as int,
                        Some(FileDescriptor { closed: true, ..t.fds@[fd as int]->0 }),
                    ) && final(self).total_closes == old(self).total_closes + 1
                    &&& !r ==> final(self).fd_tables@ == old(self).fd_tables@ && final(self).total_closes
                        == old(self).total_closes
                },
                None => !r && final(self).fd_tables@ == old(self).fd_tables@ && final(self).total_closes
                    == old(self).total_closes,
            },
    {
        match self.find(pid) {
            Some(i) => {
                proof {
                    assert(self.fd_tables@[i as int].wf());
                }
                let table = &mut self.fd_tables[i];
                let ok = table.close(fd);
                if ok {
                    self.total_closes = self.total_closes + 1;
                }
                proof {
                    assert forall|j: int| 0 <= j < self.fd_tables@.len() implies #[trigger] self.fd_tables@[j].wf() by {
                        if j != i {
                            assert(self.fd_tables@[j] == old(self).fd_tables@[j]);
                        }
                    }
                }
                ok
            },
            None => false,
        }
    }

    fn entry_of(&self, pid: Pid, fd: u32) -> (r: Option<FileDescriptor>)
        requires
            self.wf(),
        ensures
            r == match table_index(self.fd_tables@, pid) {
                Some(i) => open_entry(self.fd_tables@[i].fds@, fd),
                None => None,
            },
    {
        match self.find(pid) {
            Some(i) => {
                proof {
                    assert(self.fd_tables@[i as int].wf());
                }
                match self.fd_tables[i].get(fd) {
                    Some(e) => Some(e.clone()),
                    None => None,
                }
            },
            None => None,
        }
    }

    /// Reads through descriptor `fd` of process `pid`: from a pipe's read end, the
    /// pipe's data; from standard input, the line `stdin`; from a file or the null
    /// device, zeros (at most a page). `None` when the process or descriptor is
    /// unknown, the descriptor is not readable, or it names nothing readable.
    pub fn read(&mut self, pid: Pid, fd: u32, buf: &mut [u8]) -> (r: Option<(usize, bool)>)
        requires
            old(self).wf(),
            (match io_entry(old(self).fd_tables@, pid, fd) {
                Some(d) => d.flags.read ==> old(self).total_reads < u64::MAX && match d.target {
                    FdTarget::PipeRead { pipe_id } => read_room(old(self).pipes@, pipe_id, old(buf)@.len()),
                    _ => true,
                },
                None => true,
            }),
        ensures
            final(self).wf(),
            final(self).fd_tables@ == old(self).fd_tables@,
            final(self).total_writes == old(self).total_writes,
            final(self).total_opens == old(self).total_opens,
            final(self).total_closes == old(self).total_closes,
            ({
                let e = match table_index(old(self).fd_tables@, pid) {
                    Some(i) => open_entry(old(self).fd_tables@[i].fds@, fd),
                    None => None,
                };
                let pv = old(self).pipes@;
                let b = old(buf)@;
                if !(e matches Some(d) && d.flags.read) {
                    r is None && final(self).pipes@ == pv && final(self).total_reads == old(self).total_reads
                        && final(buf)@ == b
                } else {
                    &&& final(self).total_reads == old(self).total_reads + 1
                    &&& match e->0.target {
                        FdTarget::PipeRead { pipe_id } => match pipe_index(pv.pipes, pipe_id) {
                            Some(k) => {
                                let n = pipe_gives(pv.pipes[k], b.len());
                                &&& r == Some((n as usize, pv.pipes[k].buffer.len() == 0 && !pv.pipes[k].write_end_open))
                                &&& final(self).pipes@ == with_pipe(pv, pipe_id, pipe_read(pv.pipes[k], n))
                                &&& final(buf)@ == pv.pipes[k].buffer.take(n as int) + b.skip(n as int)
                            },
                            None => r is None && final(self).pipes@ == pv && final(buf)@ == b,
                        },
                        FdTarget::Stdin => {
                            let n = if b.len() <= 6 { b.len() } else { 6 };
                            &&& r == Some((n as usize, false))
                            &&& final(self).pipes@ == pv
                            &&& final(buf)@ == stdin_bytes().take(n as int) + b.skip(n as int)
                        },
                        FdTarget::File { .. } | FdTarget::Null => {
                            let n = file_read_len(b.len());
                            &&& r == Some((n as usize, false))
                            &&& final(self).pipes@ == pv
                            &&& final(buf)@ == Seq::new(n, |k: int| 0u8) + b.skip(n as int)
                        },
                        _ => r is None && final(self).pipes@ == pv && final(buf)@ == b,
                    }
                }
            }),
    {
        let entry = match self.entry_of(pid, fd) {
            Some(e) => e,
            None => {
                return None;
            },
        };
        if !entry.is_readable() {
            return None;
        }
        self.total_reads = self.total_reads + 1;
        match entry.target {
            FdTarget::PipeRead { pipe_id } => self.pipes.read(pipe_id, buf),
            FdTarget::Stdin => {
                let data: [u8; 6] = [115u8, 116u8, 100u8, 105u8, 110u8, 10u8];
                let n = if buf.len() < 6 { buf.len() } else { 6 };
                let mut k: usize = 0;
                while k < n
                    invariant
                        k <= n,
                        n <= buf@.len(),
                        n <= 6,
                        data@ == stdin_bytes(),
                        buf@.len() == old(buf)@.len(),
                        forall|j: int| 0 <= j < k ==> buf@[j] == data@[j],
                        forall|j: int| k <= j < buf@.len() ==> buf@[j] == old(buf)@[j],
                    decreases n - k,
                {
                    buf[k] = data[k];
                    k = k + 1;
                }
                assert(buf@ =~= stdin_bytes().take(n as int) + old(buf)@.skip(n as int));
                Some((n, false))
            },
            FdTarget::File { .. } | FdTarget::Null => {
                let n = if buf.len() < 4096 { buf.len() } else { 4096 };
                let mut k: usize = 0;
                while k < n
                    invariant
                        k <= n,
                        n <= buf@.len(),
                        buf@.len() == old(buf)@.len(),
                        forall|j: int| 0 <= j < k ==> buf@[j] == 0u8,
                        forall|j: int| k <= j < buf@.len() ==> buf@[j] == old(buf)@[j],
                    decreases n - k,
                {
                    buf[k] = 0;
                    k = k + 1;
                }
                assert(buf@ =~= Seq::new(n as nat, |j: int| 0u8) + old(buf)@.skip(n as int));
                Some((n, false))
            },
            _ => None,
        }
    }

    /// Writes through descriptor `fd` of process `pid`: into a pipe's write end,
    /// as much as the pipe takes; standard output, standard error, files and the
    /// null device take everything. `None` when the process or descriptor is
    /// unknown, the descriptor is not writable, or it names nothing writable.
    pub fn write(&mut self, pid: Pid, fd: u32, data: &[u8]) -> (r: Option<usize>)
        requires
            old(self).wf(),
            (match io_entry(old(self).fd_tables@, pid, fd) {
                Some(d) => d.flags.write ==> old(self).total_writes < u64::MAX && match d.target {
                    FdTarget::PipeWrite { pipe_id } => write_room(old(self).pipes@, pipe_id, data@.len()),
                    _ => true,
                },
                None => true,
            }),
        ensures
            final(self).wf(),
            final(self).fd_tables@ == old(self).fd_tables@,
            final(self).total_reads == old(self).total_reads,
            final(self).total_opens == old(self).total_opens,
            final(self).total_closes == old(self).total_closes,
            ({
                let e = match table_index(old(self).fd_tables@, pid) {
                    Some(i) => open_entry(old(self).fd_tables@[i].fds@, fd),
                    None => None,
                };
                let pv = old(self).pipes@;
                if !(e matches Some(d) && d.flags.write) {
                    r is None && final(self).pipes@ == pv && final(self).total_writes == old(self).total_writes
                } else {
                    &&& final(self).total_writes == old(self).total_writes + 1
                    &&& match e->0.target {
                        FdTarget::PipeWrite { pipe_id } => match pipe_index(pv.pipes, pipe_id) {
                            Some(k) => {
                                &&& r == Some(pipe_accepts(pv.pipes[k], data@.len()) as usize)
                                &&& final(self).pipes@ == with_pipe(pv, pipe_id, pipe_written(pv.pipes[k], data@))
                            },
                            None => r is None && final(self).pipes@ == pv,
                        },
                        FdTarget::Stdout | FdTarget::Stderr | FdTarget::File { .. } | FdTarget::Null => {
                            r == Some(data@.len() as usize) && final(self).pipes@ == pv
                        },
                        _ => r is None && final(self).pipes@ == pv,
                    }
                }
            }),
    {
        let entry = match self.entry_of(pid, fd) {
            Some(e) => e,
            None => {
                return None;
            },
        };
        if !entry.is_writable() {
            return None;
        }
        self.total_writes = self.total_writes + 1;
        match entry.target {
            FdTarget::PipeWrite { pipe_id } => self.pipes.write(pipe_id, data),
            FdTarget::Stdout | FdTarget::Stderr => Some(data.len()),
            FdTarget::File { .. } | FdTarget::Null => Some(data.len()),
            _ => None,
        }
    }

    /// Every table but the one at `i` is unchanged and `i` holds a well-formed table.
    proof fn lemma_tables_wf(old_ts: Seq<FdTable>, ts: Seq<FdTable>, i: int)
        requires
            0 <= i < old_ts.len(),
            ts.len() == old_ts.len(),
            forall|j: int| 0 <= j < old_ts.len() ==> #[trigger] old_ts[j].wf(),
            forall|j: int| 0 <= j < ts.len() && j != i ==> ts[j] == old_ts[j],
            ts[i].wf(),
        ensures
            forall|j: int| 0 <= j < ts.len() ==> #[trigger] ts[j].wf(),
    {
        assert forall|j: int| 0 <= j < ts.len() implies #[trigger] ts[j].wf() by {
            if j != i {
                assert(ts[j] == old_ts[j]);
            }
        }
    }

    /// Creates a pipe and gives process `pid` its read end and then its write end.
    /// The pipe is created even when `pid` is unknown or has no free descriptor.
    pub fn pipe(&mut self, pid: Pid) -> (r: Option<(u32, u32)>)
        requires
            old(self).wf(),
            old(self).pipes@.next_id < u64::MAX,
        ensures
            final(self).wf(),
            final(self).total_reads == old(self).total_reads,
            final(self).total_writes == old(self).total_writes,
            final(self).total_opens == old(self).total_opens,
            final(self).total_closes == old(self).total_closes,
            ({
                let id = old(self).pipes@.next_id;
                let rt = FdTarget::PipeRead { pipe_id: id };
                let wt = FdTarget::PipeWrite { pipe_id: id };
                let ro = FdFlags::mode(true, false, false);
                let wo = FdFlags::mode(false, true, false);
                &&& final(self).pipes@ == (PipesView {
                    pipes: old(self).pipes@.pipes.push(fresh_pipe(id)),
                    next_id: (id + 1) as u64,
                })
                &&& final(self).fd_tables@.len() == old(self).fd_tables@.len()
                &&& match table_index(old(self).fd_tables@, pid) {
                    None => r is None && final(self).fd_tables@ == old(self).fd_tables@,
                    Some(i) => {
                        let t = old(self).fd_tables@[i];
                        let t2 = final(self).fd_tables@[i];
                        let f1 = after_alloc(t.fds@, rt, ro);
                        let a = free_index(t.fds@);
                        let b = free_index(f1);
                        &&& forall|j: int| 0 <= j < old(self).fd_tables@.len() && j != i
                            ==> #[trigger] final(self).fd_tables@[j] == old(self).fd_tables@[j]
                        &&& t2.pid == t.pid
                        &&& match a {
                            None => r is None && t2.fds@ == t.fds@ && t2.next_fd == t.next_fd,
                            Some(rfd) => {
                                &&& t2.fds@ == after_alloc(f1, wt, wo)
                                &&& t2.next_fd == bumped(bumped(t.next_fd, a), b)
                                &&& r == match b {
                                    Some(wfd) => Some((rfd as u32, wfd as u32)),
                                    None => None,
                                }
                            },
                        }
                    },
                }
            }),
    {
        let (_id, read_target, write_target) = self.pipes.create_pipe();
        match self.find(pid) {
            Some(i) => {
                proof {
                    assert(self.fd_tables@[i as int].wf());
                }
                let table = &mut self.fd_tables[i];
                let rfd = table.alloc_fd(read_target, FdFlags::read_only());
                let result = match rfd {
                    Some(read_fd) => match table.alloc_fd(write_target, FdFlags::write_only()) {
                        Some(write_fd) => Some((read_fd, write_fd)),
                        None => None,
                    },
                    None => None,
                };
                proof {
                    Self::lemma_tables_wf(old(self).fd_tables@, self.fd_tables@, i as int);
                }
                result
            },
            None => None,
        }
    }

    /// Creates a pipe, gives process `pid1` its read end and process `pid2` its
    /// write end.
    pub fn pipe_between(&mut self, pid1: Pid, pid2: Pid) -> (r: Option<(u32, u32)>)
        requires
            old(self).wf(),
            old(self).pipes@.next_id < u64::MAX,
        ensures
            final(self).wf(),
            final(self).total_reads == old(self).total_reads,
            final(self).total_writes == old(self).total_writes,
            final(self).total_opens == old(self).total_opens,
            final(self).total_closes == old(self).total_closes,
            final(self).pipes@ == (PipesView {
                pipes: old(self).pipes@.pipes.push(fresh_pipe(old(self).pipes@.next_id)),
                next_id: (old(self).pipes@.next_id + 1) as u64,
            }),
            final(self).fd_tables@.len() == old(self).fd_tables@.len(),
            ({
                let id = old(self).pipes@.next_id;
                let ts = old(self).fd_tables@;
                let ts2 = final(self).fd_tables@;
                match table_index(ts, pid1) {
                    None => r is None && ts2 == ts,
                    Some(i) => match free_index(ts[i].fds@) {
                        None => r is None && ts2 == ts,
                        Some(rfd) => {
                            let f1 = after_alloc(
                                ts[i].fds@,
                                FdTarget::PipeRead { pipe_id: id },
                                FdFlags::mode(true, false, false),
                            );
                            let n1 = bumped(ts[i].next_fd, Some(rfd));
                            &&& ts2[i].pid == ts[i].pid
                            &&& table_index(ts, pid2) != Some(i) ==> ts2[i].fds@ == f1 && ts2[i].next_fd == n1
                            &&& match table_index(ts, pid2) {
                                None => {
                                    &&& r is None
                                    &&& forall|j: int| 0 <= j < ts.len() && j != i ==> #[trigger] ts2[j] == ts[j]
                                },
                                Some(k) => {
                                    let u = if k == i {
                                        f1
                                    } else {
                                        ts[k].fds@
                                    };
                                    let nk = if k == i {
                                        n1
                                    } else {
                                        ts[k].next_fd
                                    };
                                    &&& ts2[k].fds@ == after_alloc(
                                        u,
                                        FdTarget::PipeWrite { pipe_id: id },
                                        FdFlags::mode(false, true, false),
                                    )
                                    &&& ts2[k].next_fd == bumped(nk, free_index(u))
                                    &&& ts2[k].pid == ts[k].pid
                                    &&& forall|j: int| 0 <= j < ts.len() && j != i && j != k
                                        ==> #[trigger] ts2[j] == ts[j]
                                    &&& r == match free_index(u) {
                                        Some(wfd) => Some((rfd as u32, wfd as u32)),
                                        None => None,
                                    }
                                },
                            }
                        },
                    },
                }
            }),
    {
        let (_id, read_target, write_target) = self.pipes.create_pipe();
        let i = match self.find(pid1) {
            Some(i) => i,
            None => {
                return None;
            },
        };
        proof {
            assert(self.fd_tables@[i as int].wf());
        }
        let rfd = {
            let table1 = &mut self.fd_tables[i];
            table1.alloc_fd(read_target, FdFlags::read_only())
        };
        proof {
            Self::lemma_tables_wf(old(self).fd_tables@, self.fd_tables@, i as int);
        }
        let ghost mid = self.fd_tables@;
        let read_fd = match rfd {
            Some(fd) => fd,
            None => {
                assert(self.fd_tables@ =~= old(self).fd_tables@);
                return None;
            },
        };
        let k = match self.find(pid2) {
            Some(k) => k,
            None => {
                proof {
                    lemma_table_index_frame(old(self).fd_tables@, self.fd_tables@, pid2);
                }
                return None;
            },
        };
        proof {
            lemma_table_index_frame(old(self).fd_tables@, mid, pid2);
            assert(self.fd_tables@[k as int].wf());
        }
        let wfd = {
            let table2 = &mut self.fd_tables[k];
            table2.alloc_fd(write_target, FdFlags::write_only())
        };
        proof {
            Self::lemma_tables_wf(mid, self.fd_tables@, k as int);
        }
        match wfd {
            Some(write_fd) => Some((read_fd, write_fd)),
            None => None,
        }
    }
}

/// Changing tables in place, pids kept, does not move any process's table.
proof fn lemma_table_index_frame(a: Seq<FdTable>, b: Seq<FdTable>, pid: Pid)
    requires
        a.len() == b.len(),
        forall|j: int| 0 <= j < a.len() ==> #[trigger] b[j].pid == a[j].pid,
    ensures
        table_index(b, pid) == table_index(a, pid),
{
    assert forall|j: int| 0 <= j < a.len() implies (a[j].pid == pid) == (b[j].pid == pid) by {
        assert(b[j].pid == a[j].pid);
    }
    if exists|i: int| table_first_at(a, pid, i) {
        let i = choose|i: int| table_first_at(a, pid, i);
        assert(table_first_at(b, pid, i));
        let k = choose|k: int| table_first_at(b, pid, k);
        assert(table_first_at(a, pid, k));
        if k < i {
            assert(a[k].pid != pid);
        } else if i < k {
            assert(b[i].pid != pid);
        }
    } else {
        if exists|i: int| table_first_at(b, pid, i) {
            let i = choose|i: int| table_first_at(b, pid, i);
            assert(table_first_at(a, pid, i));
        }
    }
}

/// Every table but the one at `i` is unchanged.
pub open spec fn others_same(a: Seq<FdTable>, b: Seq<FdTable>, i: int) -> bool {
    &&& a.len() == b.len()
    &&& forall|j: int| 0 <= j < a.len() && j != i ==> #[trigger] b[j] == a[j]
}

impl UserIoManager {
    /// Moves the offset of descriptor `fd` of process `pid`; false if either is
    /// unknown.
    pub fn seek(&mut self, pid: Pid, fd: u32, offset: u64) -> (r: bool)
        requires
            old(self).wf(),
        ensures
            final(self).wf(),
            final(self).pipes@ == old(self).pipes@,
            final(self).total_reads == old(self).total_reads,
            final(self).total_writes == old(self).total_writes,
            final(self).total_opens == old(self).total_opens,
            final(self).total_closes == old(self).total_closes,
            match table_index(old(self).fd_tables@, pid) {
                Some(i) => others_same(old(self).fd_tables@, final(self).fd_tables@, i) && seek_done(
                    old(self).fd_tables@[i],
                    final(self).fd_tables@[i],
                    fd,
                    offset,
                    r,
                ),
                None => !r && final(self).fd_tables@ == old(self).fd_tables@,
            },
    {
        match self.find(pid) {
            Some(i) => {
                proof {
                    assert(self.fd_tables@[i as int].wf());
                }
                let table = &mut self.fd_tables[i];
                let ok = table.seek(fd, offset);
                proof {
                    Self::lemma_tables_wf(old(self).fd_tables@, self.fd_tables@, i as int);
                }
                ok
            },
            None => false,
        }
    }

    /// Duplicates descriptor `fd` of process `pid`.
    pub fn dup(&mut self, pid: Pid, fd: u32) -> (r: Option<u32>)
        requires
            old(self).wf(),
        ensures
            final(self).wf(),
            final(self).pipes@ == old(self).pipes@,
            final(self).total_reads == old(self).total_reads,
            final(self).total_writes == old(self).total_writes,
            final(self).total_opens == old(self).total_opens,
            final(self).total_closes == old(self).total_closes,
            match table_index(old(self).fd_tables@, pid) {
                Some(i) => others_same(old(self).fd_tables@, final(self).fd_tables@, i) && dup_done(
                    old(self).fd_tables@[i],
                    final(self).fd_tables@[i],
                    fd,
                    r,
                ),
                None => r is None && final(self).fd_tables@ == old(self).fd_tables@,
            },
    {
        match self.find(pid) {
            Some(i) => {
                proof {
                    assert(self.fd_tables@[i as int].wf());
                }
                let table = &mut self.fd_tables[i];
                let res = table.dup(fd);
                proof {
                    Self::lemma_tables_wf(old(self).fd_tables@, self.fd_tables@, i as int);
                }
                res
            },
            None => None,
        }
    }

    /// Makes descriptor `new_fd` of process `pid` a copy of `old_fd`.
    pub fn dup2(&mut self, pid: Pid, old_fd: u32, new_fd: u32) -> (r: bool)
        requires
            old(self).wf(),
        ensures
            final(self).wf(),
            final(self).pipes@ == old(self).pipes@,
            final(self).total_reads == old(self).total_reads,
            final(self).total_writes == old(self).total_writes,
            final(self).total_opens == old(self).total_opens,
            final(self).total_closes == old(self).total_closes,
            match table_index(old(self).fd_tables@, pid) {
                Some(i) => others_same(old(self).fd_tables@, final(self).fd_tables@, i) && dup2_done(
                    old(self).fd_tables@[i],
                    final(self).fd_tables@[i],
                    old_fd,
                    new_fd,
                    r,
                ),
                None => !r && final(self).fd_tables@ == old(self).fd_tables@,
            },
    {
        match self.find(pid) {
            Some(i) => {
                proof {
                    assert(self.fd_tables@[i as int].wf());
                }
                let table = &mut self.fd_tables[i];
                let ok = table.dup2(old_fd, new_fd);
                proof {
                    Self::lemma_tables_wf(old(self).fd_tables@, self.fd_tables@, i as int);
                }
                ok
            },
            None => false,
        }
    }

    /// The table of process `pid`, if registered.
    pub fn get_table(&self, pid: Pid) -> (r: Option<&FdTable>)
        ensures
            match table_index(self.fd_tables@, pid) {
                Some(i) => r == Some(&self.fd_tables@[i]),
                None => r is None,
            },
    {
        match self.find(pid) {
            Some(i) => Some(&self.fd_tables[i]),
            None => None,
        }
    }

    /// Number of open descriptors of process `pid` (0 if unknown).
    pub fn fd_count(&self, pid: Pid) -> (r: usize)
        requires
            self.wf(),
        ensures
            r == match table_index(self.fd_tables@, pid) {
                Some(i) => self.fd_tables@[i].fds@.filter(open_pred()).len(),
                None => 0,
            },
    {
        match self.find(pid) {
            Some(i) => {
                proof {
                    assert(self.fd_tables@[i as int].wf());
                }
                self.fd_tables[i].open_count()
            },
            None => 0,
        }
    }

    /// Polls `entries` against the table of process `pid`; returns how many report
    /// something (0 for an unknown process).
    pub fn poll(&self, pid: Pid, entries: Vec<PollEntry>) -> (r: usize)
        requires
            self.wf(),
        ensures
            r == match table_index(self.fd_tables@, pid) {
                Some(i) => ready_count(self.fd_tables@[i], self.pipes@, entries@),
                None => 0,
            },
    {
        let mut entries = entries;
        match self.find(pid) {
            Some(i) => {
                proof {
                    assert(self.fd_tables@[i as int].wf());
                }
                poll(&self.fd_tables[i], &self.pipes, entries.as_mut_slice())
            },
            None => 0,
        }
    }

    pub fn total_reads(&self) -> (r: u64)
        ensures
            r == self.total_reads,
    {
        self.total_reads
    }

    pub fn total_writes(&self) -> (r: u64)
        ensures
            r == self.total_writes,
    {
        self.total_writes
    }

    pub fn total_opens(&self) -> (r: u64)
        ensures
            r == self.total_opens,
    {
        self.total_opens
    }

    pub fn total_closes(&self) -> (r: u64)
        ensures
            r == self.total_closes,
    {
        self.total_closes
    }

    pub fn process_count(&self) -> (r: usize)
        ensures
            r == self.fd_tables@.len(),
    {
        self.fd_tables.len()
    }

    pub fn pipe_count(&self) -> (r: usize)
        ensures
            r == self.pipes@.pipes.len(),
    {
        self.pipes.pipe_count()
    }
}

impl Default for UserIoManager {
    fn default() -> (m: Self)
        ensures
            m.wf(),
            m.fd_tables@ == Seq::<FdTable>::empty(),
            m.pipes@ == (PipesView { pipes: Seq::empty(), next_id: 1 }),
            m.total_reads == 0 && m.total_writes == 0 && m.total_opens == 0 && m.total_closes == 0,
    {
        Self::new()
    }
}

impl Default for PipeManager {
    fn default() -> (m: Self)
        ensures
            m.wf(),
            m@ == (PipesView { pipes: Seq::empty(), next_id: 1 }),
    {
        Self::new()
    }
}

/// Errors of user I/O.
#[derive(Clone, Copy, PartialEq, Eq, Debug, Structural)]
pub enum IoError {
    /// EBADF
    BadFd,
    /// EACCES
    Permission,
    /// ENOSPC
    NoSpace,
    /// EPIPE
    PipeBroken,
    /// ESPIPE
    NotPipe,
    /// EAGAIN
    WouldBlock,
    /// ENOENT
    NotFound,
}

impl IoError {
    /// The human-readable message of the error.
    pub fn message(&self) -> (s: &'static str)
        ensures
            s@ == match self {
                IoError::BadFd => "bad file descriptor"@,
                IoError::Permission => "permission denied"@,
                IoError::NoSpace => "no space left"@,
                IoError::PipeBroken => "broken pipe"@,
                IoError::NotPipe => "not a pipe"@,
                IoError::WouldBlock => "would block"@,
                IoError::NotFound => "not found"@,
            },
    {
        match self {
            IoError::BadFd => "bad file descriptor",
            IoError::Permission => "permission denied",
            IoError::NoSpace => "no space left",
            IoError::PipeBroken => "broken pipe",
            IoError::NotPipe => "not a pipe",
            IoError::WouldBlock => "would block",
            IoError::NotFound => "not found",
        }
    }
}

} // verus!
