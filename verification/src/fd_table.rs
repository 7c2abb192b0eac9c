//! The process-wide table of open file descriptors.
//!
//! Each descriptor names an open object by an object id (`u64`); the objects
//! themselves live outside the table. Descriptors are handed out by the
//! `flatten_objects` container, lowest free number first.

use flatten_objects::FlattenObjects;
use vstd::prelude::*;

verus! {

/// Largest number of descriptors the table can hold; valid descriptors are
/// `0..AX_FILE_LIMIT`.
pub const AX_FILE_LIMIT: usize = 1024;

/// The container of the descriptor table: object ids numbered by descriptor.
///
/// `FlattenObjects` carries a bound on its capacity parameter that names a
/// trait of another crate, so the container is held here, behind this struct,
/// rather than declared on its own.
#[verifier::external_body]
pub struct FdObjects {
    objects: FlattenObjects<u64, 1024>,
}

/// What a descriptor container holds: assigned id to object id.
pub uninterp spec fn fd_slots(objects: FdObjects) -> Map<usize, u64>;

/// `FlattenObjects::new`: a container with no assigned id.
#[verifier::external_body]
fn objects_new() -> (t: FdObjects)
    ensures
        fd_slots(t) =~= Map::empty(),
{
    FdObjects { objects: FlattenObjects::new() }
}

/// `FlattenObjects::get`: the object at `id` if `id` is assigned.
#[verifier::external_body]
fn objects_get(t: &FdObjects, id: usize) -> (r: Option<u64>)
    ensures
        r == (if fd_slots(*t).dom().contains(id) {
            Some(fd_slots(*t)[id])
        } else {
            None::<u64>
        }),
{
    t.objects.get(id).copied()
}

/// `FlattenObjects::add`: stores `value` under the lowest unassigned id below
/// the capacity and returns that id; when every id is assigned it changes
/// nothing and hands `value` back.
#[verifier::external_body]
fn objects_add(t: &mut FdObjects, value: u64) -> (r: Result<usize, u64>)
    ensures
        match r {
            Ok(id) => {
                &&& id < 1024
                &&& !fd_slots(*old(t)).dom().contains(id)
                &&& forall|j: usize| j < id ==> fd_slots(*old(t)).dom().contains(j)
                &&& fd_slots(*final(t)) == fd_slots(*old(t)).insert(id, value)
            },
            Err(v) => {
                &&& v == value
                &&& forall|j: usize| j < 1024 ==> fd_slots(*old(t)).dom().contains(j)
                &&& fd_slots(*final(t)) == fd_slots(*old(t))
            },
        },
{
    t.objects.add(value)
}

/// `FlattenObjects::add_at`: stores `value` under `id` and returns `Ok(id)`
/// when `id` is below the capacity and unassigned; otherwise changes nothing
/// and hands `value` back.
#[verifier::external_body]
fn objects_add_at(t: &mut FdObjects, id: usize, value: u64) -> (r: Result<usize, u64>)
    ensures
        (id < 1024 && !fd_slots(*old(t)).dom().contains(id)) ==> (r matches Ok(i) && i == id)
            && fd_slots(*final(t)) == fd_slots(*old(t)).insert(id, value),
        !(id < 1024 && !fd_slots(*old(t)).dom().contains(id)) ==> (r matches Err(v) && v
            == value) && fd_slots(*final(t)) == fd_slots(*old(t)),
{
    t.objects.add_at(id, value)
}

/// What `FlattenObjects::add_or_replace_at` answers: the id when it was
/// free, or the object it displaced (none when the id is out of range).
pub type ReplaceOutcome = Result<usize, Option<u64>>;

/// `FlattenObjects::add_or_replace_at`: for `id` below the capacity, stores
/// `value` under `id`, returning `Ok(id)` when `id` was free and
/// `Err(Some(previous))` with the object it displaced otherwise; for `id` out
/// of range, changes nothing and returns `Err(None)`.
#[verifier::external_body]
fn objects_add_or_replace_at(t: &mut FdObjects, id: usize, value: u64) -> (r: ReplaceOutcome)
    ensures
        id < 1024 ==> fd_slots(*final(t)) == fd_slots(*old(t)).insert(id, value),
        id < 1024 && !fd_slots(*old(t)).dom().contains(id) ==> (r is Ok && r->Ok_0 == id),
        id < 1024 && fd_slots(*old(t)).dom().contains(id) ==> (r is Err && r->Err_0 == Some(fd_slots(*old(t))[id])),
        id >= 1024 ==> (r is Err && r->Err_0 is None) && fd_slots(*final(t)) == fd_slots(*old(t)),
{
    t.objects.add_or_replace_at(id, value)
}

/// `FlattenObjects::remove`: frees `id` and hands back its object if `id` was
/// assigned; returns `None` and changes nothing otherwise.
#[verifier::external_body]
fn objects_remove(t: &mut FdObjects, id: usize) -> (r: Option<u64>)
    ensures
        fd_slots(*old(t)).dom().contains(id) ==> r == Some(fd_slots(*old(t))[id])
            && fd_slots(*final(t)) == fd_slots(*old(t)).remove(id),
        !fd_slots(*old(t)).dom().contains(id) ==> r == None::<u64> && fd_slots(*final(t))
            == fd_slots(*old(t)),
{
    t.objects.remove(id)
}

/// Errors of the descriptor layer. In the C interface they are reported as
/// `EBADF`, `EMFILE`, `EINVAL` and `EFAULT` respectively.
#[derive(Clone, Copy, Debug, PartialEq, Eq, Structural)]
pub enum FdError {
    BadFd,
    TooManyFiles,
    InvalidArgument,
    BadAddress,
}

/// `fcntl` command: duplicate the descriptor onto the lowest free number.
pub const F_DUPFD: i32 = 0;

/// `fcntl` command: set the descriptor flags.
pub const F_SETFD: i32 = 2;

/// `fcntl` command: set the file status flags.
pub const F_SETFL: i32 = 4;

/// `fcntl` command: duplicate with close-on-exec set.
pub const F_DUPFD_CLOEXEC: i32 = 1030;

/// Descriptor flag: close on exec.
pub const FD_CLOEXEC: usize = 1;

/// Open flag (as accepted by `dup3`): close on exec.
pub const O_CLOEXEC: u32 = 0o2000000;

/// What descriptor `fd` names in the table `m`.
pub open spec fn lookup(m: Map<usize, u64>, fd: i32) -> Result<u64, FdError> {
    if 0 <= fd && m.dom().contains(fd as usize) {
        Ok(m[fd as usize])
    } else {
        Err(FdError::BadFd)
    }
}

/// `fd` is the lowest descriptor number that `m` leaves free.
pub open spec fn is_lowest_free(m: Map<usize, u64>, fd: usize) -> bool {
    &&& fd < AX_FILE_LIMIT
    &&& !m.dom().contains(fd)
    &&& forall|j: usize| j < fd ==> m.dom().contains(j)
}

/// Every descriptor number is in use.
pub open spec fn is_full(m: Map<usize, u64>) -> bool {
    forall|j: usize| j < AX_FILE_LIMIT ==> m.dom().contains(j)
}

/// Only descriptor numbers below the limit are ever in use.
pub open spec fn within_limit(m: Map<usize, u64>) -> bool {
    forall|j: usize| m.dom().contains(j) ==> j < AX_FILE_LIMIT
}

/// The outcome of adding `f` to `m`: the new table and the result.
pub open spec fn add_effect(m: Map<usize, u64>, f: u64, m2: Map<usize, u64>, r: Result<i32, FdError>) -> bool {
    match r {
        Ok(fd) => 0 <= fd && is_lowest_free(m, fd as usize) && m2 == m.insert(fd as usize, f),
        Err(e) => e == FdError::TooManyFiles && is_full(m) && m2 == m,
    }
}

/// The outcome of closing `fd` in `m`: the new table and the result, which
/// carries the object the descriptor named.
pub open spec fn close_effect(m: Map<usize, u64>, fd: i32, m2: Map<usize, u64>, r: Result<u64, FdError>) -> bool {
    match lookup(m, fd) {
        Ok(f) => r == Ok::<u64, FdError>(f) && m2 == m.remove(fd as usize),
        Err(e) => r == Err::<u64, FdError>(e) && m2 == m,
    }
}

/// The result of `dup3(old_fd, new_fd, _)` on the table `m`.
pub open spec fn dup3_result(m: Map<usize, u64>, old_fd: i32, new_fd: i32) -> Result<i32, FdError> {
    if old_fd == new_fd {
        Err(FdError::InvalidArgument)
    } else if new_fd < 0 || new_fd >= AX_FILE_LIMIT {
        Err(FdError::BadFd)
    } else if lookup(m, old_fd) is Err {
        Err(FdError::BadFd)
    } else {
        Ok(new_fd)
    }
}

/// Some descriptor of `m` names object `f`.
pub open spec fn names(m: Map<usize, u64>, f: u64) -> bool {
    exists|fd: usize| m.dom().contains(fd) && #[trigger] m[fd] == f
}

/// What a call of `fcntl` leaves to be done with the file itself.
pub enum FcntlOutcome {
    /// The command is complete, with this result.
    Done(Result<i32, FdError>),
    /// The status flags of `file` are to be set to `arg`; the command then
    /// yields `0`, or the error that setting them gives.
    SetStatusFlags { file: u64, arg: usize },
}

/// The table of open descriptors.
pub struct FdTable {
    objects: FdObjects,
}

impl View for FdTable {
    type V = Map<usize, u64>;

    closed spec fn view(&self) -> Map<usize, u64> {
        fd_slots(self.objects)
    }
}

impl FdTable {
    /// The table keeps every descriptor below `AX_FILE_LIMIT`.
    pub open spec fn wf(&self) -> bool {
        within_limit(self@)
    }

    /// An empty table.
    pub fn new() -> (t: Self)
        ensures
            t.wf(),
            t@ == Map::<usize, u64>::empty(),
    {
        FdTable { objects: objects_new() }
    }

    /// The table a process starts with: descriptor 0 names `stdin`, and
    /// descriptors 1 and 2 both name `stdout`.
    pub fn with_stdio(stdin: u64, stdout: u64) -> (t: Self)
        ensures
            t.wf(),
            t@ == map![0usize => stdin, 1usize => stdout, 2usize => stdout],
    {
        let mut t = FdTable::new();
        let _ = objects_add_at(&mut t.objects, 0, stdin);
        let _ = objects_add_at(&mut t.objects, 1, stdout);
        let _ = objects_add_at(&mut t.objects, 2, stdout);
        assert(t@ =~= map![0usize => stdin, 1usize => stdout, 2usize => stdout]);
        t
    }

    /// The object that descriptor `fd` names, or `BadFd`.
    pub fn get_file_like(&self, fd: i32) -> (r: Result<u64, FdError>)
        ensures
            r == lookup(self@, fd),
    {
        if fd < 0 {
            return Err(FdError::BadFd);
        }
        match objects_get(&self.objects, fd as usize) {
            Some(f) => Ok(f),
            None => Err(FdError::BadFd),
        }
    }

    /// Whether some descriptor still names object `f`; once none does, the
    /// object can be dropped.
    pub fn is_referenced(&self, f: u64) -> (b: bool)
        requires
            self.wf(),
        ensures
            b == names(self@, f),
    {
        let mut fd: usize = 0;
        while fd < AX_FILE_LIMIT
            invariant
                fd <= AX_FILE_LIMIT,
                self.wf(),
                forall|g: usize| g < fd && self@.dom().contains(g) ==> self@[g] != f,
            decreases AX_FILE_LIMIT - fd,
        {
            match objects_get(&self.objects, fd) {
                Some(g) => {
                    if g == f {
                        return true;
                    }
                },
                None => {},
            }
            fd = fd + 1;
        }
        false
    }

    /// Gives `f` the lowest free descriptor, or fails with `TooManyFiles`
    /// when every descriptor is in use.
    pub fn add_file_like(&mut self, f: u64) -> (r: Result<i32, FdError>)
        requires
            old(self).wf(),
        ensures
            final(self).wf(),
            add_effect(old(self)@, f, final(self)@, r),
    {
        match objects_add(&mut self.objects, f) {
            Ok(id) => Ok(id as i32),
            Err(_) => Err(FdError::TooManyFiles),
        }
    }

    /// Frees descriptor `fd` and hands back the object it named, or fails
    /// with `BadFd` when `fd` is not open.
    pub fn close_file_like(&mut self, fd: i32) -> (r: Result<u64, FdError>)
        requires
            old(self).wf(),
        ensures
            final(self).wf(),
            close_effect(old(self)@, fd, final(self)@, r),
    {
        if fd < 0 {
            return Err(FdError::BadFd);
        }
        match objects_remove(&mut self.objects, fd as usize) {
            Some(f) => Ok(f),
            None => Err(FdError::BadFd),
        }
    }

    /// Gives the object of `old_fd` a second descriptor, the lowest free one.
    pub fn dup_fd(&mut self, old_fd: i32) -> (r: Result<i32, FdError>)
        requires
            old(self).wf(),
        ensures
            final(self).wf(),
            match lookup(old(self)@, old_fd) {
                Ok(f) => add_effect(old(self)@, f, final(self)@, r),
                Err(e) => r == Err::<i32, FdError>(e) && final(self)@ == old(self)@,
            },
    {
        let f = match self.get_file_like(old_fd) {
            Ok(f) => f,
            Err(e) => return Err(e),
        };
        self.add_file_like(f)
    }

    /// `close` as the C interface performs it: the standard streams (0, 1
    /// and 2) are left open and the call succeeds with `Ok(None)`; any other descriptor is
    /// closed as by `close_file_like`, yielding the object it named.
    pub fn close_descriptor(&mut self, fd: i32) -> (r: Result<Option<u64>, FdError>)
        requires
            old(self).wf(),
        ensures
            final(self).wf(),
            0 <= fd < 3 ==> r == Ok::<Option<u64>, FdError>(None) && final(self)@ == old(self)@,
            !(0 <= fd < 3) ==> match lookup(old(self)@, fd) {
                Ok(f) => r == Ok::<Option<u64>, FdError>(Some(f)) && final(self)@ == old(
                    self,
                )@.remove(fd as usize),
                Err(e) => r == Err::<Option<u64>, FdError>(e) && final(self)@ == old(self)@,
            },
    {
        if 0 <= fd && fd < 3 {
            return Ok(None);
        }
        match self.close_file_like(fd) {
            Ok(f) => Ok(Some(f)),
            Err(e) => Err(e),
        }
    }

    /// The object behind `fd` for a read, write or stat whose buffer pointer
    /// is null exactly when `buf_is_null`: a null buffer fails with
    /// `BadAddress` before the descriptor is looked at.
    pub fn io_target(&self, fd: i32, buf_is_null: bool) -> (r: Result<u64, FdError>)
        ensures
            buf_is_null ==> r == Err::<u64, FdError>(FdError::BadAddress),
            !buf_is_null ==> r == lookup(self@, fd),
    {
        if buf_is_null {
            return Err(FdError::BadAddress);
        }
        self.get_file_like(fd)
    }

    /// `fcntl`: `F_DUPFD` and `F_DUPFD_CLOEXEC` duplicate `fd` as `dup_fd`
    /// does; `F_SETFL` hands the status flags of the file behind `fd` to the
    /// caller to set; every other command is accepted and does nothing.
    pub fn fcntl(&mut self, fd: i32, cmd: i32, arg: usize) -> (r: FcntlOutcome)
        requires
            old(self).wf(),
        ensures
            final(self).wf(),
            (cmd == F_DUPFD || cmd == F_DUPFD_CLOEXEC) ==> match lookup(old(self)@, fd) {
                Ok(f) => (r matches FcntlOutcome::Done(res) && add_effect(
                    old(self)@,
                    f,
                    final(self)@,
                    res,
                )),
                Err(e) => (r matches FcntlOutcome::Done(res) && res == Err::<i32, FdError>(e))
                    && final(self)@ == old(self)@,
            },
            cmd == F_SETFL ==> final(self)@ == old(self)@ && match lookup(old(self)@, fd) {
                Ok(f) => (r matches FcntlOutcome::SetStatusFlags { file, arg: a } && file == f
                    && a == arg),
                Err(e) => (r matches FcntlOutcome::Done(res) && res == Err::<i32, FdError>(e)),
            },
            !(cmd == F_DUPFD || cmd == F_DUPFD_CLOEXEC || cmd == F_SETFL) ==> (r matches FcntlOutcome::Done(
                res,
            ) && res == Ok::<i32, FdError>(0)) && final(self)@ == old(self)@,
    {
        if cmd == F_DUPFD || cmd == F_DUPFD_CLOEXEC {
            FcntlOutcome::Done(self.dup_fd(fd))
        } else if cmd == F_SETFL {
            match self.get_file_like(fd) {
                Ok(f) => FcntlOutcome::SetStatusFlags { file: f, arg },
                Err(e) => FcntlOutcome::Done(Err(e)),
            }
        } else {
            FcntlOutcome::Done(Ok(0))
        }
    }

    /// `dup3`: as `dup2`, makes `new_fd` name the object of `old_fd`, first
    /// closing `new_fd` silently when it is open. Fails with
    /// `InvalidArgument` when the two are equal, and with `BadFd` when
    /// `new_fd` is out of range or `old_fd` is not open. Close-on-exec in
    /// `flags` is passed on to `fcntl` as `F_SETFD`, which is ignored.
    pub fn dup3(&mut self, old_fd: i32, new_fd: i32, flags: i32) -> (r: Result<i32, FdError>)
        requires
            old(self).wf(),
        ensures
            final(self).wf(),
            r == dup3_result(old(self)@, old_fd, new_fd),
            0 <= old_fd && old(self)@.dom().contains(old_fd as usize) && new_fd != old_fd && 0 <= new_fd
                < AX_FILE_LIMIT ==> r == Ok::<i32, FdError>(new_fd),
            r is Ok ==> final(self)@ == old(self)@.insert(new_fd as usize, old(self)@[old_fd as usize]),
            r is Err ==> final(self)@ == old(self)@,
    {
        if old_fd == new_fd {
            return Err(FdError::InvalidArgument);
        }
        if new_fd < 0 || new_fd as usize >= AX_FILE_LIMIT {
            return Err(FdError::BadFd);
        }
        let f = match self.get_file_like(old_fd) {
            Ok(f) => f,
            Err(e) => return Err(e),
        };
        let _ = objects_add_or_replace_at(&mut self.objects, new_fd as usize, f);
        if (flags as u32) & O_CLOEXEC != 0 {
            let _ = self.fcntl(new_fd, F_SETFD, FD_CLOEXEC);
        }
        Ok(new_fd)
    }
}

/// Adding an object gives it a descriptor that then names it, and leaves
/// every other descriptor as it was.
pub proof fn lemma_get_after_add(m: Map<usize, u64>, f: u64, m2: Map<usize, u64>, fd: i32)
    requires
        add_effect(m, f, m2, Ok(fd)),
    ensures
        lookup(m2, fd) == Ok::<u64, FdError>(f),
        forall|g: i32| g != fd ==> #[trigger] lookup(m2, g) == lookup(m, g),
{
}

/// A closed descriptor no longer names anything; the others are untouched.
pub proof fn lemma_get_after_close(m: Map<usize, u64>, fd: i32, m2: Map<usize, u64>, r: Result<u64, FdError>)
    requires
        close_effect(m, fd, m2, r),
    ensures
        lookup(m2, fd) == Err::<u64, FdError>(FdError::BadFd),
        forall|g: i32| g != fd ==> #[trigger] lookup(m2, g) == lookup(m, g),
{
}

/// Adding fails exactly when every descriptor is in use.
pub proof fn lemma_add_fails_iff_full(m: Map<usize, u64>, f: u64, m2: Map<usize, u64>, r: Result<i32, FdError>)
    requires
        add_effect(m, f, m2, r),
    ensures
        r is Err <==> is_full(m),
{
    if let Ok(fd) = r {
        assert(!m.dom().contains(fd as usize));
    }
}

/// The descriptor that adding hands out is determined by the table alone.
pub proof fn lemma_add_is_deterministic(
    m: Map<usize, u64>,
    f: u64,
    m2: Map<usize, u64>,
    r: Result<i32, FdError>,
    m3: Map<usize, u64>,
    r3: Result<i32, FdError>,
)
    requires
        add_effect(m, f, m2, r),
        add_effect(m, f, m3, r3),
    ensures
        r == r3,
        m2 == m3,
{
    if let Ok(a) = r {
        if let Ok(b) = r3 {
            if a < b {
                assert(m.dom().contains(a as usize));
            } else if b < a {
                assert(m.dom().contains(b as usize));
            }
        } else {
            assert(!m.dom().contains(a as usize));
        }
    } else if let Ok(b) = r3 {
        assert(!m.dom().contains(b as usize));
    }
}

/// Closing the lowest open descriptor above a gap-free prefix and then adding
/// an object hands the same descriptor out again.
pub proof fn lemma_add_after_close_reuses(
    m: Map<usize, u64>,
    fd: i32,
    m2: Map<usize, u64>,
    r: Result<u64, FdError>,
    f: u64,
    m3: Map<usize, u64>,
    r2: Result<i32, FdError>,
)
    requires
        within_limit(m),
        lookup(m, fd) is Ok,
        forall|j: usize| j < fd ==> m.dom().contains(j),
        close_effect(m, fd, m2, r),
        add_effect(m2, f, m3, r2),
    ensures
        r2 == Ok::<i32, FdError>(fd),
{
    assert(is_lowest_free(m2, fd as usize));
    let w = fd as usize;
    assert(!m2.dom().contains(w));
    if let Ok(g) = r2 {
        if g < fd {
            assert(m2.dom().contains(g as usize));
        } else if fd < g {
            assert(m2.dom().contains(w));
        }
    }
}

/// A duplicated descriptor names the same object as the one it copies.
pub proof fn lemma_dup_shares_object(m: Map<usize, u64>, old_fd: i32, f: u64, m2: Map<usize, u64>, new_fd: i32)
    requires
        lookup(m, old_fd) == Ok::<u64, FdError>(f),
        add_effect(m, f, m2, Ok(new_fd)),
    ensures
        lookup(m2, new_fd) == lookup(m2, old_fd),
        lookup(m2, new_fd) == Ok::<u64, FdError>(f),
{
}

/// `dup3` succeeds whenever `old_fd` is open and `new_fd` is a different
/// descriptor number in range, whichever of the two is larger and whether or
/// not `new_fd` is open.
pub proof fn lemma_dup3_succeeds(m: Map<usize, u64>, old_fd: i32, new_fd: i32)
    requires
        0 <= old_fd,
        m.dom().contains(old_fd as usize),
        new_fd != old_fd,
        0 <= new_fd < AX_FILE_LIMIT,
    ensures
        dup3_result(m, old_fd, new_fd) == Ok::<i32, FdError>(new_fd),
{
}

/// After a successful `dup3`, the new descriptor names the object of the old
/// one, and the old one still does.
pub proof fn lemma_dup3_shares_object(m: Map<usize, u64>, old_fd: i32, new_fd: i32, m2: Map<usize, u64>)
    requires
        dup3_result(m, old_fd, new_fd) is Ok,
        m2 == m.insert(new_fd as usize, m[old_fd as usize]),
    ensures
        lookup(m2, new_fd) == lookup(m, old_fd),
        lookup(m2, old_fd) == lookup(m, old_fd),
{
}

} // verus!
