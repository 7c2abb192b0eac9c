//! Descriptor bit sets and the bookkeeping of `select`.
//!
//! A `select` call is worked in rounds: `select_prepare` records which
//! descriptors the caller asked about and clears the caller's sets; each
//! round, `select_mark` sets the bits of the descriptors found ready and
//! counts them; `select_timed_out` says when to give up.

use vstd::prelude::*;

verus! {

/// Number of descriptors an `FdSet` can hold.
pub const FD_SETSIZE: usize = 1024;

/// A set of descriptors, one bit each, as the C `fd_set`: descriptor `n` is
/// bit `n % 64` of word `n / 64`.
#[derive(Clone, Copy)]
pub struct FdSet {
    pub fds_bits: [u64; 16],
}

/// Bit `k` of `word` is set.
pub open spec fn bit_set(word: u64, k: u64) -> bool {
    word & (1u64 << k) != 0
}

impl FdSet {
    /// Descriptor `n` is in the set.
    pub open spec fn has(&self, n: int) -> bool {
        bit_set(self.fds_bits@[n / 64], (n % 64) as u64)
    }

    /// Every word of the set is zero.
    pub open spec fn is_cleared(&self) -> bool {
        forall|w: int| 0 <= w < 16 ==> #[trigger] self.fds_bits@[w] == 0
    }

    /// The set with no descriptor in it.
    pub fn empty() -> (s: FdSet)
        ensures
            s.is_cleared(),
            forall|n: int| 0 <= n < FD_SETSIZE ==> !#[trigger] s.has(n),
    {
        let s = FdSet { fds_bits: [0u64; 16] };
        proof {
            lemma_cleared_has_nothing(s);
        }
        s
    }
}

proof fn lemma_zero_word_has_no_bit(k: u64)
    requires
        k < 64,
    ensures
        !bit_set(0u64, k),
{
    assert(0u64 & (1u64 << k) == 0) by (bit_vector);
}

proof fn lemma_or_bit(x: u64, k: u64, j: u64)
    requires
        k < 64,
        j < 64,
    ensures
        bit_set(x | (1u64 << k), j) == (j == k || bit_set(x, j)),
{
    assert((x | (1u64 << k)) & (1u64 << j) != 0 <==> (j == k || x & (1u64 << j) != 0))
        by (bit_vector)
        requires
            k < 64,
            j < 64,
    ;
}

/// A cleared set holds no descriptor.
pub proof fn lemma_cleared_has_nothing(s: FdSet)
    requires
        s.is_cleared(),
    ensures
        forall|n: int| 0 <= n < FD_SETSIZE ==> !#[trigger] s.has(n),
{
    assert forall|n: int| 0 <= n < FD_SETSIZE implies !#[trigger] s.has(n) by {
        assert(s.fds_bits@[n / 64] == 0);
        lemma_zero_word_has_no_bit((n % 64) as u64);
    }
}

/// Whether descriptor `n` is in `fds`.
pub fn getbit(fds: &FdSet, n: usize) -> (b: bool)
    requires
        n < FD_SETSIZE,
    ensures
        b == fds.has(n as int),
{
    let word = fds.fds_bits[n / 64];
    (word & (1u64 << ((n % 64) as u64))) > 0
}

/// Puts descriptor `n` into `fds`, leaving every other descriptor as it was.
pub fn setbit(fds: &mut FdSet, n: usize)
    requires
        n < FD_SETSIZE,
    ensures
        final(fds).has(n as int),
        forall|m: int| 0 <= m < FD_SETSIZE && m != n ==> #[trigger] final(fds).has(m) == old(fds).has(m),
{
    let w = n / 64;
    let k = (n % 64) as u64;
    let word = fds.fds_bits[w] | (1u64 << k);
    fds.fds_bits[w] = word;
    proof {
        lemma_or_bit(old(fds).fds_bits@[w as int], k, k);
        assert forall|m: int| 0 <= m < FD_SETSIZE && m != n implies #[trigger] final(fds).has(m)
            == old(fds).has(m) by {
            if m / 64 == w as int {
                lemma_or_bit(old(fds).fds_bits@[w as int], k, (m % 64) as u64);
            }
        }
    }
}

/// Empties `fds`.
pub fn clrfds(fds: &mut FdSet)
    ensures
        final(fds).is_cleared(),
        forall|n: int| 0 <= n < FD_SETSIZE ==> !#[trigger] final(fds).has(n),
{
    *fds = FdSet::empty();
}

/// Putting a descriptor into a set and then asking for it finds it.
pub proof fn lemma_getbit_after_setbit(before: FdSet, after: FdSet, n: int, m: int)
    requires
        0 <= n < FD_SETSIZE,
        0 <= m < FD_SETSIZE,
        after.has(n),
        forall|k: int| 0 <= k < FD_SETSIZE && k != n ==> #[trigger] after.has(k) == before.has(k),
    ensures
        after.has(m) == (m == n || before.has(m)),
{
}

/// A descriptor the caller of `select` asked about, and in which of the
/// three sets (read, write, exceptional) it was.
#[derive(Clone, Copy)]
pub struct Interest {
    pub fd: u16,
    pub want: [bool; 3],
}

/// Set `j` of `sets` is given and holds descriptor `n`.
pub open spec fn wanted(sets: [Option<FdSet>; 3], j: int, n: int) -> bool {
    sets@[j] matches Some(s) && s.has(n)
}

/// Some given set holds descriptor `n`.
pub open spec fn any_wanted(sets: [Option<FdSet>; 3], n: int) -> bool {
    wanted(sets, 0, n) || wanted(sets, 1, n) || wanted(sets, 2, n)
}

/// `e` records descriptor `e.fd` of `sets` faithfully.
pub open spec fn records(sets: [Option<FdSet>; 3], e: Interest) -> bool {
    &&& e.fd < FD_SETSIZE
    &&& any_wanted(sets, e.fd as int)
    &&& forall|j: int| 0 <= j < 3 ==> #[trigger] e.want@[j] == wanted(sets, j, e.fd as int)
}

/// `entries` lists, in increasing order, exactly the descriptors below `bound`
/// that some set of `sets` holds.
pub open spec fn lists_wanted(entries: Seq<Interest>, sets: [Option<FdSet>; 3], bound: int) -> bool {
    &&& forall|k: int| 0 <= k < entries.len() ==> #[trigger] records(sets, entries[k])
    &&& forall|k: int| 0 <= k < entries.len() ==> #[trigger] entries[k].fd < bound
    &&& forall|a: int, b: int| 0 <= a < b < entries.len() ==> entries[a].fd < entries[b].fd
    &&& forall|n: int| 0 <= n < bound && #[trigger] any_wanted(sets, n) ==> exists|k: int|
        0 <= k < entries.len() && entries[k].fd == n
}

/// How many of the three sets hold descriptor `n`.
pub open spec fn row_wanted(sets: [Option<FdSet>; 3], n: int) -> nat {
    (if wanted(sets, 0, n) { 1nat } else { 0nat }) + (if wanted(sets, 1, n) { 1nat } else { 0nat }) + (
    if wanted(sets, 2, n) {
        1nat
    } else {
        0nat
    })
}

/// How many bits the given sets have set among descriptors below `bound`:
/// the number of (set, descriptor) pairs the caller asked about.
pub open spec fn requested_bits(sets: [Option<FdSet>; 3], bound: int) -> nat
    decreases bound,
{
    if bound <= 0 {
        0
    } else {
        requested_bits(sets, bound - 1) + row_wanted(sets, bound - 1)
    }
}

/// In how many sets entry `e` was asked for.
pub open spec fn wants(e: Interest) -> nat {
    (if e.want@[0] { 1nat } else { 0nat }) + (if e.want@[1] { 1nat } else { 0nat }) + (if e.want@[2] {
        1nat
    } else {
        0nat
    })
}

/// How many (set, descriptor) pairs `entries` records.
pub open spec fn wants_total(entries: Seq<Interest>) -> nat
    decreases entries.len(),
{
    if entries.len() == 0 {
        0
    } else {
        wants_total(entries.drop_last()) + wants(entries.last())
    }
}

/// The descriptors a `select` call waits on, as recorded before its sets were
/// cleared.
pub struct SelectInterest {
    entries: Vec<Interest>,
}

impl View for SelectInterest {
    type V = Seq<Interest>;

    closed spec fn view(&self) -> Seq<Interest> {
        self.entries@
    }
}

impl SelectInterest {
    /// Descriptors are below `FD_SETSIZE`, strictly increasing, and each
    /// is wanted by some set.
    pub open spec fn wf(&self) -> bool {
        &&& self@.len() <= FD_SETSIZE
        &&& forall|k: int| 0 <= k < self@.len() ==> #[trigger] self@[k].fd < FD_SETSIZE
        &&& forall|a: int, b: int| 0 <= a < b < self@.len() ==> self@[a].fd < self@[b].fd
    }

    /// Every set that some entry wants is given in `sets`.
    pub open spec fn fits(&self, sets: [Option<FdSet>; 3]) -> bool {
        forall|k: int, j: int|
            0 <= k < self@.len() && 0 <= j < 3 && #[trigger] self@[k].want@[j] ==> sets@[j] is Some
    }

    /// Number of recorded descriptors.
    pub fn len(&self) -> (n: usize)
        ensures
            n == self@.len(),
    {
        self.entries.len()
    }

    /// The `k`-th recorded descriptor.
    pub fn fd_at(&self, k: usize) -> (fd: u16)
        requires
            k < self@.len(),
        ensures
            fd == self@[k as int].fd,
    {
        self.entries[k].fd
    }
}

/// First half of `select`: records, in increasing order, every descriptor
/// below `FD_SETSIZE` that one of the given sets holds, together with which
/// sets hold it, and then clears every given set.
pub fn select_prepare(fds: &mut [Option<FdSet>; 3]) -> (interest: SelectInterest)
    ensures
        interest.wf(),
        lists_wanted(interest@, *old(fds), FD_SETSIZE as int),
        wants_total(interest@) == requested_bits(*old(fds), FD_SETSIZE as int),
        interest.fits(*final(fds)),
        forall|j: int| 0 <= j < 3 ==> (#[trigger] final(fds)@[j] is Some <==> old(fds)@[j] is Some),
        forall|j: int| 0 <= j < 3 ==> (#[trigger] final(fds)@[j] matches Some(s) ==> s.is_cleared()),
{
    let ghost sets = *fds;
    let mut entries: Vec<Interest> = Vec::new();
    let mut i: usize = 0;
    while i < FD_SETSIZE
        invariant
            i <= FD_SETSIZE,
            *fds == sets,
            entries@.len() <= i,
            lists_wanted(entries@, sets, i as int),
            wants_total(entries@) == requested_bits(sets, i as int),
        decreases FD_SETSIZE - i,
    {
        let mut rec = [false, false, false];
        let mut j: usize = 0;
        while j < 3
            invariant
                j <= 3,
                i < FD_SETSIZE,
                *fds == sets,
                forall|q: int| 0 <= q < j ==> #[trigger] rec@[q] == wanted(sets, q, i as int),
            decreases 3 - j,
        {
            let b = match &fds[j] {
                Some(s) => getbit(s, i),
                None => false,
            };
            rec[j] = b;
            j = j + 1;
        }
        let ghost prev = entries@;
        if rec[0] || rec[1] || rec[2] {
            let e = Interest { fd: i as u16, want: rec };
            proof {
                assert(records(sets, e));
            }
            entries.push(e);
            proof {
                assert(entries@.drop_last() =~= prev);
            }
        }
        proof {
            assert forall|n: int| 0 <= n < i + 1 && #[trigger] any_wanted(sets, n) implies exists|
                k: int,
            | 0 <= k < entries@.len() && entries@[k].fd == n by {
                if n == i as int {
                    assert(entries@[entries@.len() - 1].fd == n);
                } else {
                    let k = choose|k: int| 0 <= k < prev.len() && prev[k].fd == n;
                    assert(entries@[k] == prev[k]);
                }
            }
        }
        i = i + 1;
    }
    let mut j: usize = 0;
    while j < 3
        invariant
            j <= 3,
            forall|q: int| 0 <= q < 3 ==> (#[trigger] fds@[q] is Some <==> sets@[q] is Some),
            forall|q: int| 0 <= q < j ==> (#[trigger] fds@[q] matches Some(s) ==> s.is_cleared()),
        decreases 3 - j,
    {
        if fds[j].is_some() {
            fds[j] = Some(FdSet::empty());
        }
        j = j + 1;
    }
    let interest = SelectInterest { entries };
    proof {
        assert forall|k: int, q: int|
            0 <= k < interest@.len() && 0 <= q < 3 && #[trigger] interest@[k].want@[q] implies fds@[q] is Some by {
            assert(records(sets, interest@[k]));
        }
    }
    interest
}

/// Entry `k` was asked for in set `j` and found ready for it.
pub open spec fn marks(entries: Seq<Interest>, ready: Seq<[bool; 3]>, k: int, j: int) -> bool {
    entries[k].want@[j] && ready[k]@[j]
}

/// Among the first `upto` entries, one for descriptor `n` was asked for in
/// set `j` and found ready for it.
pub open spec fn marked_before(entries: Seq<Interest>, ready: Seq<[bool; 3]>, upto: int, j: int, n: int) -> bool {
    exists|k: int| 0 <= k < upto && #[trigger] entries[k].fd == n && marks(entries, ready, k, j)
}

/// How many of the first `j` sets entry `k` marks.
pub open spec fn row_count(entries: Seq<Interest>, ready: Seq<[bool; 3]>, k: int, j: int) -> nat
    decreases j,
{
    if j <= 0 {
        0
    } else {
        row_count(entries, ready, k, j - 1) + if marks(entries, ready, k, j - 1) {
            1nat
        } else {
            0nat
        }
    }
}

/// How many (entry, set) pairs the first `k` entries mark.
pub open spec fn marked_count(entries: Seq<Interest>, ready: Seq<[bool; 3]>, k: int) -> nat
    decreases k,
{
    if k <= 0 {
        0
    } else {
        marked_count(entries, ready, k - 1) + row_count(entries, ready, k - 1, 3)
    }
}

proof fn lemma_row_count_bound(entries: Seq<Interest>, ready: Seq<[bool; 3]>, k: int, j: int)
    requires
        0 <= j,
    ensures
        row_count(entries, ready, k, j) <= j,
    decreases j,
{
    if j > 0 {
        lemma_row_count_bound(entries, ready, k, j - 1);
    }
}

proof fn lemma_marked_count_bound(entries: Seq<Interest>, ready: Seq<[bool; 3]>, k: int)
    requires
        0 <= k,
    ensures
        marked_count(entries, ready, k) <= 3 * k,
    decreases k,
{
    if k > 0 {
        lemma_marked_count_bound(entries, ready, k - 1);
        lemma_row_count_bound(entries, ready, k - 1, 3);
    }
}

proof fn lemma_marked_count_within_wants(entries: Seq<Interest>, ready: Seq<[bool; 3]>, k: int)
    requires
        0 <= k <= entries.len(),
    ensures
        marked_count(entries, ready, k) <= wants_total(entries.take(k)),
    decreases k,
{
    if k > 0 {
        lemma_marked_count_within_wants(entries, ready, k - 1);
        assert(entries.take(k).drop_last() =~= entries.take(k - 1));
        reveal_with_fuel(row_count, 4);
    }
}

proof fn lemma_wants_total_prefix(entries: Seq<Interest>, k: int)
    requires
        0 <= k <= entries.len(),
    ensures
        wants_total(entries.take(k)) <= wants_total(entries),
    decreases entries.len() - k,
{
    if k < entries.len() {
        lemma_wants_total_prefix(entries, k + 1);
        assert(entries.take(k + 1).drop_last() =~= entries.take(k));
    } else {
        assert(entries.take(k) =~= entries);
    }
}

/// One round of `select`: for each of the first `ready.len()` recorded
/// descriptors, in order, and each set it was asked for in, puts the
/// descriptor back into that set when `ready` says it is ready for it, and
/// counts it. Returns the count.
pub fn select_mark(fds: &mut [Option<FdSet>; 3], interest: &SelectInterest, ready: &Vec<[bool; 3]>) -> (count: usize)
    requires
        interest.wf(),
        interest.fits(*old(fds)),
        ready@.len() <= interest@.len(),
    ensures
        count == marked_count(interest@, ready@, ready@.len() as int),
        count <= wants_total(interest@),
        forall|j: int| 0 <= j < 3 ==> (#[trigger] final(fds)@[j] is Some <==> old(fds)@[j] is Some),
        forall|j: int, n: int|
            0 <= j < 3 && 0 <= n < FD_SETSIZE && final(fds)@[j] is Some
                ==> (#[trigger] final(fds)@[j]->0.has(n) == (old(fds)@[j]->0.has(n)
                || marked_before(interest@, ready@, ready@.len() as int, j, n))),
{
    let ghost entries = interest@;
    let ghost rd = ready@;
    let ghost start = *fds;
    let mut count: usize = 0;
    let mut k: usize = 0;
    while k < ready.len()
        invariant
            interest.wf(),
            interest@ == entries,
            ready@ == rd,
            rd.len() <= entries.len(),
            k <= rd.len(),
            interest.fits(start),
            count == marked_count(entries, rd, k as int),
            forall|j: int| 0 <= j < 3 ==> (#[trigger] fds@[j] is Some <==> start@[j] is Some),
            forall|j: int, n: int|
                0 <= j < 3 && 0 <= n < FD_SETSIZE && fds@[j] is Some ==> (#[trigger] fds@[j]->0.has(n)
                    == (start@[j]->0.has(n) || marked_before(entries, rd, k as int, j, n))),
        decreases rd.len() - k,
    {
        let e = interest.entries[k];
        let r = ready[k];
        let fd = e.fd as usize;
        proof {
            lemma_marked_count_bound(entries, rd, k as int);
        }
        let ghost before = *fds;
        let mut j: usize = 0;
        while j < 3
            invariant
                interest.wf(),
                interest@ == entries,
                ready@ == rd,
                k < rd.len(),
                rd.len() <= entries.len(),
                rd.len() <= FD_SETSIZE,
                j <= 3,
                e == entries[k as int],
                r == rd[k as int],
                fd == e.fd,
                fd < FD_SETSIZE,
                interest.fits(start),
                count == marked_count(entries, rd, k as int) + row_count(entries, rd, k as int, j as int),
                marked_count(entries, rd, k as int) <= 3 * k,
                forall|q: int| 0 <= q < 3 ==> (#[trigger] fds@[q] is Some <==> start@[q] is Some),
                forall|q: int, n: int|
                    0 <= q < j && 0 <= n < FD_SETSIZE && fds@[q] is Some ==> (
                    #[trigger] fds@[q]->0.has(n) == (before@[q]->0.has(n) || (n == fd && marks(entries, rd, k as int, q)))),
                forall|q: int| j <= q < 3 ==> #[trigger] fds@[q] == before@[q],
            decreases 3 - j,
        {
            proof {
                lemma_row_count_bound(entries, rd, k as int, j as int);
            }
            if e.want[j] && r[j] {
                match fds[j] {
                    Some(set) => {
                        let mut set = set;
                        setbit(&mut set, fd);
                        fds[j] = Some(set);
                        count = count + 1;
                    },
                    None => {
                        proof {
                            assert(entries[k as int].want@[j as int]);
                        }
                    },
                }
            }
            j = j + 1;
        }
        proof {
            assert forall|q: int, n: int|
                0 <= q < 3 && 0 <= n < FD_SETSIZE && fds@[q] is Some implies (#[trigger] fds@[q]->0.has(n)
                == (start@[q]->0.has(n) || marked_before(entries, rd, k + 1, q, n))) by {
                if marked_before(entries, rd, k + 1, q, n) && !marked_before(entries, rd, k as int, q, n) {
                    let w = choose|w: int| 0 <= w < k + 1 && #[trigger] entries[w].fd == n && marks(entries, rd, w, q);
                    assert(w == k);
                }
                if n == fd && marks(entries, rd, k as int, q) {
                    assert(entries[k as int].fd == n);
                }
            }
        }
        k = k + 1;
    }
    proof {
        lemma_marked_count_within_wants(entries, rd, rd.len() as int);
        lemma_wants_total_prefix(entries, rd.len() as int);
    }
    count
}

/// A C `timeval`: seconds and microseconds.
#[derive(Clone, Copy)]
pub struct TimeVal {
    pub tv_sec: i64,
    pub tv_usec: i64,
}

/// The micro-second count that the timeout `tv` stands for.
pub open spec fn timeout_micros(tv: TimeVal) -> u64 {
    ((tv.tv_sec * 1000000) as u64 + tv.tv_usec as u64) as u64
}

/// The timeout of a `select` call in micro-seconds: `None` when no timeout
/// is given, else `tv_sec * 1_000_000` taken as unsigned plus `tv_usec` taken
/// as unsigned. The computation must not overflow.
pub fn select_timeout(tv: Option<TimeVal>) -> (t: Option<u64>)
    requires
        tv matches Some(v) ==> i64::MIN <= v.tv_sec * 1000000 <= i64::MAX
            && (v.tv_sec * 1000000) as u64 + v.tv_usec as u64 <= u64::MAX,
    ensures
        t == (match tv {
            Some(v) => Some(timeout_micros(v)),
            None => None::<u64>,
        }),
        match tv {
            Some(v) => 0 <= v.tv_sec && 0 <= v.tv_usec < 1000000 ==> t == Some(
                (v.tv_sec * 1000000 + v.tv_usec) as u64,
            ),
            None => true,
        },
{
    match tv {
        None => None,
        Some(v) => {
            let secs = v.tv_sec * 1000 * 1000;
            proof {
                if 0 <= v.tv_sec && 0 <= v.tv_usec < 1000000 {
                    lemma_timeout_is_sum(v);
                }
            }
            Some((secs as u64) + (v.tv_usec as u64))
        },
    }
}

/// A timeout of `tv_sec` seconds and `tv_usec` micro-seconds (a valid
/// `timeval`: neither negative, `tv_usec` below a second) lasts exactly
/// `tv_sec * 1_000_000 + tv_usec` micro-seconds, whenever that fits.
pub proof fn lemma_timeout_is_sum(tv: TimeVal)
    requires
        0 <= tv.tv_sec,
        0 <= tv.tv_usec < 1000000,
        tv.tv_sec * 1000000 <= i64::MAX,
        tv.tv_sec * 1000000 + tv.tv_usec <= u64::MAX,
    ensures
        timeout_micros(tv) == tv.tv_sec * 1000000 + tv.tv_usec,
{
}

/// A `select` call with the given timeout (in micro-seconds), after
/// `elapsed_nanos` nano-seconds, has run out of time: the elapsed time is
/// strictly longer than the timeout.
pub fn select_timed_out(timeout: Option<u64>, elapsed_nanos: u128) -> (b: bool)
    ensures
        b == (timeout matches Some(t) && t * 1000 < elapsed_nanos),
{
    match timeout {
        Some(t) => (t as u128) * 1000 < elapsed_nanos,
        None => false,
    }
}

/// `select` reports a descriptor in a set only if the caller had put it in
/// that set: every mark of a round over the recorded interest is one the
/// caller asked for.
pub proof fn lemma_reported_only_if_asked(
    sets: [Option<FdSet>; 3],
    entries: Seq<Interest>,
    ready: Seq<[bool; 3]>,
    j: int,
    n: int,
)
    requires
        lists_wanted(entries, sets, FD_SETSIZE as int),
        ready.len() <= entries.len(),
        0 <= j < 3,
        marked_before(entries, ready, ready.len() as int, j, n),
    ensures
        wanted(sets, j, n),
{
    let k = choose|k: int| 0 <= k < ready.len() && #[trigger] entries[k].fd == n && marks(entries, ready, k, j);
    assert(records(sets, entries[k]));
}

/// A round of `select` over the interest that `select_prepare` recorded
/// counts at most as many descriptors as the caller's sets asked about.
pub proof fn lemma_select_count_bounded(
    sets: [Option<FdSet>; 3],
    entries: Seq<Interest>,
    ready: Seq<[bool; 3]>,
)
    requires
        wants_total(entries) == requested_bits(sets, FD_SETSIZE as int),
        ready.len() <= entries.len(),
    ensures
        marked_count(entries, ready, ready.len() as int) <= requested_bits(sets, FD_SETSIZE as int),
{
    lemma_marked_count_within_wants(entries, ready, ready.len() as int);
    lemma_wants_total_prefix(entries, ready.len() as int);
}

/// After the sets are cleared by `select_prepare`, a round leaves in a set
/// exactly the descriptors it marked there.
pub proof fn lemma_round_result_is_exact(
    cleared: FdSet,
    after: FdSet,
    entries: Seq<Interest>,
    ready: Seq<[bool; 3]>,
    j: int,
)
    requires
        cleared.is_cleared(),
        0 <= j < 3,
        forall|n: int| 0 <= n < FD_SETSIZE ==> #[trigger] after.has(n) == (cleared.has(n)
            || marked_before(entries, ready, ready.len() as int, j, n)),
    ensures
        forall|n: int| 0 <= n < FD_SETSIZE ==> #[trigger] after.has(n) == marked_before(
            entries,
            ready,
            ready.len() as int,
            j,
            n,
        ),
{
    lemma_cleared_has_nothing(cleared);
}

} // verus!
