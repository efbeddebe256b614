//! The memory of message ids that de-duplication rests on.
//!
//! Ids are remembered in order of arrival. Old entries are evicted both by
//! count ([`SEEN_CAPACITY`]) and by age ([`SEEN_TTL`]), whichever comes first,
//! which keeps memory bounded on long-running nodes.
use std::collections::{HashSet, VecDeque};
use vstd::bytes::{
    lemma_auto_spec_u128_to_from_le_bytes, spec_u128_from_le_bytes, spec_u128_to_le_bytes,
    u128_from_le_bytes,
};
use vstd::prelude::*;

verus! {

broadcast use {vstd::std_specs::hash::group_hash_axioms, vstd::std_specs::vecdeque::group_vec_dequeue_axioms};

/// How many message ids are remembered for de-dup purposes.
pub const SEEN_CAPACITY: usize = 2048;

/// How long, in nanoseconds, a message id is remembered: five minutes.
pub const SEEN_TTL: u128 = 300_000_000_000;

/// One remembered id and the time, in nanoseconds, at which it was met.
struct SeenEntry {
    id: [u8; 16],
    at: u128,
}

/// The remembered message ids.
pub struct SeenCache {
    set: HashSet<u128>,
    order: VecDeque<SeenEntry>,
}

// ---------------------------------------------------------------------------
// Model
// ---------------------------------------------------------------------------

/// An id and the time at which it was met.
pub struct SeenAt {
    pub id: Seq<u8>,
    pub at: int,
}

/// The ids that count as seen, and the entries by which they will be
/// forgotten, oldest first.
#[verifier::ext_equal]
pub struct SeenView {
    pub known: Set<Seq<u8>>,
    pub order: Seq<SeenAt>,
}

/// The time from `at` to `now`, and zero if `at` lies ahead.
pub open spec fn age(at: int, now: int) -> int {
    if now > at {
        now - at
    } else {
        0
    }
}

/// Whether entry `i` has to go: it is too old, or the entries from it on are
/// too many.
pub open spec fn evictable(order: Seq<SeenAt>, now: int, i: int) -> bool {
    age(order[i].at, now) > SEEN_TTL || order.len() - i > SEEN_CAPACITY
}

/// The first entry from `i` on that need not go.
pub open spec fn first_kept(order: Seq<SeenAt>, now: int, i: int) -> int
    decreases order.len() - i,
{
    if 0 <= i < order.len() && evictable(order, now, i) {
        first_kept(order, now, i + 1)
    } else {
        i
    }
}

/// The ids that occur in `order`.
pub open spec fn ids(order: Seq<SeenAt>) -> Set<Seq<u8>> {
    Set::new(|id: Seq<u8>| exists|i: int| 0 <= i < order.len() && #[trigger] order[i].id == id)
}

/// The memory with the first `k` entries forgotten.
pub open spec fn forgot(v: SeenView, k: int) -> SeenView {
    SeenView { known: v.known.difference(ids(v.order.take(k))), order: v.order.skip(k) }
}

/// The memory after eviction at time `now`: entries leave from the oldest on,
/// up to the first that need not go.
pub open spec fn pruned(v: SeenView, now: int) -> SeenView {
    forgot(v, first_kept(v.order, now, 0))
}

/// The memory with one more entry.
pub open spec fn remembered(v: SeenView, id: Seq<u8>, at: int) -> SeenView {
    SeenView { known: v.known.insert(id), order: v.order.push(SeenAt { id, at }) }
}

/// Whether `id` is still known after eviction at time `now`.
pub open spec fn is_known(v: SeenView, id: Seq<u8>, now: int) -> bool {
    pruned(v, now).known.contains(id)
}

/// The memory after a new entry is made at time `now`: old entries are evicted
/// before and after.
pub open spec fn recorded(v: SeenView, id: Seq<u8>, now: int) -> SeenView {
    pruned(remembered(pruned(v, now), id, now), now)
}

/// The memory after an id arrives: old entries are evicted, and an id that is
/// not known is remembered.
pub open spec fn arrived(v: SeenView, id: Seq<u8>, now: int) -> SeenView {
    if is_known(v, id, now) {
        pruned(v, now)
    } else {
        recorded(v, id, now)
    }
}

/// What holds of the memory at all times: it is bounded, and every known id
/// has an entry by which it will be forgotten.
pub open spec fn seen_inv(v: SeenView) -> bool {
    &&& v.order.len() <= SEEN_CAPACITY
    &&& v.known.subset_of(ids(v.order))
}

// ---------------------------------------------------------------------------
// The cache
// ---------------------------------------------------------------------------

/// The number under which an id is kept in the hash set.
spec fn key(id: Seq<u8>) -> u128 {
    spec_u128_from_le_bytes(id)
}

proof fn lemma_key_injective(a: Seq<u8>, b: Seq<u8>)
    requires
        a.len() == 16,
        b.len() == 16,
        key(a) == key(b),
    ensures
        a == b,
{
    lemma_auto_spec_u128_to_from_le_bytes();
    assert(spec_u128_to_le_bytes(key(a)) == a);
    assert(spec_u128_to_le_bytes(key(b)) == b);
}

impl View for SeenCache {
    type V = SeenView;

    closed spec fn view(&self) -> SeenView {
        SeenView {
            known: Set::new(|id: Seq<u8>| id.len() == 16 && self.set@.contains(key(id))),
            order: self.order@.map_values(|e: SeenEntry| SeenAt { id: e.id@, at: e.at as int }),
        }
    }
}

impl SeenCache {
    /// An empty memory.
    pub fn new() -> (c: SeenCache)
        ensures
            c@ == (SeenView { known: Set::empty(), order: Seq::empty() }),
            seen_inv(c@),
    {
        let c = SeenCache { set: HashSet::new(), order: VecDeque::new() };
        assert(c@.known =~= Set::empty());
        assert(c@.order =~= Seq::empty());
        c
    }

    /// Evicts what is too old or too much at time `now`.
    fn prune(&mut self, now: u128)
        ensures
            final(self)@ == pruned(old(self)@, now as int),
    {
        let ghost start = self@;
        let ghost mut k: int = 0;
        proof {
            lemma_forgot_none(start);
        }
        while self.order.len() > 0
            invariant
                self@.order.len() == self.order@.len(),
                0 <= k <= start.order.len(),
                self@ == forgot(start, k),
                first_kept(start.order, now as int, 0) == first_kept(start.order, now as int, k),
            ensures
                0 <= k <= start.order.len(),
                self@ == forgot(start, k),
                first_kept(start.order, now as int, 0) == k,
            decreases self.order.len(),
        {
            let at: u128 = self.order[0].at;
            let elapsed: u128 = if now > at {
                now - at
            } else {
                0
            };
            assert(self@.order.len() == self.order@.len());
            assert(self@.order.len() == start.order.len() - k);
            assert(self@.order[0] == start.order[k]);
            if elapsed > SEEN_TTL || self.order.len() > SEEN_CAPACITY {
                let ghost before = self@;
                let removed = self.order.pop_front();
                if let Some(e) = removed {
                    let ghost gone = e.id@;
                    self.set.remove(&u128_from_le_bytes(e.id.as_slice()));
                    proof {
                        assert(gone == start.order[k].id);
                        assert(self@.order =~= before.order.skip(1));
                        assert(self@.known =~= before.known.remove(gone)) by {
                            assert forall|id: Seq<u8>| #[trigger]
                                self@.known.contains(id) == before.known.remove(gone).contains(
                                    id,
                                ) by {
                                if id.len() == 16 && key(id) == key(gone) {
                                    lemma_key_injective(id, gone);
                                }
                            }
                        }
                        lemma_forgot_step(start, k);
                        k = k + 1;
                    }
                }
            } else {
                break;
            }
        }
    }

    /// Remembers `id` as met at time `now`.
    fn remember(&mut self, id: [u8; 16], now: u128)
        ensures
            final(self)@ == remembered(old(self)@, id@, now as int),
    {
        let ghost before = self@;
        self.set.insert(u128_from_le_bytes(id.as_slice()));
        self.order.push_back(SeenEntry { id, at: now });
        proof {
            assert(self@.order =~= before.order.push(SeenAt { id: id@, at: now as int }));
            assert(self@.known =~= before.known.insert(id@)) by {
                assert forall|other: Seq<u8>| #[trigger]
                    self@.known.contains(other) == before.known.insert(id@).contains(other) by {
                    if other.len() == 16 && key(other) == key(id@) {
                        lemma_key_injective(other, id@);
                    }
                }
            }
        }
    }

    /// Takes note of an id that arrived at time `now`, and tells whether it is
    /// new.
    pub fn note_arrival(&mut self, id: [u8; 16], now: u128) -> (is_new: bool)
        ensures
            is_new == !is_known(old(self)@, id@, now as int),
            final(self)@ == arrived(old(self)@, id@, now as int),
            seen_inv(old(self)@) ==> seen_inv(final(self)@),
    {
        proof {
            arrival_keeps_inv(self@, id@, now as int);
        }
        self.prune(now);
        if self.set.contains(&u128_from_le_bytes(id.as_slice())) {
            false
        } else {
            self.remember(id, now);
            self.prune(now);
            true
        }
    }

    /// Takes note of an id of our own making at time `now`. It is remembered
    /// in any case.
    pub fn note_own(&mut self, id: [u8; 16], now: u128)
        ensures
            final(self)@ == recorded(old(self)@, id@, now as int),
            seen_inv(old(self)@) ==> seen_inv(final(self)@),
    {
        proof {
            recording_keeps_inv(self@, id@, now as int);
        }
        self.prune(now);
        self.remember(id, now);
        self.prune(now);
    }
}

proof fn lemma_forgot_none(v: SeenView)
    ensures
        forgot(v, 0) == v,
{
    assert(v.order.take(0) =~= Seq::empty());
    assert(ids(v.order.take(0)) =~= Set::empty());
    assert(v.known.difference(ids(v.order.take(0))) =~= v.known);
    assert(v.order.skip(0) =~= v.order);
}

proof fn lemma_forgot_step(v: SeenView, k: int)
    requires
        0 <= k < v.order.len(),
    ensures
        forgot(v, k + 1).order == forgot(v, k).order.skip(1),
        forgot(v, k + 1).known == forgot(v, k).known.remove(v.order[k].id),
{
    assert(v.order.skip(k + 1) =~= v.order.skip(k).skip(1));
    let a = v.order.take(k);
    let b = v.order.take(k + 1);
    assert(b =~= a.push(v.order[k]));
    assert forall|id: Seq<u8>| ids(b).contains(id) == (ids(a).contains(id) || id == v.order[k].id) by {
        if ids(a).contains(id) {
            let i = choose|i: int| 0 <= i < a.len() && #[trigger] a[i].id == id;
            assert(b[i].id == id);
        }
        if id == v.order[k].id {
            assert(b[k].id == id);
        }
        if ids(b).contains(id) && id != v.order[k].id {
            let i = choose|i: int| 0 <= i < b.len() && #[trigger] b[i].id == id;
            assert(a[i].id == id);
        }
    }
    assert(forgot(v, k + 1).known =~= forgot(v, k).known.remove(v.order[k].id));
}

proof fn lemma_first_kept(order: Seq<SeenAt>, now: int, i: int)
    requires
        0 <= i <= order.len(),
    ensures
        i <= first_kept(order, now, i) <= order.len(),
        forall|j: int| i <= j < first_kept(order, now, i) ==> #[trigger] evictable(order, now, j),
        first_kept(order, now, i) < order.len() ==> !evictable(
            order,
            now,
            first_kept(order, now, i),
        ),
    decreases order.len() - i,
{
    if i < order.len() && evictable(order, now, i) {
        lemma_first_kept(order, now, i + 1);
    }
}

// ---------------------------------------------------------------------------
// Laws
// ---------------------------------------------------------------------------

/// The limits of the memory: 2048 ids, and 300 seconds of a clock that counts
/// nanoseconds.
pub proof fn limits_of_the_memory()
    ensures
        SEEN_CAPACITY == 2048,
        SEEN_TTL == 300 * 1_000_000_000,
{
}

/// Eviction leaves at most [`SEEN_CAPACITY`] entries, keeps the newest ones in
/// their order, and forgets no known id that keeps an entry unless an evicted
/// entry carries it too.
pub proof fn pruning_bounds_memory(v: SeenView, now: int)
    ensures
        pruned(v, now).order.len() <= SEEN_CAPACITY,
        pruned(v, now).order.len() <= v.order.len(),
        pruned(v, now).order == v.order.skip(v.order.len() - pruned(v, now).order.len()),
        pruned(v, now).known.subset_of(v.known),
        v.known.subset_of(ids(v.order)) ==> pruned(v, now).known.subset_of(
            ids(pruned(v, now).order),
        ),
{
    let k = first_kept(v.order, now, 0);
    lemma_first_kept(v.order, now, 0);
    if v.known.subset_of(ids(v.order)) {
        assert forall|id: Seq<u8>| #[trigger]
            pruned(v, now).known.contains(id) implies ids(pruned(v, now).order).contains(id) by {
            let i = choose|i: int| 0 <= i < v.order.len() && #[trigger] v.order[i].id == id;
            if i < k {
                assert(v.order.take(k)[i].id == id);
            } else {
                assert(v.order.skip(k)[i - k].id == id);
            }
        }
    }
}

/// Whether the entries are in order of time.
pub open spec fn in_order(order: Seq<SeenAt>) -> bool {
    forall|a: int, b: int| 0 <= a <= b < order.len() ==> order[a].at <= order[b].at
}

/// With entries in order of time, eviction keeps exactly those entries that
/// are both young enough and among the newest [`SEEN_CAPACITY`].
pub proof fn pruning_keeps_the_recent(v: SeenView, now: int, i: int)
    requires
        0 <= i < v.order.len(),
        in_order(v.order),
    ensures
        i >= v.order.len() - pruned(v, now).order.len() <==> age(v.order[i].at, now) <= SEEN_TTL
            && v.order.len() - i <= SEEN_CAPACITY,
{
    let k = first_kept(v.order, now, 0);
    lemma_first_kept(v.order, now, 0);
    if i < k {
        assert(evictable(v.order, now, i));
    }
}

/// Arrivals keep the memory bounded and consistent.
pub proof fn arrival_keeps_inv(v: SeenView, id: Seq<u8>, now: int)
    ensures
        arrived(v, id, now).order.len() <= SEEN_CAPACITY,
        seen_inv(v) ==> seen_inv(arrived(v, id, now)),
{
    pruning_bounds_memory(v, now);
    recording_keeps_inv(v, id, now);
}

/// Messages of our own keep the memory bounded and consistent.
pub proof fn recording_keeps_inv(v: SeenView, id: Seq<u8>, now: int)
    ensures
        recorded(v, id, now).order.len() <= SEEN_CAPACITY,
        seen_inv(v) ==> seen_inv(recorded(v, id, now)),
{
    pruning_bounds_memory(v, now);
    lemma_remember_inv(pruned(v, now), id, now);
    pruning_bounds_memory(remembered(pruned(v, now), id, now), now);
}

proof fn lemma_remember_inv(v: SeenView, id: Seq<u8>, now: int)
    ensures
        v.known.subset_of(ids(v.order)) ==> remembered(v, id, now).known.subset_of(
            ids(remembered(v, id, now).order),
        ),
{
    let w = remembered(v, id, now);
    if v.known.subset_of(ids(v.order)) {
        assert forall|other: Seq<u8>| #[trigger] w.known.contains(other) implies ids(
            w.order,
        ).contains(other) by {
            if other == id {
                assert(w.order[v.order.len() as int].id == other);
            } else {
                let i = choose|i: int| 0 <= i < v.order.len() && #[trigger] v.order[i].id == other;
                assert(w.order[i].id == other);
            }
        }
    }
}

/// Something that happens to the memory: an id arrives, or is made by us.
pub struct SeenOp {
    pub id: Seq<u8>,
    pub at: int,
    pub local: bool,
}

/// The memory after one happening.
pub open spec fn applied(v: SeenView, op: SeenOp) -> SeenView {
    if op.local {
        recorded(v, op.id, op.at)
    } else {
        arrived(v, op.id, op.at)
    }
}

/// The memory after a run of happenings.
pub open spec fn applied_all(v: SeenView, ops: Seq<SeenOp>) -> SeenView
    decreases ops.len(),
{
    if ops.len() == 0 {
        v
    } else {
        applied(applied_all(v, ops.drop_last()), ops.last())
    }
}

/// Whether a happening makes a new entry: an id that arrives does if it is not
/// known, an id of our own always does.
pub open spec fn adds_entry(v: SeenView, op: SeenOp) -> bool {
    op.local || !is_known(v, op.id, op.at)
}

/// How many new entries a run of happenings makes.
pub open spec fn entries_added(v: SeenView, ops: Seq<SeenOp>) -> nat
    decreases ops.len(),
{
    if ops.len() == 0 {
        0
    } else {
        entries_added(v, ops.drop_last()) + if adds_entry(
            applied_all(v, ops.drop_last()),
            ops.last(),
        ) {
            1nat
        } else {
            0
        }
    }
}

/// Whether a run of happenings makes a new entry for `id`.
pub open spec fn adds_id(v: SeenView, ops: Seq<SeenOp>, id: Seq<u8>) -> bool
    decreases ops.len(),
{
    ops.len() > 0 && (adds_id(v, ops.drop_last(), id) || (ops.last().id == id && adds_entry(
        applied_all(v, ops.drop_last()),
        ops.last(),
    )))
}

/// Whether entry `i` is the one entry of a known id.
pub open spec fn sole_entry(v: SeenView, i: int) -> bool {
    &&& 0 <= i < v.order.len()
    &&& v.known.contains(v.order[i].id)
    &&& forall|j: int| 0 <= j < v.order.len() && j != i ==> #[trigger] v.order[j].id != v.order[i].id
}

/// Whether an id has left no trace.
pub open spec fn forgotten(v: SeenView, id: Seq<u8>) -> bool {
    !v.known.contains(id) && !ids(v.order).contains(id)
}

/// Whether no entry in front of entry `i` is younger than it.
pub open spec fn behind_older(order: Seq<SeenAt>, i: int) -> bool {
    forall|k: int| 0 <= k <= i ==> (#[trigger] order[k]).at <= order[i].at
}

proof fn lemma_prune_keeps_order(v: SeenView, now: int)
    requires
        in_order(v.order),
    ensures
        in_order(pruned(v, now).order),
        forall|i: int|
            0 <= i < pruned(v, now).order.len() ==> exists|j: int|
                0 <= j < v.order.len() && #[trigger] pruned(v, now).order[i] == v.order[j],
{
    let k = first_kept(v.order, now, 0);
    lemma_first_kept(v.order, now, 0);
    let p = pruned(v, now);
    assert forall|i: int| 0 <= i < p.order.len() implies #[trigger] p.order[i] == v.order[i + k] by {}
}

/// Under a clock that does not step back, the entries stay in order of time.
pub proof fn memory_stays_in_order(v: SeenView, op: SeenOp)
    requires
        in_order(v.order),
        forall|i: int| 0 <= i < v.order.len() ==> (#[trigger] v.order[i]).at <= op.at,
    ensures
        in_order(applied(v, op).order),
        forall|i: int|
            0 <= i < applied(v, op).order.len() ==> (#[trigger] applied(v, op).order[i]).at
                <= op.at,
{
    lemma_prune_keeps_order(v, op.at);
    let p = pruned(v, op.at);
    let q = remembered(p, op.id, op.at);
    assert(in_order(q.order));
    lemma_prune_keeps_order(q, op.at);
}

/// Eviction either keeps the one entry of an id, at the same distance from the
/// newest, or leaves no trace of that id.
proof fn lemma_prune_entry(v: SeenView, i: int, now: int) -> (kept: Option<int>)
    requires
        sole_entry(v, i),
    ensures
        match kept {
            Some(j) => {
                &&& sole_entry(pruned(v, now), j)
                &&& pruned(v, now).order[j] == v.order[i]
                &&& pruned(v, now).order.len() - j == v.order.len() - i
                &&& behind_older(v.order, i) ==> behind_older(pruned(v, now).order, j)
            },
            None => forgotten(pruned(v, now), v.order[i].id) && evictable(v.order, now, i),
        },
        behind_older(v.order, i) && age(v.order[i].at, now) > SEEN_TTL ==> kept is None,
{
    let k = first_kept(v.order, now, 0);
    lemma_first_kept(v.order, now, 0);
    let w = pruned(v, now);
    let id = v.order[i].id;
    if i < k {
        assert(evictable(v.order, now, i));
        assert(v.order.take(k)[i].id == id);
        if ids(w.order).contains(id) {
            let m = choose|m: int| 0 <= m < w.order.len() && #[trigger] w.order[m].id == id;
            assert(v.order[m + k].id == id);
        }
        None
    } else {
        let j = i - k;
        assert(w.order[j] == v.order[i]);
        if ids(v.order.take(k)).contains(id) {
            let m = choose|m: int|
                0 <= m < v.order.take(k).len() && #[trigger] v.order.take(k)[m].id == id;
            assert(v.order[m].id == id);
        }
        assert forall|m: int| 0 <= m < w.order.len() && m != j implies #[trigger] w.order[m].id
            != w.order[j].id by {
            assert(w.order[m] == v.order[m + k]);
        }
        if behind_older(v.order, i) {
            assert forall|m: int| 0 <= m <= j implies (#[trigger] w.order[m]).at <= w.order[j].at by {
                assert(w.order[m] == v.order[m + k]);
            }
            assert(v.order[k].at <= v.order[i].at);
        }
        Some(j)
    }
}

proof fn lemma_prune_forgotten(v: SeenView, id: Seq<u8>, now: int)
    requires
        forgotten(v, id),
    ensures
        forgotten(pruned(v, now), id),
{
    let k = first_kept(v.order, now, 0);
    lemma_first_kept(v.order, now, 0);
    let w = pruned(v, now);
    if ids(w.order).contains(id) {
        let m = choose|m: int| 0 <= m < w.order.len() && #[trigger] w.order[m].id == id;
        assert(v.order[m + k].id == id);
    }
}

proof fn lemma_remember_other(v: SeenView, id: Seq<u8>, at: int)
    ensures
        forall|i: int| #[trigger]
            sole_entry(v, i) && v.order[i].id != id ==> sole_entry(remembered(v, id, at), i)
                && remembered(v, id, at).order[i] == v.order[i] && (behind_older(v.order, i)
                ==> behind_older(remembered(v, id, at).order, i)),
        forall|other: Seq<u8>| #[trigger]
            forgotten(v, other) && other != id ==> forgotten(remembered(v, id, at), other),
{
    let w = remembered(v, id, at);
    assert forall|i: int| #[trigger] sole_entry(v, i) && v.order[i].id != id implies sole_entry(w, i)
        && w.order[i] == v.order[i] && (behind_older(v.order, i) ==> behind_older(w.order, i)) by {
        assert(w.order[i] == v.order[i]);
        assert forall|n: int| 0 <= n < w.order.len() && n != i implies #[trigger] w.order[n].id
            != w.order[i].id by {
            if n < v.order.len() {
                assert(w.order[n] == v.order[n]);
            }
        }
        if behind_older(v.order, i) {
            assert forall|n: int| 0 <= n <= i implies (#[trigger] w.order[n]).at <= w.order[i].at by {
                assert(w.order[n] == v.order[n]);
            }
        }
    }
    assert forall|other: Seq<u8>| #[trigger] forgotten(v, other) && other != id implies forgotten(
        w,
        other,
    ) by {
        if ids(w.order).contains(other) {
            let m = choose|m: int| 0 <= m < w.order.len() && #[trigger] w.order[m].id == other;
            assert(v.order[m].id == other);
        }
    }
}

/// A happening that makes no new entry for an id either keeps the one entry of
/// that id, at a distance from the newest that grows with each new entry, or
/// leaves no trace of it.
proof fn lemma_applied_entry(v: SeenView, i: int, op: SeenOp) -> (kept: Option<int>)
    requires
        sole_entry(v, i),
        !(op.id == v.order[i].id && adds_entry(v, op)),
    ensures
        ({
            let w = applied(v, op);
            let d = v.order.len() - i + if adds_entry(v, op) {
                1int
            } else {
                0
            };
            match kept {
                Some(j) => {
                    &&& sole_entry(w, j)
                    &&& w.order[j] == v.order[i]
                    &&& w.order.len() - j == d
                    &&& behind_older(v.order, i) ==> behind_older(w.order, j)
                },
                None => forgotten(w, v.order[i].id) && (age(v.order[i].at, op.at) > SEEN_TTL || d
                    > SEEN_CAPACITY),
            }
        }),
{
    let id = v.order[i].id;
    let p = pruned(v, op.at);
    let q = remembered(p, op.id, op.at);
    let first = lemma_prune_entry(v, i, op.at);
    if adds_entry(v, op) {
        lemma_remember_other(p, op.id, op.at);
        match first {
            Some(j) => {
                assert(sole_entry(p, j));
                lemma_prune_entry(q, j, op.at)
            },
            None => {
                assert(forgotten(p, id));
                lemma_prune_forgotten(q, id, op.at);
                None
            },
        }
    } else {
        first
    }
}

proof fn lemma_applied_forgotten(v: SeenView, id: Seq<u8>, op: SeenOp)
    requires
        forgotten(v, id),
        !(op.id == id && adds_entry(v, op)),
    ensures
        forgotten(applied(v, op), id),
{
    let p = pruned(v, op.at);
    let q = remembered(p, op.id, op.at);
    lemma_prune_forgotten(v, id, op.at);
    if adds_entry(v, op) {
        lemma_remember_other(p, op.id, op.at);
        assert(forgotten(p, id));
        lemma_prune_forgotten(q, id, op.at);
    }
}

/// What a run that makes no new entry for an id does to its one entry.
proof fn lemma_run_entry(v: SeenView, i: int, ops: Seq<SeenOp>) -> (kept: Option<int>)
    requires
        sole_entry(v, i),
        !adds_id(v, ops, v.order[i].id),
    ensures
        ({
            let w = applied_all(v, ops);
            match kept {
                Some(j) => {
                    &&& sole_entry(w, j)
                    &&& w.order[j] == v.order[i]
                    &&& w.order.len() - j == v.order.len() - i + entries_added(v, ops)
                    &&& behind_older(v.order, i) ==> behind_older(w.order, j)
                },
                None => forgotten(w, v.order[i].id),
            }
        }),
    decreases ops.len(),
{
    if ops.len() == 0 {
        Some(i)
    } else {
        let w = applied_all(v, ops.drop_last());
        match lemma_run_entry(v, i, ops.drop_last()) {
            Some(m) => lemma_applied_entry(w, m, ops.last()),
            None => {
                lemma_applied_forgotten(w, v.order[i].id, ops.last());
                None
            },
        }
    }
}

/// What a run does to the one entry of an id while that entry is neither too
/// old nor crowded out: it stays, and no new entry is made for the id.
proof fn lemma_run_keeps_entry(v: SeenView, i: int, ops: Seq<SeenOp>) -> (j: int)
    requires
        sole_entry(v, i),
        v.order.len() - i + entries_added(v, ops) <= SEEN_CAPACITY,
        forall|k: int|
            0 <= k < ops.len() ==> age(v.order[i].at, (#[trigger] ops[k]).at) <= SEEN_TTL,
        forall|k: int|
            0 <= k < ops.len() ==> (#[trigger] ops[k]).local ==> ops[k].id != v.order[i].id,
    ensures
        sole_entry(applied_all(v, ops), j),
        applied_all(v, ops).order[j] == v.order[i],
        applied_all(v, ops).order.len() - j == v.order.len() - i + entries_added(v, ops),
        behind_older(v.order, i) ==> behind_older(applied_all(v, ops).order, j),
    decreases ops.len(),
{
    if ops.len() == 0 {
        i
    } else {
        let front = ops.drop_last();
        let op = ops[ops.len() - 1];
        assert forall|k: int| 0 <= k < front.len() implies (#[trigger] front[k]) == ops[k] by {}
        let m = lemma_run_keeps_entry(v, i, front);
        let w = applied_all(v, front);
        let known = lemma_prune_entry(w, m, op.at);
        let kept = lemma_applied_entry(w, m, op);
        kept->Some_0
    }
}

/// A message id stays known, so that a repeat of it is dropped, as long as it
/// is at most [`SEEN_TTL`] old and fewer than [`SEEN_CAPACITY`] new entries
/// came after it, unless we made the very same id again. Repeats of any id
/// make no new entry.
pub proof fn id_stays_known(v: SeenView, i: int, ops: Seq<SeenOp>, now: int)
    requires
        sole_entry(v, i),
        v.order.len() - i + entries_added(v, ops) <= SEEN_CAPACITY,
        age(v.order[i].at, now) <= SEEN_TTL,
        forall|k: int|
            0 <= k < ops.len() ==> age(v.order[i].at, (#[trigger] ops[k]).at) <= SEEN_TTL,
        forall|k: int|
            0 <= k < ops.len() ==> (#[trigger] ops[k]).local ==> ops[k].id != v.order[i].id,
    ensures
        is_known(applied_all(v, ops), v.order[i].id, now),
{
    let j = lemma_run_keeps_entry(v, i, ops);
    let kept = lemma_prune_entry(applied_all(v, ops), j, now);
}

/// A message id is crowded out: once [`SEEN_CAPACITY`] new entries came after
/// it, none of them its own, it is not known any more.
pub proof fn id_is_crowded_out(v: SeenView, i: int, ops: Seq<SeenOp>, now: int)
    requires
        sole_entry(v, i),
        v.order.len() <= SEEN_CAPACITY,
        !adds_id(v, ops, v.order[i].id),
        v.order.len() - i + entries_added(v, ops) > SEEN_CAPACITY,
    ensures
        !is_known(applied_all(v, ops), v.order[i].id, now),
{
    let w = applied_all(v, ops);
    if ops.len() > 0 {
        let before = applied_all(v, ops.drop_last());
        arrival_keeps_inv(before, ops.last().id, ops.last().at);
        recording_keeps_inv(before, ops.last().id, ops.last().at);
    }
    let kept = lemma_run_entry(v, i, ops);
    assert(kept is None);
    lemma_prune_forgotten(w, v.order[i].id, now);
}

/// A message id grows stale: more than [`SEEN_TTL`] after it was met it is not
/// known any more, unless a new entry was made for it. Repeats do not refresh
/// it. That no entry in front of it is younger holds of any clock that does
/// not step back.
pub proof fn id_grows_stale(v: SeenView, i: int, ops: Seq<SeenOp>, now: int)
    requires
        sole_entry(v, i),
        behind_older(v.order, i),
        !adds_id(v, ops, v.order[i].id),
        age(v.order[i].at, now) > SEEN_TTL,
    ensures
        !is_known(applied_all(v, ops), v.order[i].id, now),
{
    let w = applied_all(v, ops);
    match lemma_run_entry(v, i, ops) {
        Some(j) => {
            let kept = lemma_prune_entry(w, j, now);
        },
        None => {
            lemma_prune_forgotten(w, v.order[i].id, now);
        },
    }
}

/// An id that was not known, and that nothing in between carries, is not known
/// afterwards: only what was met or made is.
pub proof fn only_met_ids_are_known(v: SeenView, ops: Seq<SeenOp>, id: Seq<u8>, now: int)
    requires
        !v.known.contains(id),
        forall|k: int| 0 <= k < ops.len() ==> (#[trigger] ops[k]).id != id,
    ensures
        !applied_all(v, ops).known.contains(id),
        !is_known(applied_all(v, ops), id, now),
    decreases ops.len(),
{
    if ops.len() > 0 {
        let front = ops.drop_last();
        let op = ops[ops.len() - 1];
        assert forall|k: int| 0 <= k < front.len() implies (#[trigger] front[k]).id != id by {
            assert(front[k] == ops[k]);
        }
        only_met_ids_are_known(v, front, id, now);
        let w = applied_all(v, front);
        pruning_bounds_memory(w, op.at);
        pruning_bounds_memory(remembered(pruned(w, op.at), op.id, op.at), op.at);
    }
    pruning_bounds_memory(applied_all(v, ops), now);
}

/// No entry is dated after the latest time at which something happened.
pub proof fn entries_are_not_dated_ahead(v: SeenView, op: SeenOp, clock: int)
    requires
        forall|i: int| 0 <= i < v.order.len() ==> (#[trigger] v.order[i]).at <= clock,
        op.at <= clock,
    ensures
        forall|i: int|
            0 <= i < applied(v, op).order.len() ==> (#[trigger] applied(v, op).order[i]).at
                <= clock,
{
    let p = pruned(v, op.at);
    let q = remembered(p, op.id, op.at);
    pruning_bounds_memory(v, op.at);
    pruning_bounds_memory(q, op.at);
    assert forall|i: int| 0 <= i < applied(v, op).order.len() implies (#[trigger] applied(
        v,
        op,
    ).order[i]).at <= clock by {
        if adds_entry(v, op) {
            let m = i + (q.order.len() - applied(v, op).order.len());
            assert(applied(v, op).order[i] == q.order[m]);
            if m < p.order.len() {
                assert(q.order[m] == v.order[m + (v.order.len() - p.order.len())]);
            }
        } else {
            assert(p.order[i] == v.order[i + (v.order.len() - p.order.len())]);
        }
    }
}

/// The age of an id runs from the time at which it was met: while it is not
/// crowded out, and everything in between happens within [`SEEN_TTL`] of that
/// time, it is known up to [`SEEN_TTL`] after it and no longer, whatever
/// repeats came in between.
pub proof fn age_runs_from_the_first_meeting(v: SeenView, i: int, ops: Seq<SeenOp>, now: int)
    requires
        sole_entry(v, i),
        behind_older(v.order, i),
        v.order.len() - i + entries_added(v, ops) <= SEEN_CAPACITY,
        forall|k: int|
            0 <= k < ops.len() ==> age(v.order[i].at, (#[trigger] ops[k]).at) <= SEEN_TTL,
        forall|k: int|
            0 <= k < ops.len() ==> (#[trigger] ops[k]).local ==> ops[k].id != v.order[i].id,
    ensures
        is_known(applied_all(v, ops), v.order[i].id, now) <==> age(v.order[i].at, now) <= SEEN_TTL,
{
    let j = lemma_run_keeps_entry(v, i, ops);
    let kept = lemma_prune_entry(applied_all(v, ops), j, now);
}

/// Whether every entry is the one entry of a known id.
pub open spec fn tidy(v: SeenView) -> bool {
    &&& v.known == ids(v.order)
    &&& forall|i: int, j: int|
        0 <= i < j < v.order.len() ==> (#[trigger] v.order[i]).id != (#[trigger] v.order[j]).id
}

proof fn lemma_prune_keeps_tidy(v: SeenView, now: int)
    requires
        tidy(v),
    ensures
        tidy(pruned(v, now)),
{
    let w = pruned(v, now);
    let k = first_kept(v.order, now, 0);
    lemma_first_kept(v.order, now, 0);
    pruning_bounds_memory(v, now);
    assert forall|id: Seq<u8>| #[trigger] ids(w.order).contains(id) implies w.known.contains(id) by {
        let i = choose|i: int| 0 <= i < w.order.len() && #[trigger] w.order[i].id == id;
        assert(w.order[i] == v.order[i + k]);
        assert(ids(v.order).contains(id));
        if ids(v.order.take(k)).contains(id) {
            let m = choose|m: int|
                0 <= m < v.order.take(k).len() && #[trigger] v.order.take(k)[m].id == id;
            assert(v.order[m].id == v.order[i + k].id);
        }
    }
    assert(w.known =~= ids(w.order));
    assert forall|i: int, j: int| 0 <= i < j < w.order.len() implies (#[trigger] w.order[i]).id != (
    #[trigger] w.order[j]).id by {
        assert(w.order[i] == v.order[i + k]);
        assert(w.order[j] == v.order[j + k]);
    }
}

proof fn lemma_remember_keeps_tidy(v: SeenView, id: Seq<u8>, at: int)
    requires
        tidy(v),
        !v.known.contains(id),
    ensures
        tidy(remembered(v, id, at)),
{
    let w = remembered(v, id, at);
    let n = v.order.len() as int;
    assert forall|other: Seq<u8>| #[trigger] w.known.contains(other) == ids(w.order).contains(
        other,
    ) by {
        if other == id {
            assert(w.order[n].id == id);
        }
        if v.known.contains(other) {
            let i = choose|i: int| 0 <= i < v.order.len() && #[trigger] v.order[i].id == other;
            assert(w.order[i].id == other);
        }
        if ids(w.order).contains(other) && other != id {
            let i = choose|i: int| 0 <= i < w.order.len() && #[trigger] w.order[i].id == other;
            assert(v.order[i].id == other);
        }
    }
    assert(w.known =~= ids(w.order));
    assert forall|i: int, j: int| 0 <= i < j < w.order.len() implies (#[trigger] w.order[i]).id != (
    #[trigger] w.order[j]).id by {
        assert(w.order[i] == v.order[i]);
        if j < n {
            assert(w.order[j] == v.order[j]);
        } else {
            assert(ids(v.order).contains(v.order[i].id));
        }
    }
}

/// A tidy memory stays tidy when an id arrives, and when we make an id that is
/// not known.
pub proof fn memory_stays_tidy(v: SeenView, op: SeenOp)
    requires
        tidy(v),
        op.local ==> !is_known(v, op.id, op.at),
    ensures
        tidy(applied(v, op)),
{
    lemma_prune_keeps_tidy(v, op.at);
    if adds_entry(v, op) {
        let q = remembered(pruned(v, op.at), op.id, op.at);
        lemma_remember_keeps_tidy(pruned(v, op.at), op.id, op.at);
        lemma_prune_keeps_tidy(q, op.at);
    }
}

/// An id that is new to a tidy memory has exactly one entry afterwards, the
/// newest. Under a clock that has not stepped back, no entry is younger.
pub proof fn new_id_has_sole_entry(v: SeenView, op: SeenOp)
    requires
        tidy(v),
        !is_known(v, op.id, op.at),
    ensures
        sole_entry(applied(v, op), applied(v, op).order.len() - 1),
        applied(v, op).order.last() == (SeenAt { id: op.id, at: op.at }),
        applied(v, op).order.len() <= SEEN_CAPACITY,
        (forall|i: int| 0 <= i < v.order.len() ==> (#[trigger] v.order[i]).at <= op.at)
            ==> behind_older(applied(v, op).order, applied(v, op).order.len() - 1),
{
    let k = first_kept(v.order, op.at, 0);
    lemma_first_kept(v.order, op.at, 0);
    lemma_prune_keeps_tidy(v, op.at);
    let p = pruned(v, op.at);
    let q = remembered(p, op.id, op.at);
    lemma_remember_keeps_tidy(p, op.id, op.at);
    let last = q.order.len() - 1;
    assert(q.order[last] == (SeenAt { id: op.id, at: op.at }));
    assert(ids(q.order).contains(op.id));
    assert forall|j: int| 0 <= j < q.order.len() && j != last implies #[trigger] q.order[j].id
        != q.order[last].id by {}
    if forall|i: int| 0 <= i < v.order.len() ==> (#[trigger] v.order[i]).at <= op.at {
        assert forall|n: int| 0 <= n <= last implies (#[trigger] q.order[n]).at <= q.order[last].at by {
            if n < last {
                assert(q.order[n] == v.order[n + k]);
            }
        }
    }
    let kept = lemma_prune_entry(q, last, op.at);
    pruning_bounds_memory(q, op.at);
}

} // verus!
