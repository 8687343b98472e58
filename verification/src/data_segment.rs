//! The publisher's data segment manager: reference-counted chunk pool,
//! subscriber connection table, history retention and the send/reclaim
//! protocol.
//!
//! Chunks are addressed by their byte offset from the segment base; bucket
//! `i` starts at offset `i * payload_size`. The central invariant [`DataSegment::inv`]
//! states that every bucket's reference counter equals the number of places
//! that refer to it — outstanding loans, history entries, and offsets inside
//! any connection — and that the counters' total equals the total number of
//! such edges.

use vstd::prelude::*;
use vstd::pervasive::VecAdditionalExecFns;

use crate::connection::Connection;
use crate::counting::{
    count_of, lemma_count_concat, lemma_count_contains, lemma_count_le_len, lemma_count_push,
    lemma_count_relation_push, lemma_count_relation_remove, lemma_count_remove,
    lemma_total_update, total_of,
};
use crate::errors::{ConnectionFailure, PublisherLoanError, PublisherSendError, ZeroCopySendError};
use crate::header::Header;
use crate::history::HistoryBuffer;
use crate::registry::{SubscriberList, SubscriberListState};
use crate::types::{spec_round_up, DegrationAction, LocalPublisherConfig, StaticConfig, SubscriberDetails, UnableToDeliverStrategy, UniquePublisherId, SAMPLE_HEADER_SIZE};

verus! {

/// One shared-memory bucket: the stamped header and the payload bytes.
pub struct Chunk {
    pub header: Option<Header>,
    pub payload: Vec<u8>,
}

/// The bucket index that offset `o` addresses.
pub open spec fn idx_of(o: usize, ps: usize) -> int {
    o as int / ps as int
}

/// `o` addresses the start of one of `n` buckets of `ps` bytes each.
pub open spec fn valid_offset(o: usize, ps: usize, n: usize) -> bool {
    &&& o % ps == 0
    &&& o / ps < n
}

/// Every element of `s` is a valid bucket offset.
pub open spec fn all_valid(s: Seq<usize>, ps: usize, n: usize) -> bool {
    forall|k: int| 0 <= k < s.len() ==> valid_offset(#[trigger] s[k], ps, n)
}

/// Whether the slot holds a corrupted connection.
pub open spec fn slot_corrupted(s: Option<Connection>) -> bool {
    match s {
        Some(c) => c.corrupted,
        None => false,
    }
}

/// References the connection in slot `s` holds to offset `x`.
pub open spec fn slot_count(s: Option<Connection>, x: usize) -> nat {
    match s {
        Some(c) => c.edge_count(x),
        None => 0,
    }
}

/// Total references the connection in slot `s` holds.
pub open spec fn slot_total(s: Option<Connection>) -> nat {
    match s {
        Some(c) => c.edge_total(),
        None => 0,
    }
}

/// A connection slot is well formed: its ring is bounded, every offset it
/// tracks addresses a bucket, and it tracks at most `cap` offsets.
pub open spec fn slot_ok(s: Option<Connection>, ps: usize, n: usize, cap: int) -> bool {
    match s {
        None => true,
        Some(c) => {
            &&& c.wf()
            &&& c.sample_capacity <= cap
            &&& all_valid(c.ring@, ps, n)
            &&& all_valid(c.retained@, ps, n)
            &&& all_valid(c.returned@, ps, n)
        },
    }
}

/// References all connection slots together hold to offset `x`.
pub open spec fn conn_count(slots: Seq<Option<Connection>>, x: usize) -> nat
    decreases slots.len(),
{
    if slots.len() == 0 {
        0
    } else {
        conn_count(slots.drop_last(), x) + slot_count(slots.last(), x)
    }
}

/// Total references all connection slots together hold.
pub open spec fn conn_total(slots: Seq<Option<Connection>>) -> nat
    decreases slots.len(),
{
    if slots.len() == 0 {
        0
    } else {
        conn_total(slots.drop_last()) + slot_total(slots.last())
    }
}

/// Swapping one slot moves the per-offset reference count by the difference
/// of the two slots' counts.
pub proof fn lemma_conn_count_update(
    slots: Seq<Option<Connection>>,
    j: int,
    v: Option<Connection>,
    x: usize,
)
    requires
        0 <= j < slots.len(),
    ensures
        conn_count(slots.update(j, v), x) + slot_count(slots[j], x) == conn_count(slots, x)
            + slot_count(v, x),
    decreases slots.len(),
{
    if j == slots.len() - 1 {
        assert(slots.update(j, v).drop_last() =~= slots.drop_last());
        assert(slots.update(j, v).last() == v);
    } else {
        assert(slots.update(j, v).drop_last() =~= slots.drop_last().update(j, v));
        assert(slots.update(j, v).last() == slots.last());
        lemma_conn_count_update(slots.drop_last(), j, v, x);
    }
}

/// Swapping one slot moves the total reference count by the difference of the
/// two slots' totals.
pub proof fn lemma_conn_total_update(slots: Seq<Option<Connection>>, j: int, v: Option<Connection>)
    requires
        0 <= j < slots.len(),
    ensures
        conn_total(slots.update(j, v)) + slot_total(slots[j]) == conn_total(slots) + slot_total(v),
    decreases slots.len(),
{
    if j == slots.len() - 1 {
        assert(slots.update(j, v).drop_last() =~= slots.drop_last());
        assert(slots.update(j, v).last() == v);
    } else {
        assert(slots.update(j, v).drop_last() =~= slots.drop_last().update(j, v));
        assert(slots.update(j, v).last() == slots.last());
        lemma_conn_total_update(slots.drop_last(), j, v);
    }
}

/// A single slot's count towards `x` is below the slots' combined total.
pub proof fn lemma_conn_count_le_total(slots: Seq<Option<Connection>>, x: usize)
    ensures
        conn_count(slots, x) <= conn_total(slots),
    decreases slots.len(),
{
    if slots.len() > 0 {
        lemma_conn_count_le_total(slots.drop_last(), x);
        match slots.last() {
            Some(c) => {
                lemma_count_le_len(c.ring@, x);
                lemma_count_le_len(c.retained@, x);
                lemma_count_le_len(c.returned@, x);
            },
            None => {},
        }
    }
}

/// With every slot tracking at most `cap` offsets, the combined total is at
/// most one `cap` per slot.
pub proof fn lemma_conn_total_bound(slots: Seq<Option<Connection>>, cap: int)
    requires
        cap >= 0,
        forall|j: int| 0 <= j < slots.len() ==> slot_total(#[trigger] slots[j]) <= cap,
    ensures
        conn_total(slots) <= slots.len() * cap,
    decreases slots.len(),
{
    if slots.len() > 0 {
        assert(forall|j: int|
            0 <= j < slots.drop_last().len() ==> slot_total(#[trigger] slots.drop_last()[j])
                <= cap);
        lemma_conn_total_bound(slots.drop_last(), cap);
        assert(slots.drop_last().len() * cap + cap == slots.len() * cap) by (nonlinear_arith)
            requires slots.len() >= 1;
        assert(slot_total(slots.last()) <= cap);
    }
}

/// With one slot known empty, one `cap` less bounds the combined total.
pub proof fn lemma_conn_total_bound_excluding(slots: Seq<Option<Connection>>, cap: int, j: int)
    requires
        cap >= 0,
        0 <= j < slots.len(),
        slots[j] is None,
        forall|k: int| 0 <= k < slots.len() ==> slot_total(#[trigger] slots[k]) <= cap,
    ensures
        conn_total(slots) <= (slots.len() - 1) * cap,
    decreases slots.len(),
{
    assert(forall|k: int|
        0 <= k < slots.drop_last().len() ==> slot_total(#[trigger] slots.drop_last()[k]) <= cap);
    if j == slots.len() - 1 {
        lemma_conn_total_bound(slots.drop_last(), cap);
    } else {
        lemma_conn_total_bound_excluding(slots.drop_last(), cap, j);
        assert((slots.len() - 2) * cap + cap == (slots.len() - 1) * cap) by (nonlinear_arith)
            requires slots.len() >= 2;
    }
}

/// Bucket indices below `n` have offsets within the segment.
pub proof fn lemma_index_to_offset(i: int, ps: usize, n: usize)
    requires
        ps >= 1,
        0 <= i < n,
        n * ps <= usize::MAX,
    ensures
        0 <= i * ps <= usize::MAX,
        (i * ps) % (ps as int) == 0,
        (i * ps) / (ps as int) == i,
{
    assert(0 <= i * ps && i * ps + ps <= n * ps) by (nonlinear_arith)
        requires 0 <= i < n, ps >= 1;
    assert((i * ps) % (ps as int) == 0 && (i * ps) / (ps as int) == i) by (nonlinear_arith)
        requires ps >= 1, i >= 0;
}

/// A valid offset addresses exactly the start of its bucket.
pub proof fn lemma_offset_to_index(o: usize, ps: usize)
    requires
        ps >= 1,
        o % ps == 0,
    ensures
        (o / ps) * ps == o,
        o / ps >= 0,
{
    assert((o / ps) * ps == o) by (nonlinear_arith)
        requires ps >= 1, o >= 0, o % ps == 0;
}

/// All offsets a connection refers to, as one sequence.
pub open spec fn conn_extra(c: &Connection) -> Seq<usize> {
    c.ring@ + c.retained@ + c.returned@
}

/// That sequence counts exactly the connection's references.
pub proof fn lemma_conn_extra_count(c: &Connection)
    ensures
        forall|x: usize| #[trigger] count_of(conn_extra(c), x) == c.edge_count(x),
        conn_extra(c).len() == c.edge_total(),
{
    assert forall|x: usize| #[trigger] count_of(conn_extra(c), x) == c.edge_count(x) by {
        lemma_count_concat(c.ring@ + c.retained@, c.returned@, x);
        lemma_count_concat(c.ring@, c.retained@, x);
    }
}

/// A push into the ring shifts the connection's offsets accordingly.
pub proof fn lemma_conn_extra_push(c_pre: &Connection, c_post: &Connection, off: usize)
    requires
        c_post.ring@ == c_pre.ring@.push(off),
        c_post.retained == c_pre.retained,
        c_post.returned == c_pre.returned,
    ensures
        forall|x: usize|
            #[trigger] count_of(conn_extra(c_post), x) == count_of(conn_extra(c_pre).push(off), x),
        conn_extra(c_post).len() == conn_extra(c_pre).push(off).len(),
{
    assert forall|x: usize|
        #[trigger] count_of(conn_extra(c_post), x) == count_of(
        conn_extra(c_pre).push(off),
        x,
    ) by {
        lemma_conn_extra_count(c_post);
        lemma_conn_extra_count(c_pre);
        lemma_count_push(c_pre.ring@, off, x);
        lemma_count_push(conn_extra(c_pre), off, x);
    }
}

/// A displacing push drops the oldest ring entry and appends the offset.
pub proof fn lemma_conn_extra_displace(c_pre: &Connection, c_post: &Connection, off: usize)
    requires
        c_pre.ring@.len() > 0,
        c_post.ring@ == c_pre.ring@.drop_first().push(off),
        c_post.retained == c_pre.retained,
        c_post.returned == c_pre.returned,
    ensures
        forall|x: usize|
            #[trigger] count_of(conn_extra(c_post), x) == count_of(
                conn_extra(c_pre).push(off).drop_first(),
                x,
            ),
        conn_extra(c_post).len() == conn_extra(c_pre).push(off).drop_first().len(),
{
    let exm = conn_extra(c_pre).push(off);
    assert forall|x: usize|
        #[trigger] count_of(conn_extra(c_post), x) == count_of(exm.drop_first(), x) by {
        lemma_conn_extra_count(c_post);
        lemma_conn_extra_count(c_pre);
        assert(c_pre.ring@.remove(0) =~= c_pre.ring@.drop_first());
        lemma_count_remove(c_pre.ring@, 0, x);
        lemma_count_push(c_pre.ring@.drop_first(), off, x);
        lemma_count_push(conn_extra(c_pre), off, x);
        assert(exm.remove(0) =~= exm.drop_first());
        lemma_count_remove(exm, 0, x);
        assert(exm[0] == conn_extra(c_pre)[0]);
        assert(conn_extra(c_pre)[0] == c_pre.ring@[0]);
    }
}

/// A table of empty slots holds no references.
pub proof fn lemma_conn_none(slots: Seq<Option<Connection>>)
    requires
        forall|j: int| 0 <= j < slots.len() ==> #[trigger] slots[j] is None,
    ensures
        forall|x: usize| #[trigger] conn_count(slots, x) == 0,
        conn_total(slots) == 0,
    decreases slots.len(),
{
    if slots.len() > 0 {
        assert(forall|j: int|
            0 <= j < slots.drop_last().len() ==> #[trigger] slots.drop_last()[j] is None);
        lemma_conn_none(slots.drop_last());
        assert(slots.last() is None);
        assert forall|x: usize| #[trigger] conn_count(slots, x) == 0 by {
            assert(conn_count(slots.drop_last(), x) == 0);
        }
    }
}

/// A sequence of zero counters totals zero.
pub proof fn lemma_total_zero(s: Seq<u64>)
    requires
        forall|i: int| 0 <= i < s.len() ==> #[trigger] s[i] == 0,
    ensures
        total_of(s) == 0,
    decreases s.len(),
{
    if s.len() > 0 {
        assert(forall|i: int| 0 <= i < s.drop_last().len() ==> #[trigger] s.drop_last()[i] == 0);
        lemma_total_zero(s.drop_last());
    }
}

/// One slot's count towards `x` is part of the combined count.
pub proof fn lemma_slot_count_le_conn_count(slots: Seq<Option<Connection>>, k: int, x: usize)
    requires
        0 <= k < slots.len(),
    ensures
        slot_count(slots[k], x) <= conn_count(slots, x),
    decreases slots.len(),
{
    if k == slots.len() - 1 {
    } else {
        lemma_slot_count_le_conn_count(slots.drop_last(), k, x);
        assert(slots.drop_last()[k] == slots[k]);
    }
}

/// Validity of offsets carries over concatenation.
pub proof fn lemma_all_valid_concat(a: Seq<usize>, b: Seq<usize>, ps: usize, n: usize)
    requires
        all_valid(a, ps, n),
        all_valid(b, ps, n),
    ensures
        all_valid(a + b, ps, n),
{
    assert forall|k: int| 0 <= k < (a + b).len() implies valid_offset(
        #[trigger] (a + b)[k],
        ps,
        n,
    ) by {
        if k < a.len() {
            assert((a + b)[k] == a[k]);
        } else {
            assert((a + b)[k] == b[k - a.len()]);
        }
    }
}

/// After reclamation a slot keeps its identity, ring and retained set, but
/// holds no returned offsets any more.
pub open spec fn pair_reclaimed(a: Option<Connection>, b: Option<Connection>) -> bool {
    match (a, b) {
        (None, None) => true,
        (Some(c1), Some(c2)) => {
            &&& c2.same_link(&c1)
            &&& c2.ring == c1.ring
            &&& c2.retained == c1.retained
            &&& c2.returned@ =~= Seq::<usize>::empty()
        },
        _ => false,
    }
}

/// All slots reclaimed, pairwise.
pub open spec fn slots_reclaimed(a: Seq<Option<Connection>>, b: Seq<Option<Connection>>) -> bool {
    &&& b.len() == a.len()
    &&& forall|j: int| 0 <= j < a.len() ==> pair_reclaimed(a[j], #[trigger] b[j])
}

/// How one delivery changes a slot, measured against its state before the
/// preceding reclamation: returned offsets are reaped, then the offset is
/// enqueued, displacing the oldest entry on an overflowing full ring; a full
/// ring without overflow or an exhausted offset budget drops the sample; a
/// corrupted connection is left alone.
pub open spec fn delivered_pair(a: Option<Connection>, b: Option<Connection>, off: usize) -> bool {
    match (a, b) {
        (None, None) => true,
        (Some(c1), Some(c2)) => {
            let used = c1.ring@.len() + c1.retained@.len();
            &&& c2.same_link(&c1)
            &&& c2.retained == c1.retained
            &&& c2.returned@ =~= Seq::<usize>::empty()
            &&& (c1.corrupted ==> c2.ring == c1.ring)
            &&& (!c1.corrupted && c1.ring@.len() < c1.buffer_size && used < c1.sample_capacity
                ==> c2.ring@ == c1.ring@.push(off))
            &&& (!c1.corrupted && c1.ring@.len() < c1.buffer_size && used >= c1.sample_capacity
                ==> c2.ring == c1.ring)
            &&& (!c1.corrupted && c1.ring@.len() >= c1.buffer_size ==> (
            if c1.enable_safe_overflow {
                c2.ring@ == c1.ring@.drop_first().push(off)
            } else {
                c2.ring == c1.ring
            }))
        },
        _ => false,
    }
}

/// What a fresh connection's ring holds after the history was replayed into
/// it: everything when it fits; with overflow the newest entries win, without
/// it the oldest.
pub open spec fn replayed(hist: Seq<usize>, cap: int, overflow: bool) -> Seq<usize> {
    if hist.len() <= cap {
        hist
    } else if overflow {
        hist.skip(hist.len() - cap)
    } else {
        hist.take(cap)
    }
}

/// A subscriber asks for a connection the service cannot build: its ring
/// would be empty or larger than the service allows.
pub open spec fn refused_subscriber(
    desired: Option<SubscriberDetails>,
    before: Option<Connection>,
    cfg: StaticConfig,
) -> bool {
    match desired {
        Some(d) => (match before {
            Some(c0) => c0.subscriber_id != d.port_id,
            None => true,
        }) && !(d.buffer_size >= 1 && d.buffer_size <= cfg.subscriber_max_buffer_size),
        None => false,
    }
}

/// A connection the reconciler has just built: bound to the subscriber, ring
/// preloaded with the replayed history.
pub open spec fn fresh_connection(
    d: SubscriberDetails,
    after: Option<Connection>,
    hist: Seq<usize>,
    cfg: StaticConfig,
) -> bool {
    if d.buffer_size >= 1 && d.buffer_size <= cfg.subscriber_max_buffer_size {
        after matches Some(c) && c.subscriber_id == d.port_id && c.buffer_size == d.buffer_size
            && c.sample_capacity == d.buffer_size + cfg.history_size + 1
            && c.enable_safe_overflow == cfg.enable_safe_overflow && !c.corrupted
            && c.retained@ =~= Seq::<usize>::empty() && c.returned@ =~= Seq::<usize>::empty()
            && c.ring@ == replayed(hist, d.buffer_size as int, cfg.enable_safe_overflow)
    } else {
        after is None
    }
}

/// How the reconciler leaves one slot: a slot whose subscriber is gone is
/// cleared, a slot already bound to its subscriber is kept as it is, and any
/// other wanted slot is built afresh with the history replayed.
pub open spec fn reconciled_slot(
    desired: Option<SubscriberDetails>,
    before: Option<Connection>,
    after: Option<Connection>,
    hist: Seq<usize>,
    cfg: StaticConfig,
) -> bool {
    match desired {
        None => after is None,
        Some(d) => match before {
            Some(c0) => if c0.subscriber_id == d.port_id {
                after == before
            } else {
                fresh_connection(d, after, hist, cfg)
            },
            None => fresh_connection(d, after, hist, cfg),
        },
    }
}

/// The connection in slot `s` will accept an enqueue, measured after its
/// returned offsets were reclaimed: it is intact, and its ring has room
/// within the offset budget, or it displaces on an overflowing service.
pub open spec fn slot_accepts(s: Option<Connection>) -> bool {
    match s {
        None => false,
        Some(c) => {
            let used = c.ring@.len() + c.retained@.len();
            &&& !c.corrupted
            &&& (if c.ring@.len() < c.buffer_size {
                used < c.sample_capacity
            } else {
                c.enable_safe_overflow
            })
        },
    }
}

/// How many slots accept an enqueue: the recipient count of a delivery.
pub open spec fn accepted_count(slots: Seq<Option<Connection>>) -> nat
    decreases slots.len(),
{
    if slots.len() == 0 {
        0
    } else {
        accepted_count(slots.drop_last()) + (if slot_accepts(slots.last()) {
            1nat
        } else {
            0nat
        })
    }
}

/// The count over one more slot grows by that slot's acceptance.
pub proof fn lemma_accepted_count_take(slots: Seq<Option<Connection>>, j: int)
    requires
        0 <= j < slots.len(),
    ensures
        accepted_count(slots.take(j + 1)) == accepted_count(slots.take(j)) + (if slot_accepts(
            slots[j],
        ) {
            1nat
        } else {
            0nat
        }),
{
    assert(slots.take(j + 1).drop_last() =~= slots.take(j));
    assert(slots.take(j + 1).last() == slots[j]);
}

/// Tables whose slots accept alike have the same recipient count.
pub proof fn lemma_accepted_count_congruent(a: Seq<Option<Connection>>, b: Seq<Option<Connection>>)
    requires
        a.len() == b.len(),
        forall|j: int| 0 <= j < a.len() ==> slot_accepts(#[trigger] a[j]) == slot_accepts(b[j]),
    ensures
        accepted_count(a) == accepted_count(b),
    decreases a.len(),
{
    if a.len() > 0 {
        assert(forall|j: int|
            0 <= j < a.drop_last().len() ==> slot_accepts(#[trigger] a.drop_last()[j])
                == slot_accepts(b.drop_last()[j]));
        lemma_accepted_count_congruent(a.drop_last(), b.drop_last());
        assert(slot_accepts(a.last()) == slot_accepts(b.last()));
    }
}

/// `n` is the recipient count a send against `table` yields: the number of
/// accepting slots of the table the delivery ran against — `table` itself
/// when the observed subscriber set was unchanged, else the table the
/// reconciler rebuilt from it.
pub open spec fn delivery_count_matches(
    table: Seq<Option<Connection>>,
    cursor_version: u64,
    subs_version: u64,
    subs_slots: Seq<Option<SubscriberDetails>>,
    hist: Seq<usize>,
    cfg: StaticConfig,
    n: usize,
) -> bool {
    exists|mid: Seq<Option<Connection>>|
        {
            &&& (subs_version == cursor_version ==> mid == table)
            &&& (subs_version != cursor_version ==> mid.len() == table.len() && (forall|k: int|
                0 <= k < mid.len() ==> reconciled_slot(
                    subs_slots[k],
                    table[k],
                    #[trigger] mid[k],
                    hist,
                    cfg,
                )))
            &&& n == accepted_count(mid)
        }
}

/// A slot as `send` leaves it: the subscriber saw the offset enqueued last,
/// or dropped it at a full ring without overflow, or could track no more
/// offsets, or its connection is corrupted and was reported.
pub open spec fn sample_offered(slot: Option<Connection>, off: usize) -> bool {
    match slot {
        None => true,
        Some(c) => {
            let used = c.ring@.len() + c.retained@.len();
            ||| c.corrupted
            ||| (c.ring@.len() > 0 && c.ring@.last() == off)
            ||| (!c.enable_safe_overflow && c.ring@.len() >= c.buffer_size)
            ||| used >= c.sample_capacity
        },
    }
}

/// The publisher-side state of one data segment.
pub struct DataSegment {
    /// One reference counter per bucket.
    pub sample_reference_counter: Vec<u64>,
    /// The buckets themselves.
    pub memory: Vec<Chunk>,
    /// Byte size of one bucket.
    pub payload_size: usize,
    /// Number of buckets in the segment.
    pub number_of_samples: usize,
    pub port_id: UniquePublisherId,
    pub config: LocalPublisherConfig,
    pub static_config: StaticConfig,
    /// The connection table, one slot per possible subscriber.
    pub subscriber_connections: Vec<Option<Connection>>,
    /// The subscriber set as last observed, with its version cursor.
    pub subscriber_list_state: SubscriberListState,
    /// Offsets of recently sent chunks, kept for late subscribers.
    pub history: Option<HistoryBuffer>,
    /// Offsets currently loaned to the user.
    pub loaned: Vec<usize>,
    /// Number of outstanding loans.
    pub loan_counter: usize,
    /// Cleared when the publisher is being torn down.
    pub is_active: bool,
}

impl DataSegment {
    /// The history's contents, or empty when the service retains no history.
    pub open spec fn hist_contents(&self) -> Seq<usize> {
        match self.history {
            Some(h) => h.contents(),
            None => Seq::<usize>::empty(),
        }
    }

    /// Number of places that refer to offset `o`: outstanding loans, history
    /// entries and connection-held offsets.
    pub open spec fn edges_at(&self, o: usize) -> nat {
        count_of(self.loaned@, o) + count_of(self.hist_contents(), o) + conn_count(
            self.subscriber_connections@,
            o,
        )
    }

    /// Total number of such references across all buckets.
    pub open spec fn edge_total(&self) -> nat {
        self.loaned@.len() + self.hist_contents().len() + conn_total(self.subscriber_connections@)
    }

    /// Bound on the offsets one connection may track.
    pub open spec fn conn_sample_budget(&self) -> int {
        self.static_config.subscriber_max_buffer_size + self.static_config.history_size + 1
    }

    /// Bound on the total number of references; fixed by the configuration.
    pub open spec fn edge_budget(&self) -> int {
        self.config.max_loaned_samples + self.static_config.history_size
            + self.static_config.max_subscribers * self.conn_sample_budget()
    }

    /// The fields that no segment operation changes.
    pub open spec fn same_config(&self, o: &DataSegment) -> bool {
        &&& self.payload_size == o.payload_size
        &&& self.number_of_samples == o.number_of_samples
        &&& self.port_id == o.port_id
        &&& self.config == o.config
        &&& self.static_config == o.static_config
        &&& self.is_active == o.is_active
    }

    /// The byte offset of bucket `i`.
    pub open spec fn bucket_offset(&self, i: int) -> usize {
        (i * self.payload_size) as usize
    }

    /// The counters match the recorded references, bucket by bucket and in
    /// total. `extra` holds offsets whose reference is taken but momentarily
    /// recorded nowhere else, such as those of a connection detached from its
    /// slot while it is worked on.
    pub open spec fn counters_match(&self, extra: Seq<usize>) -> bool {
        &&& forall|i: int|
            0 <= i < self.number_of_samples ==> (#[trigger] self.sample_reference_counter@[i])
                as int == self.edges_at(self.bucket_offset(i)) + count_of(
                extra,
                self.bucket_offset(i),
            )
        &&& total_of(self.sample_reference_counter@) == self.edge_total() + extra.len()
    }

    /// Everything the invariant states besides the counter accounting.
    pub open spec fn structure_ok(&self) -> bool {
        &&& self.static_config.wf()
        &&& self.payload_size == crate::types::spec_sample_size(
            self.static_config,
            self.config.max_slice_len as int,
        )
        &&& self.payload_size >= 1
        &&& self.number_of_samples * self.payload_size <= usize::MAX
        &&& self.sample_reference_counter@.len() == self.number_of_samples
        &&& self.memory@.len() == self.number_of_samples
        &&& self.loan_counter == self.loaned@.len()
        &&& self.loan_counter <= self.config.max_loaned_samples
        &&& self.subscriber_connections@.len() == self.static_config.max_subscribers
        &&& self.subscriber_list_state.slots@.len() == self.static_config.max_subscribers
        &&& all_valid(self.loaned@, self.payload_size, self.number_of_samples)
        &&& all_valid(self.hist_contents(), self.payload_size, self.number_of_samples)
        &&& forall|j: int|
            0 <= j < self.subscriber_connections@.len() ==> slot_ok(
                #[trigger] self.subscriber_connections@[j],
                self.payload_size,
                self.number_of_samples,
                self.conn_sample_budget(),
            )
        &&& match self.history {
            Some(h) => h.wf() && h.capacity() == self.static_config.history_size,
            None => self.static_config.history_size == 0,
        }
        &&& self.edge_budget() + 1 <= usize::MAX
        &&& forall|i: int|
            0 <= i < self.number_of_samples ==> match (#[trigger] self.memory@[i]).header {
                Some(h) => h.publisher_id == self.port_id,
                None => true,
            }
    }

    /// The central invariant: counters match references — one per outstanding
    /// loan, history entry and connection-held offset — every tracked offset
    /// addresses a bucket, loans stay within their bound, and stamped headers
    /// carry this publisher's id.
    pub open spec fn inv(&self) -> bool {
        &&& self.structure_ok()
        &&& self.counters_match(Seq::<usize>::empty())
    }

    /// Every slot's total is within the per-connection budget.
    pub proof fn lemma_slot_totals_bounded(&self)
        requires
            self.structure_ok(),
        ensures
            forall|j: int|
                0 <= j < self.subscriber_connections@.len() ==> slot_total(
                    #[trigger] self.subscriber_connections@[j],
                ) <= self.conn_sample_budget(),
    {
        assert forall|j: int|
            0 <= j < self.subscriber_connections@.len() implies slot_total(
            #[trigger] self.subscriber_connections@[j],
        ) <= self.conn_sample_budget() by {
            assert(slot_ok(
                self.subscriber_connections@[j],
                self.payload_size,
                self.number_of_samples,
                self.conn_sample_budget(),
            ));
        }
    }

    /// Every reference counter stays strictly below its type's maximum: it
    /// counts references, and the configuration bounds how many can exist.
    /// `extra` covers a connection detached from its slot, which must then be
    /// empty.
    pub proof fn lemma_counter_headroom_detached(&self, i: int, extra: Seq<usize>, j: int)
        requires
            self.structure_ok(),
            self.counters_match(extra),
            0 <= i < self.number_of_samples,
            0 <= j < self.subscriber_connections@.len(),
            self.subscriber_connections@[j] is None,
            extra.len() <= self.conn_sample_budget(),
        ensures
            self.sample_reference_counter@[i] < u64::MAX,
    {
        let o = self.bucket_offset(i);
        lemma_count_le_len(self.loaned@, o);
        lemma_count_le_len(self.hist_contents(), o);
        lemma_count_le_len(extra, o);
        lemma_conn_count_le_total(self.subscriber_connections@, o);
        self.lemma_slot_totals_bounded();
        lemma_conn_total_bound_excluding(
            self.subscriber_connections@,
            self.conn_sample_budget(),
            j,
        );
        assert((self.subscriber_connections@.len() - 1) * self.conn_sample_budget()
            + self.conn_sample_budget() == self.subscriber_connections@.len()
            * self.conn_sample_budget()) by (nonlinear_arith);
        assert(usize::MAX <= u64::MAX);
    }

    /// As above, with every connection sitting in its slot.
    pub proof fn lemma_counter_headroom(&self, i: int)
        requires
            self.inv(),
            0 <= i < self.number_of_samples,
        ensures
            self.sample_reference_counter@[i] < u64::MAX,
    {
        let o = self.bucket_offset(i);
        lemma_count_le_len(self.loaned@, o);
        lemma_count_le_len(self.hist_contents(), o);
        lemma_conn_count_le_total(self.subscriber_connections@, o);
        self.lemma_slot_totals_bounded();
        lemma_conn_total_bound(self.subscriber_connections@, self.conn_sample_budget());
        assert(usize::MAX <= u64::MAX);
    }

    /// Taking or dropping one reference to `off` — one counter step paired
    /// with one recorded edge — keeps the counters matching.
    pub proof fn lemma_counters_shift(
        pre: &DataSegment,
        post: &DataSegment,
        extra_pre: Seq<usize>,
        extra_post: Seq<usize>,
        off: usize,
        delta: int,
    )
        requires
            delta == 1 || delta == -1,
            pre.counters_match(extra_pre),
            pre.payload_size >= 1,
            pre.number_of_samples * pre.payload_size <= usize::MAX,
            pre.sample_reference_counter@.len() == pre.number_of_samples,
            valid_offset(off, pre.payload_size, pre.number_of_samples),
            forall|x: usize|
                count_of(extra_post, x) == count_of(extra_pre, x) + (if x == off {
                    delta
                } else {
                    0int
                }),
            extra_post.len() == extra_pre.len() + delta,
            post.payload_size == pre.payload_size,
            post.number_of_samples == pre.number_of_samples,
            post.loaned == pre.loaned,
            post.history == pre.history,
            post.subscriber_connections == pre.subscriber_connections,
            0 <= pre.sample_reference_counter@[idx_of(off, pre.payload_size)] + delta <= u64::MAX,
            post.sample_reference_counter@ == pre.sample_reference_counter@.update(
                idx_of(off, pre.payload_size),
                (pre.sample_reference_counter@[idx_of(off, pre.payload_size)] + delta) as u64,
            ),
        ensures
            post.counters_match(extra_post),
    {
        let ps = pre.payload_size;
        let n = pre.number_of_samples;
        let i0 = idx_of(off, ps);
        lemma_offset_to_index(off, ps);
        assert(pre.bucket_offset(i0) == off);
        assert forall|i: int| 0 <= i < n implies (#[trigger] post.sample_reference_counter@[i])
            as int == post.edges_at(post.bucket_offset(i)) + count_of(
            extra_post,
            post.bucket_offset(i),
        ) by {
            let o_i = pre.bucket_offset(i);
            assert(post.bucket_offset(i) == o_i);
            assert(post.edges_at(o_i) == pre.edges_at(o_i));
            if i != i0 {
                lemma_index_to_offset(i, ps, n);
                assert(o_i != off);
            }
        }
        lemma_total_update(
            pre.sample_reference_counter@,
            i0,
            (pre.sample_reference_counter@[i0] + delta) as u64,
        );
        assert(post.edge_total() == pre.edge_total());
    }

    /// Moving references between `extra` and the recorded edges — loans,
    /// history, connections — without touching a counter keeps the counters
    /// matching.
    pub proof fn lemma_counters_rebalance(
        pre: &DataSegment,
        post: &DataSegment,
        extra_pre: Seq<usize>,
        extra_post: Seq<usize>,
    )
        requires
            pre.counters_match(extra_pre),
            post.sample_reference_counter == pre.sample_reference_counter,
            post.payload_size == pre.payload_size,
            post.number_of_samples == pre.number_of_samples,
            forall|x: usize|
                #[trigger] post.edges_at(x) + count_of(extra_post, x) == pre.edges_at(x)
                    + count_of(extra_pre, x),
            post.edge_total() + extra_post.len() == pre.edge_total() + extra_pre.len(),
        ensures
            post.counters_match(extra_post),
    {
        assert forall|i: int| 0 <= i < post.number_of_samples implies (
        #[trigger] post.sample_reference_counter@[i]) as int == post.edges_at(post.bucket_offset(i))
            + count_of(extra_post, post.bucket_offset(i)) by {
            assert(post.bucket_offset(i) == pre.bucket_offset(i));
            assert(post.edges_at(pre.bucket_offset(i)) + count_of(
                extra_post,
                pre.bucket_offset(i),
            ) == pre.edges_at(pre.bucket_offset(i)) + count_of(extra_pre, pre.bucket_offset(i)));
        }
    }

    /// Swapping the connection in one slot against references recorded in
    /// `extra` — detaching it to work on it, or attaching it back — keeps the
    /// counters matching, as long as the references themselves move between
    /// the slot and `extra`.
    pub proof fn lemma_counters_swap_slot(
        pre: &DataSegment,
        post: &DataSegment,
        extra_pre: Seq<usize>,
        extra_post: Seq<usize>,
        j: int,
    )
        requires
            pre.counters_match(extra_pre),
            0 <= j < pre.subscriber_connections@.len(),
            post.subscriber_connections@ == pre.subscriber_connections@.update(
                j,
                post.subscriber_connections@[j],
            ),
            forall|x: usize|
                count_of(extra_post, x) + slot_count(post.subscriber_connections@[j], x)
                    == count_of(extra_pre, x) + slot_count(pre.subscriber_connections@[j], x),
            extra_post.len() + slot_total(post.subscriber_connections@[j]) == extra_pre.len()
                + slot_total(pre.subscriber_connections@[j]),
            post.payload_size == pre.payload_size,
            post.number_of_samples == pre.number_of_samples,
            post.loaned == pre.loaned,
            post.history == pre.history,
            post.sample_reference_counter == pre.sample_reference_counter,
        ensures
            post.counters_match(extra_post),
    {
        let n = pre.number_of_samples;
        assert forall|i: int| 0 <= i < n implies (#[trigger] post.sample_reference_counter@[i])
            as int == post.edges_at(post.bucket_offset(i)) + count_of(
            extra_post,
            post.bucket_offset(i),
        ) by {
            let o_i = pre.bucket_offset(i);
            assert(post.bucket_offset(i) == o_i);
            lemma_conn_count_update(
                pre.subscriber_connections@,
                j,
                post.subscriber_connections@[j],
                o_i,
            );
        }
        lemma_conn_total_update(pre.subscriber_connections@, j, post.subscriber_connections@[j]);
    }

    /// The bucket that `distance_to_chunk` addresses.
    pub fn sample_index(&self, distance_to_chunk: usize) -> (r: usize)
        requires
            self.payload_size >= 1,
        ensures
            r == distance_to_chunk as int / self.payload_size as int,
    {
        distance_to_chunk / self.payload_size
    }

    /// Raises the reference counter of the addressed bucket by one. The
    /// caller records the edge that justifies the reference.
    fn borrow_sample(&mut self, distance_to_chunk: usize)
        requires
            old(self).payload_size >= 1,
            idx_of(distance_to_chunk, old(self).payload_size) < old(self).sample_reference_counter@.len(),
            old(self).sample_reference_counter@[idx_of(distance_to_chunk, old(self).payload_size)] < u64::MAX,
        ensures
            ({
                let i = idx_of(distance_to_chunk, old(self).payload_size);
                final(self).sample_reference_counter@ == old(self).sample_reference_counter@.update(
                    i,
                    (old(self).sample_reference_counter@[i] + 1) as u64,
                )
            }),
            final(self).memory == old(self).memory,
            final(self).subscriber_connections == old(self).subscriber_connections,
            final(self).subscriber_list_state == old(self).subscriber_list_state,
            final(self).history == old(self).history,
            final(self).loaned == old(self).loaned,
            final(self).loan_counter == old(self).loan_counter,
            final(self).same_config(old(self)),
    {
        let i = self.sample_index(distance_to_chunk);
        let v = self.sample_reference_counter[i];
        self.sample_reference_counter.set(i, v + 1);
    }

    /// Lowers the reference counter of the addressed bucket by one; the last
    /// reference deallocates the bucket. The caller has removed the edge that
    /// justified the reference.
    fn release_sample(&mut self, distance_to_chunk: usize)
        requires
            old(self).payload_size >= 1,
            idx_of(distance_to_chunk, old(self).payload_size) < old(self).sample_reference_counter@.len(),
            old(self).memory@.len() == old(self).sample_reference_counter@.len(),
            old(self).sample_reference_counter@[idx_of(distance_to_chunk, old(self).payload_size)] >= 1,
        ensures
            ({
                let i = idx_of(distance_to_chunk, old(self).payload_size);
                final(self).sample_reference_counter@ == old(self).sample_reference_counter@.update(
                    i,
                    (old(self).sample_reference_counter@[i] - 1) as u64,
                )
            }),
            ({
                let i = idx_of(distance_to_chunk, old(self).payload_size);
                old(self).sample_reference_counter@[i] > 1 ==> final(self).memory == old(self).memory
            }),
            ({
                let i = idx_of(distance_to_chunk, old(self).payload_size);
                old(self).sample_reference_counter@[i] == 1 ==> final(self).memory@.len() == old(self).memory@.len()
                    && final(self).memory@[i].header is None
                    && final(self).memory@[i].payload@ =~= Seq::<u8>::empty()
                    && (forall|k: int| 0 <= k < old(self).memory@.len() && k != i
                        ==> final(self).memory@[k] == old(self).memory@[k])
            }),
            final(self).subscriber_connections == old(self).subscriber_connections,
            final(self).subscriber_list_state == old(self).subscriber_list_state,
            final(self).history == old(self).history,
            final(self).loaned == old(self).loaned,
            final(self).loan_counter == old(self).loan_counter,
            final(self).same_config(old(self)),
    {
        let i = self.sample_index(distance_to_chunk);
        let v = self.sample_reference_counter[i];
        self.sample_reference_counter.set(i, v - 1);
        if v == 1 {
            self.memory.set(i, Chunk { header: None, payload: Vec::new() });
        }
    }

    /// Drains every offset the subscribers have returned and drops its
    /// reference. Counters only fall; buckets that stay referenced are
    /// untouched.
    pub fn retrieve_returned_samples(&mut self)
        requires
            old(self).inv(),
        ensures
            final(self).inv(),
            final(self).same_config(old(self)),
            final(self).history == old(self).history,
            final(self).loaned == old(self).loaned,
            final(self).loan_counter == old(self).loan_counter,
            final(self).subscriber_list_state == old(self).subscriber_list_state,
            slots_reclaimed(old(self).subscriber_connections@, final(self).subscriber_connections@),
            forall|i: int|
                0 <= i < old(self).number_of_samples
                    ==> #[trigger] final(self).sample_reference_counter@[i]
                        <= old(self).sample_reference_counter@[i],
            forall|i: int|
                0 <= i < old(self).number_of_samples
                    && #[trigger] final(self).sample_reference_counter@[i] >= 1
                    ==> final(self).memory@[i] == old(self).memory@[i],
    {
        let n_slots = self.subscriber_connections.len();
        let mut j: usize = 0;
        while j < n_slots
            invariant
                self.structure_ok(),
                self.counters_match(Seq::<usize>::empty()),
                self.same_config(old(self)),
                self.history == old(self).history,
                self.loaned == old(self).loaned,
                self.loan_counter == old(self).loan_counter,
                self.subscriber_list_state == old(self).subscriber_list_state,
                n_slots == self.subscriber_connections@.len(),
                n_slots == old(self).subscriber_connections@.len(),
                j <= n_slots,
                forall|k: int|
                    0 <= k < j ==> pair_reclaimed(
                        old(self).subscriber_connections@[k],
                        #[trigger] self.subscriber_connections@[k],
                    ),
                forall|k: int|
                    j <= k < n_slots
                        ==> #[trigger] self.subscriber_connections@[k]
                            == old(self).subscriber_connections@[k],
                forall|i: int|
                    0 <= i < old(self).number_of_samples ==> #[trigger] self.sample_reference_counter@[i]
                        <= old(self).sample_reference_counter@[i],
                forall|i: int|
                    0 <= i < old(self).number_of_samples && #[trigger] self.sample_reference_counter@[i]
                        >= 1 ==> self.memory@[i] == old(self).memory@[i],
            decreases n_slots - j,
        {
            let ghost s_before = *self;
            let mut slot: Option<Connection> = None;
            self.subscriber_connections.set_and_swap(j, &mut slot);
            if slot.is_some() {
                let mut conn = match slot {
                    Some(c) => c,
                    None => unreached(),
                };
                proof {
                    lemma_conn_extra_count(&conn);
                    lemma_conn_extra_count(&conn);
                    DataSegment::lemma_counters_swap_slot(
                        &s_before,
                        self,
                        Seq::<usize>::empty(),
                        conn_extra(&conn),
                        j as int,
                    );
                }
                loop
                    invariant
                        self.structure_ok(),
                        self.counters_match(conn_extra(&conn)),
                        self.same_config(old(self)),
                        self.history == old(self).history,
                        self.loaned == old(self).loaned,
                        self.loan_counter == old(self).loan_counter,
                        self.subscriber_list_state == old(self).subscriber_list_state,
                        n_slots == self.subscriber_connections@.len(),
                        n_slots == old(self).subscriber_connections@.len(),
                        j < n_slots,
                        self.subscriber_connections@[j as int] is None,
                        conn.same_link(&s_before.subscriber_connections@[j as int]->Some_0),
                        conn.ring == s_before.subscriber_connections@[j as int]->Some_0.ring,
                        conn.retained == s_before.subscriber_connections@[j as int]->Some_0.retained,
                        conn.wf(),
                        conn.sample_capacity <= self.conn_sample_budget(),
                        all_valid(conn.ring@, self.payload_size, self.number_of_samples),
                        all_valid(conn.retained@, self.payload_size, self.number_of_samples),
                        all_valid(conn.returned@, self.payload_size, self.number_of_samples),
                        forall|k: int|
                            0 <= k < j ==> pair_reclaimed(
                                old(self).subscriber_connections@[k],
                                #[trigger] self.subscriber_connections@[k],
                            ),
                        forall|k: int|
                            j < k < n_slots
                                ==> #[trigger] self.subscriber_connections@[k]
                                    == old(self).subscriber_connections@[k],
                        s_before.subscriber_connections@[j as int]
                            == old(self).subscriber_connections@[j as int],
                        s_before.subscriber_connections@[j as int] is Some,
                        forall|i: int|
                            0 <= i < old(self).number_of_samples ==> #[trigger] self.sample_reference_counter@[i]
                                <= old(self).sample_reference_counter@[i],
                        forall|i: int|
                            0 <= i < old(self).number_of_samples && #[trigger] self.sample_reference_counter@[i]
                                >= 1 ==> self.memory@[i] == old(self).memory@[i],
                    ensures
                        conn.returned@.len() == 0,
                    decreases conn.returned@.len(),
                {
                    let ghost c0 = conn;
                    let ghost s0 = *self;
                    match conn.reclaim() {
                        Some(off) => {
                            proof {
                                assert(c0.returned@[0] == off);
                                assert(valid_offset(off, self.payload_size, self.number_of_samples));
                                lemma_offset_to_index(off, self.payload_size);
                                lemma_conn_extra_count(&c0);
                                lemma_count_contains(c0.returned@, off);
                                lemma_count_le_len(c0.returned@, off);
                                assert(count_of(conn_extra(&c0), off) >= 1);
                                assert(s0.bucket_offset(idx_of(off, s0.payload_size)) == off);
                                assert(s0.sample_reference_counter@[idx_of(off, s0.payload_size)]
                                    >= 1);
                            }
                            self.release_sample(off);
                            proof {
                                lemma_conn_extra_count(&conn);
                                assert(c0.returned@.remove(0) =~= c0.returned@.drop_first());
                                lemma_count_relation_remove(c0.returned@, 0);
                                assert forall|x: usize|
                                    count_of(conn_extra(&conn), x) == count_of(conn_extra(&c0), x)
                                        + (if x == off {
                                        -1int
                                    } else {
                                        0int
                                    }) by {
                                    lemma_conn_extra_count(&conn);
                                    lemma_conn_extra_count(&c0);
                                    assert(count_of(conn.returned@, x) == count_of(
                                        c0.returned@.remove(0),
                                        x,
                                    ));
                                }
                                DataSegment::lemma_counters_shift(
                                    &s0,
                                    self,
                                    conn_extra(&c0),
                                    conn_extra(&conn),
                                    off,
                                    -1,
                                );
                            }
                        },
                        None => {
                            break ;
                        },
                    }
                }
                let mut back: Option<Connection> = Some(conn);
                let ghost s_mid = *self;
                self.subscriber_connections.set_and_swap(j, &mut back);
                proof {
                    lemma_conn_extra_count(&self.subscriber_connections@[j as int]->Some_0);
                    assert(conn_extra(&self.subscriber_connections@[j as int]->Some_0).len()
                        == self.subscriber_connections@[j as int]->Some_0.edge_total());
                    DataSegment::lemma_counters_swap_slot(
                        &s_mid,
                        self,
                        conn_extra(&self.subscriber_connections@[j as int]->Some_0),
                        Seq::<usize>::empty(),
                        j as int,
                    );
                    assert(pair_reclaimed(
                        old(self).subscriber_connections@[j as int],
                        self.subscriber_connections@[j as int],
                    ));
                }
            } else {
                proof {
                    assert(self.subscriber_connections@ =~= s_before.subscriber_connections@);
                    assert(pair_reclaimed(
                        old(self).subscriber_connections@[j as int],
                        self.subscriber_connections@[j as int],
                    ));
                }
            }
            j += 1;
        }
    }

    /// Reaps returned chunks, then loans a fresh bucket: its counter steps
    /// from zero to one and its offset is handed to the user. Fails with
    /// `OutOfMemory` exactly when every bucket is still referenced.
    #[verifier::loop_isolation(false)]
    pub fn allocate(&mut self) -> (r: Result<usize, PublisherLoanError>)
        requires
            old(self).inv(),
            old(self).loan_counter < old(self).config.max_loaned_samples,
        ensures
            final(self).inv(),
            final(self).same_config(old(self)),
            final(self).history == old(self).history,
            final(self).subscriber_list_state == old(self).subscriber_list_state,
            slots_reclaimed(old(self).subscriber_connections@, final(self).subscriber_connections@),
            match r {
                Ok(off) => {
                    &&& valid_offset(off, old(self).payload_size, old(self).number_of_samples)
                    &&& !old(self).loaned@.contains(off)
                    &&& final(self).loaned@ == old(self).loaned@.push(off)
                    &&& final(self).loan_counter == old(self).loan_counter + 1
                    &&& final(self).sample_reference_counter@[idx_of(off, old(self).payload_size)]
                        == 1
                },
                Err(e) => {
                    &&& e == PublisherLoanError::OutOfMemory
                    &&& final(self).loaned == old(self).loaned
                    &&& final(self).loan_counter == old(self).loan_counter
                    &&& forall|i: int|
                        0 <= i < old(self).number_of_samples
                            ==> #[trigger] final(self).sample_reference_counter@[i] >= 1
                    &&& forall|i: int|
                        0 <= i < old(self).number_of_samples
                            ==> #[trigger] final(self).sample_reference_counter@[i]
                                <= old(self).sample_reference_counter@[i]
                },
            },
    {
        self.retrieve_returned_samples();
        let ghost s0 = *self;
        let n = self.number_of_samples;
        let mut i: usize = 0;
        while i < n
            invariant
                *self == s0,
                n == self.number_of_samples,
                i <= n,
                self.inv(),
                forall|k: int| 0 <= k < i ==> #[trigger] self.sample_reference_counter@[k] >= 1,
            decreases n - i,
        {
            if self.sample_reference_counter[i] == 0 {
                proof {
                    lemma_index_to_offset(i as int, self.payload_size, self.number_of_samples);
                }
                let off = i * self.payload_size;
                proof {
                    assert(idx_of(off, s0.payload_size) == i as int);
                    assert(valid_offset(off, s0.payload_size, s0.number_of_samples));
                    assert(s0.edges_at(s0.bucket_offset(i as int)) == 0);
                    lemma_count_contains(s0.loaned@, off);
                }
                let v = self.sample_reference_counter[i];
                self.sample_reference_counter.set(i, v + 1);
                let ghost s1 = *self;
                proof {
                    lemma_count_relation_push(Seq::<usize>::empty(), off);
                    DataSegment::lemma_counters_shift(
                        &s0,
                        &s1,
                        Seq::<usize>::empty(),
                        Seq::<usize>::empty().push(off),
                        off,
                        1,
                    );
                }
                self.loaned.push(off);
                self.loan_counter = self.loan_counter + 1;
                proof {
                    lemma_count_relation_push(s1.loaned@, off);
                    assert forall|x: usize|
                        #[trigger] self.edges_at(x) + count_of(Seq::<usize>::empty(), x)
                            == s1.edges_at(x) + count_of(Seq::<usize>::empty().push(off), x) by {
                        assert(count_of(self.loaned@, x) == count_of(s1.loaned@, x) + (if x == off {
                            1int
                        } else {
                            0int
                        }));
                    }
                    DataSegment::lemma_counters_rebalance(
                        &s1,
                        self,
                        Seq::<usize>::empty().push(off),
                        Seq::<usize>::empty(),
                    );
                    assert(all_valid(self.loaned@, self.payload_size, self.number_of_samples));
                }
                return Ok(off);
            }
            i += 1;
        }
        Err(PublisherLoanError::OutOfMemory)
    }

    /// Gives the loan's reference back: drops it from the outstanding loans
    /// and releases the chunk. An offset that is not loaned is left alone.
    #[verifier::loop_isolation(false)]
    pub fn return_loaned_sample(&mut self, distance_to_chunk: usize)
        requires
            old(self).inv(),
        ensures
            final(self).inv(),
            final(self).same_config(old(self)),
            final(self).history == old(self).history,
            final(self).subscriber_connections == old(self).subscriber_connections,
            final(self).subscriber_list_state == old(self).subscriber_list_state,
            !old(self).loaned@.contains(distance_to_chunk) ==> *final(self) == *old(self),
            old(self).loaned@.contains(distance_to_chunk) ==> {
                &&& (old(self).sample_reference_counter@[idx_of(
                    distance_to_chunk,
                    old(self).payload_size,
                )] > 1 ==> final(self).memory == old(self).memory)
                &&& final(self).loan_counter == old(self).loan_counter - 1
                &&& exists|k: int|
                    0 <= k < old(self).loaned@.len() && old(self).loaned@[k] == distance_to_chunk
                        && final(self).loaned@ == old(self).loaned@.remove(k)
                &&& ({
                    let i = idx_of(distance_to_chunk, old(self).payload_size);
                    final(self).sample_reference_counter@
                        == old(self).sample_reference_counter@.update(
                        i,
                        (old(self).sample_reference_counter@[i] - 1) as u64,
                    )
                })
            },
    {
        let ghost s0 = *self;
        let mut k: usize = 0;
        let len = self.loaned.len();
        while k < len
            invariant
                *self == s0,
                len == self.loaned@.len(),
                k <= len,
                forall|t: int| 0 <= t < k ==> s0.loaned@[t] != distance_to_chunk,
            decreases len - k,
        {
            if self.loaned[k] == distance_to_chunk {
                let off = distance_to_chunk;
                proof {
                    assert(s0.loaned@[k as int] == off);
                    assert(s0.loaned@.contains(off));
                    assert(valid_offset(off, s0.payload_size, s0.number_of_samples));
                    lemma_offset_to_index(off, s0.payload_size);
                    lemma_count_contains(s0.loaned@, off);
                    assert(s0.bucket_offset(idx_of(off, s0.payload_size)) == off);
                }
                self.loaned.remove(k);
                self.loan_counter = self.loan_counter - 1;
                let ghost s1 = *self;
                proof {
                    lemma_count_relation_remove(s0.loaned@, k as int);
                    lemma_count_relation_push(Seq::<usize>::empty(), off);
                    assert forall|x: usize|
                        #[trigger] s1.edges_at(x) + count_of(Seq::<usize>::empty().push(off), x)
                            == s0.edges_at(x) + count_of(Seq::<usize>::empty(), x) by {
                        assert(count_of(s1.loaned@, x) == count_of(s0.loaned@, x) - (if x == off {
                            1int
                        } else {
                            0int
                        }));
                    }
                    DataSegment::lemma_counters_rebalance(
                        &s0,
                        &s1,
                        Seq::<usize>::empty(),
                        Seq::<usize>::empty().push(off),
                    );
                    lemma_count_le_len(Seq::<usize>::empty().push(off), off);
                    assert(count_of(Seq::<usize>::empty().push(off), off) == 1);
                    assert(s1.sample_reference_counter@[idx_of(off, s1.payload_size)] >= 1);
                }
                self.release_sample(off);
                proof {
                    DataSegment::lemma_counters_shift(
                        &s1,
                        self,
                        Seq::<usize>::empty().push(off),
                        Seq::<usize>::empty(),
                        off,
                        -1,
                    );
                }
                return ;
            }
            k += 1;
        }
        proof {
            lemma_count_contains(s0.loaned@, distance_to_chunk);
        }
    }

    /// Appends the sent chunk's offset to the history, taking a reference for
    /// it; a full history evicts its oldest entry and drops that reference.
    pub fn add_sample_to_history(&mut self, address_to_chunk: usize)
        requires
            old(self).inv(),
            valid_offset(address_to_chunk, old(self).payload_size, old(self).number_of_samples),
            count_of(old(self).loaned@, address_to_chunk) >= 1,
        ensures
            final(self).inv(),
            final(self).same_config(old(self)),
            final(self).loaned == old(self).loaned,
            final(self).loan_counter == old(self).loan_counter,
            final(self).subscriber_connections == old(self).subscriber_connections,
            final(self).subscriber_list_state == old(self).subscriber_list_state,
            old(self).history is None ==> *final(self) == *old(self),
            old(self).history is Some ==> final(self).history is Some,
            old(self).history is Some
                && old(self).hist_contents().len() < old(self).static_config.history_size
                ==> final(self).hist_contents() == old(self).hist_contents().push(address_to_chunk),
            old(self).history is Some
                && old(self).hist_contents().len() == old(self).static_config.history_size
                ==> final(self).hist_contents()
                    == old(self).hist_contents().drop_first().push(address_to_chunk),
            forall|i: int|
                0 <= i < old(self).number_of_samples
                    && #[trigger] final(self).sample_reference_counter@[i] >= 1
                    ==> final(self).memory@[i] == old(self).memory@[i],
            forall|i: int|
                0 <= i < old(self).number_of_samples
                    && #[trigger] final(self).sample_reference_counter@[i] >= 1
                    ==> old(self).sample_reference_counter@[i] >= 1,
    {
        let ghost s0 = *self;
        if self.history.is_some() {
            let off = address_to_chunk;
            proof {
                lemma_offset_to_index(off, s0.payload_size);
                self.lemma_counter_headroom(idx_of(off, s0.payload_size));
                assert(s0.bucket_offset(idx_of(off, s0.payload_size)) == off);
                assert(s0.sample_reference_counter@[idx_of(off, s0.payload_size)] >= 1);
            }
            self.borrow_sample(off);
            let ghost s1 = *self;
            proof {
                lemma_count_relation_push(Seq::<usize>::empty(), off);
                DataSegment::lemma_counters_shift(
                    &s0,
                    &s1,
                    Seq::<usize>::empty(),
                    Seq::<usize>::empty().push(off),
                    off,
                    1,
                );
            }
            let evicted: Option<usize> = match self.history.as_mut() {
                Some(h) => h.push(off),
                None => unreached(),
            };
            let ghost s2 = *self;
            match evicted {
                None => {
                    proof {
                        lemma_count_relation_push(s1.hist_contents(), off);
                        assert forall|x: usize|
                            #[trigger] s2.edges_at(x) + count_of(Seq::<usize>::empty(), x)
                                == s1.edges_at(x) + count_of(Seq::<usize>::empty().push(off), x) by {
                            assert(count_of(s2.hist_contents(), x) == count_of(
                                s1.hist_contents(),
                                x,
                            ) + (if x == off {
                                1int
                            } else {
                                0int
                            }));
                        }
                        DataSegment::lemma_counters_rebalance(
                            &s1,
                            &s2,
                            Seq::<usize>::empty().push(off),
                            Seq::<usize>::empty(),
                        );
                        assert(all_valid(
                            self.hist_contents(),
                            self.payload_size,
                            self.number_of_samples,
                        ));
                    }
                },
                Some(old_off) => {
                    proof {
                        assert(old_off == s1.hist_contents()[0]);
                        assert(valid_offset(old_off, s0.payload_size, s0.number_of_samples));
                        lemma_offset_to_index(old_off, s0.payload_size);
                        assert(s2.hist_contents() == s1.hist_contents().drop_first().push(off));
                        assert(s1.hist_contents().remove(0) =~= s1.hist_contents().drop_first());
                        lemma_count_relation_remove(s1.hist_contents(), 0);
                        lemma_count_relation_push(s1.hist_contents().drop_first(), off);
                        lemma_count_relation_push(Seq::<usize>::empty(), off);
                        lemma_count_relation_push(Seq::<usize>::empty(), old_off);
                        assert forall|x: usize|
                            #[trigger] s2.edges_at(x) + count_of(
                                Seq::<usize>::empty().push(old_off),
                                x,
                            ) == s1.edges_at(x) + count_of(Seq::<usize>::empty().push(off), x) by {
                            assert(count_of(s2.hist_contents(), x) == count_of(
                                s1.hist_contents(),
                                x,
                            ) - (if x == old_off {
                                1int
                            } else {
                                0int
                            }) + (if x == off {
                                1int
                            } else {
                                0int
                            }));
                        }
                        DataSegment::lemma_counters_rebalance(
                            &s1,
                            &s2,
                            Seq::<usize>::empty().push(off),
                            Seq::<usize>::empty().push(old_off),
                        );
                        lemma_count_relation_push(Seq::<usize>::empty(), old_off);
                        assert(count_of(Seq::<usize>::empty().push(old_off), old_off) == 1);
                        assert(s2.sample_reference_counter@[idx_of(old_off, s2.payload_size)] >= 1);
                        assert(all_valid(
                            self.hist_contents(),
                            self.payload_size,
                            self.number_of_samples,
                        ));
                    }
                    self.release_sample(old_off);
                    proof {
                        DataSegment::lemma_counters_shift(
                            &s2,
                            self,
                            Seq::<usize>::empty().push(old_off),
                            Seq::<usize>::empty(),
                            old_off,
                            -1,
                        );
                    }
                },
            }
        }
    }

    /// Removes the connection in slot `i`, first reclaiming every chunk the
    /// departed subscriber still referenced: afterwards no chunk remains
    /// borrowed on the slot's behalf, and each affected counter has dropped
    /// by exactly the references the connection held.
    #[verifier::loop_isolation(false)]
    pub fn remove_connection(&mut self, i: usize)
        requires
            old(self).inv(),
            i < old(self).subscriber_connections@.len(),
        ensures
            final(self).inv(),
            final(self).same_config(old(self)),
            final(self).history == old(self).history,
            final(self).loaned == old(self).loaned,
            final(self).loan_counter == old(self).loan_counter,
            final(self).subscriber_list_state == old(self).subscriber_list_state,
            final(self).subscriber_connections@ == old(self).subscriber_connections@.update(
                i as int,
                None,
            ),
            forall|k: int|
                0 <= k < old(self).number_of_samples
                    ==> #[trigger] final(self).sample_reference_counter@[k]
                        == old(self).sample_reference_counter@[k] - slot_count(
                        old(self).subscriber_connections@[i as int],
                        old(self).bucket_offset(k),
                    ),
            forall|k: int|
                0 <= k < old(self).number_of_samples
                    && #[trigger] final(self).sample_reference_counter@[k] >= 1
                    ==> final(self).memory@[k] == old(self).memory@[k],
    {
        let ghost s_entry = *self;
        let mut slot: Option<Connection> = None;
        self.subscriber_connections.set_and_swap(i, &mut slot);
        if slot.is_some() {
            let mut conn = match slot {
                Some(c) => c,
                None => unreached(),
            };
            let ghost c_entry = conn;
            proof {
                lemma_conn_extra_count(&conn);
                DataSegment::lemma_counters_swap_slot(
                    &s_entry,
                    self,
                    Seq::<usize>::empty(),
                    conn_extra(&conn),
                    i as int,
                );
            }
            let offs = conn.drain_outstanding();
            proof {
                assert(offs@.skip(0) =~= offs@);
                lemma_all_valid_concat(
                    c_entry.ring@,
                    c_entry.retained@,
                    self.payload_size,
                    self.number_of_samples,
                );
                lemma_all_valid_concat(
                    c_entry.ring@ + c_entry.retained@,
                    c_entry.returned@,
                    self.payload_size,
                    self.number_of_samples,
                );
            }
            let ghost s_detached = *self;
            let len = offs.len();
            let mut k: usize = 0;
            while k < len
                invariant
                    self.structure_ok(),
                    self.counters_match(offs@.skip(k as int)),
                    self.same_config(old(self)),
                    self.history == old(self).history,
                    self.loaned == old(self).loaned,
                    self.loan_counter == old(self).loan_counter,
                    self.subscriber_list_state == old(self).subscriber_list_state,
                    self.subscriber_connections@ == old(self).subscriber_connections@.update(
                        i as int,
                        None,
                    ),
                    k <= len,
                    len == offs@.len(),
                    offs@ == conn_extra(&c_entry),
                    all_valid(offs@, self.payload_size, self.number_of_samples),
                    forall|t: int|
                        0 <= t < old(self).number_of_samples
                            && #[trigger] self.sample_reference_counter@[t] >= 1
                            ==> self.memory@[t] == old(self).memory@[t],
                    forall|t: int|
                        0 <= t < old(self).number_of_samples
                            ==> #[trigger] self.sample_reference_counter@[t]
                                <= old(self).sample_reference_counter@[t],
                decreases len - k,
            {
                let off = offs[k];
                let ghost s0 = *self;
                let ghost ex0 = offs@.skip(k as int);
                proof {
                    assert(ex0[0] == off);
                    assert(valid_offset(off, s0.payload_size, s0.number_of_samples));
                    lemma_offset_to_index(off, s0.payload_size);
                    lemma_count_contains(ex0, off);
                    assert(ex0.contains(off));
                    assert(s0.bucket_offset(idx_of(off, s0.payload_size)) == off);
                    assert(s0.sample_reference_counter@[idx_of(off, s0.payload_size)] >= 1);
                }
                self.release_sample(off);
                proof {
                    assert(ex0.remove(0) =~= offs@.skip(k as int + 1));
                    lemma_count_relation_remove(ex0, 0);
                    DataSegment::lemma_counters_shift(
                        &s0,
                        self,
                        ex0,
                        offs@.skip(k as int + 1),
                        off,
                        -1,
                    );
                }
                k += 1;
            }
            proof {
                assert(offs@.skip(len as int) =~= Seq::<usize>::empty());
                assert(self.structure_ok());
                assert(self.counters_match(Seq::<usize>::empty()));
            }
        } else {
            proof {
                assert(self.subscriber_connections@ =~= s_entry.subscriber_connections@);
                assert(s_entry.subscriber_connections@ =~= s_entry.subscriber_connections@.update(
                    i as int,
                    None,
                ));
                assert(self.structure_ok());
                assert(self.counters_match(Seq::<usize>::empty()));
            }
        }
        proof {
            assert forall|k: int| 0 <= k < old(self).number_of_samples implies #[trigger] self.sample_reference_counter@[k]
                == old(self).sample_reference_counter@[k] - slot_count(
                old(self).subscriber_connections@[i as int],
                old(self).bucket_offset(k),
            ) by {
                let o_k = old(self).bucket_offset(k);
                lemma_conn_count_update(old(self).subscriber_connections@, i as int, None, o_k);
                match old(self).subscriber_connections@[i as int] {
                    Some(c) => {
                        lemma_conn_extra_count(&c);
                    },
                    None => {},
                }
            }
            assert(self.structure_ok());
            assert(self.counters_match(Seq::<usize>::empty()));
        }
    }

    /// Marks the connection in slot `i` as corrupted; later deliveries to it
    /// fail and are routed through the degradation policy.
    pub fn mark_connection_corrupted(&mut self, i: usize)
        requires
            old(self).inv(),
            i < old(self).subscriber_connections@.len(),
        ensures
            final(self).inv(),
            final(self).same_config(old(self)),
            final(self).history == old(self).history,
            final(self).loaned == old(self).loaned,
            final(self).loan_counter == old(self).loan_counter,
            final(self).subscriber_list_state == old(self).subscriber_list_state,
            final(self).sample_reference_counter == old(self).sample_reference_counter,
            final(self).memory == old(self).memory,
            final(self).subscriber_connections@.len() == old(self).subscriber_connections@.len(),
            forall|k: int|
                0 <= k < old(self).subscriber_connections@.len() && k != i
                    ==> #[trigger] final(self).subscriber_connections@[k]
                        == old(self).subscriber_connections@[k],
            old(self).subscriber_connections@[i as int] is None
                ==> final(self).subscriber_connections@[i as int] is None,
            old(self).subscriber_connections@[i as int] matches Some(c1)
                ==> final(self).subscriber_connections@[i as int] matches Some(c2) && c2 == (
                Connection { corrupted: true, ..c1 }),
    {
        let ghost s_entry = *self;
        let mut slot: Option<Connection> = None;
        self.subscriber_connections.set_and_swap(i, &mut slot);
        if slot.is_some() {
            let mut conn = match slot {
                Some(c) => c,
                None => unreached(),
            };
            proof {
                lemma_conn_extra_count(&conn);
                DataSegment::lemma_counters_swap_slot(
                    &s_entry,
                    self,
                    Seq::<usize>::empty(),
                    conn_extra(&conn),
                    i as int,
                );
            }
            conn.corrupted = true;
            let mut back: Option<Connection> = Some(conn);
            let ghost s_mid = *self;
            self.subscriber_connections.set_and_swap(i, &mut back);
            proof {
                lemma_conn_extra_count(&self.subscriber_connections@[i as int]->Some_0);
                DataSegment::lemma_counters_swap_slot(
                    &s_mid,
                    self,
                    conn_extra(&self.subscriber_connections@[i as int]->Some_0),
                    Seq::<usize>::empty(),
                    i as int,
                );
            }
        } else {
            proof {
                assert(self.subscriber_connections@ =~= s_entry.subscriber_connections@);
            }
        }
    }

    /// Enqueues `off` into one connection detached from slot `j`, adjusting
    /// the counters: one reference taken per accepted enqueue, the reference
    /// of a displaced entry dropped. Fails only for a corrupted connection
    /// under the `Fail` degradation policy; a full ring or an exhausted
    /// offset budget drops the sample silently.
    fn deliver_one(&mut self, conn: &mut Connection, off: usize, Ghost(j): Ghost<int>) -> (r:
        Result<bool, PublisherSendError>)
        requires
            old(self).structure_ok(),
            old(self).counters_match(conn_extra(old(conn))),
            old(conn).wf(),
            old(conn).sample_capacity <= old(self).conn_sample_budget(),
            all_valid(old(conn).ring@, old(self).payload_size, old(self).number_of_samples),
            all_valid(old(conn).retained@, old(self).payload_size, old(self).number_of_samples),
            all_valid(old(conn).returned@, old(self).payload_size, old(self).number_of_samples),
            valid_offset(off, old(self).payload_size, old(self).number_of_samples),
            count_of(old(self).loaned@, off) >= 1,
            0 <= j < old(self).subscriber_connections@.len(),
            old(self).subscriber_connections@[j] is None,
        ensures
            final(self).structure_ok(),
            final(self).counters_match(conn_extra(final(conn))),
            final(self).same_config(old(self)),
            final(self).history == old(self).history,
            final(self).loaned == old(self).loaned,
            final(self).loan_counter == old(self).loan_counter,
            final(self).subscriber_list_state == old(self).subscriber_list_state,
            final(self).subscriber_connections == old(self).subscriber_connections,
            final(conn).wf(),
            final(conn).same_link(old(conn)),
            final(conn).retained == old(conn).retained,
            final(conn).returned == old(conn).returned,
            all_valid(final(conn).ring@, old(self).payload_size, old(self).number_of_samples),
            all_valid(final(conn).retained@, old(self).payload_size, old(self).number_of_samples),
            all_valid(final(conn).returned@, old(self).payload_size, old(self).number_of_samples),
            old(conn).corrupted && old(self).config.degration_action == Some(DegrationAction::Fail)
                ==> r == Result::<bool, PublisherSendError>::Err(
                    PublisherSendError::ConnectionCorrupted,
                ),
            !(old(conn).corrupted && old(self).config.degration_action == Some(
                DegrationAction::Fail,
            )) ==> r is Ok,
            old(conn).corrupted && old(self).config.degration_action != Some(DegrationAction::Fail)
                ==> r == Result::<bool, PublisherSendError>::Ok(false),
            old(conn).corrupted ==> final(conn).ring == old(conn).ring,
            (!old(conn).corrupted && old(conn).ring@.len() < old(conn).buffer_size && old(
                conn,
            ).edge_total() < old(conn).sample_capacity) ==> final(conn).ring@ == old(
                conn,
            ).ring@.push(off) && r == Result::<bool, PublisherSendError>::Ok(true),
            (!old(conn).corrupted && old(conn).ring@.len() < old(conn).buffer_size && old(
                conn,
            ).edge_total() >= old(conn).sample_capacity) ==> final(conn).ring == old(conn).ring && r
                == Result::<bool, PublisherSendError>::Ok(false),
            (!old(conn).corrupted && old(conn).ring@.len() >= old(conn).buffer_size && old(
                conn,
            ).enable_safe_overflow) ==> final(conn).ring@ == old(conn).ring@.drop_first().push(off)
                && r == Result::<bool, PublisherSendError>::Ok(true),
            (!old(conn).corrupted && old(conn).ring@.len() >= old(conn).buffer_size && !old(
                conn,
            ).enable_safe_overflow) ==> final(conn).ring == old(conn).ring && r == Result::<
                bool,
                PublisherSendError,
            >::Ok(false),
            forall|t: int|
                0 <= t < old(self).number_of_samples
                    && #[trigger] final(self).sample_reference_counter@[t] >= 1
                    ==> final(self).memory@[t] == old(self).memory@[t],
            forall|t: int|
                0 <= t < old(self).number_of_samples
                    && #[trigger] final(self).sample_reference_counter@[t] >= 1
                    ==> old(self).sample_reference_counter@[t] >= 1,
    {
        let ghost c_pre = *conn;
        let send_result = match self.config.unable_to_deliver_strategy {
            UnableToDeliverStrategy::Block => conn.blocking_send(off),
            UnableToDeliverStrategy::DiscardSample => conn.try_send(off),
        };
        match send_result {
            Err(ZeroCopySendError::ConnectionCorrupted) => {
                let fail_hard = match self.config.degration_action {
                    Some(DegrationAction::Fail) => true,
                    _ => false,
                };
                if fail_hard {
                    return Err(PublisherSendError::ConnectionCorrupted);
                }
                Ok(false)
            },
            Err(ZeroCopySendError::ReceiveBufferFull) | Err(ZeroCopySendError::UsedChunkListFull) => {
                Ok(false)
            },
            Ok(overflow) => {
                proof {
                    lemma_offset_to_index(off, self.payload_size);
                    lemma_conn_extra_count(&c_pre);
                    self.lemma_counter_headroom_detached(
                        idx_of(off, self.payload_size),
                        conn_extra(&c_pre),
                        j,
                    );
                    assert(self.bucket_offset(idx_of(off, self.payload_size)) == off);
                    assert(self.sample_reference_counter@[idx_of(off, self.payload_size)] >= 1);
                }
                let ghost s0 = *self;
                self.borrow_sample(off);
                proof {
                    lemma_count_relation_push(conn_extra(&c_pre), off);
                    DataSegment::lemma_counters_shift(
                        &s0,
                        self,
                        conn_extra(&c_pre),
                        conn_extra(&c_pre).push(off),
                        off,
                        1,
                    );
                }
                if let Some(displaced) = overflow {
                    let ghost s1 = *self;
                    let ghost exm = conn_extra(&c_pre).push(off);
                    proof {
                        assert(conn_extra(&c_pre)[0] == displaced);
                        assert(exm[0] == displaced);
                        lemma_offset_to_index(displaced, self.payload_size);
                        lemma_count_contains(exm, displaced);
                        assert(exm.contains(displaced));
                        assert(self.sample_reference_counter@[idx_of(
                            displaced,
                            self.payload_size,
                        )] >= 1);
                    }
                    self.release_sample(displaced);
                    proof {
                        assert(exm.remove(0) =~= exm.drop_first());
                        lemma_count_relation_remove(exm, 0);
                        DataSegment::lemma_counters_shift(
                            &s1,
                            self,
                            exm,
                            exm.drop_first(),
                            displaced,
                            -1,
                        );
                        lemma_conn_extra_displace(&c_pre, conn, off);
                        DataSegment::lemma_counters_rebalance(
                            self,
                            self,
                            exm.drop_first(),
                            conn_extra(conn),
                        );
                    }
                } else {
                    proof {
                        lemma_conn_extra_push(&c_pre, conn, off);
                        DataSegment::lemma_counters_rebalance(
                            self,
                            self,
                            conn_extra(&c_pre).push(off),
                            conn_extra(conn),
                        );
                    }
                }
                Ok(true)
            },
        }
    }

    /// Delivers a chunk to every connected subscriber: reaps returned chunks
    /// first, then enqueues the offset slot by slot. Fails only when a
    /// corrupted connection is met under the `Fail` degradation policy.
    ///
    /// Waiting for ring space under the `Block` strategy needs the subscriber
    /// to drain the ring concurrently; with the connection state held here,
    /// nothing can wait, so a full ring is handled as under `DiscardSample`
    /// for either strategy.
    #[verifier::loop_isolation(false)]
    #[verifier::rlimit(40)]
    pub fn deliver_sample(&mut self, address_to_chunk: usize) -> (r: Result<
        usize,
        PublisherSendError,
    >)
        requires
            old(self).inv(),
            valid_offset(address_to_chunk, old(self).payload_size, old(self).number_of_samples),
            count_of(old(self).loaned@, address_to_chunk) >= 1,
        ensures
            final(self).inv(),
            final(self).same_config(old(self)),
            final(self).history == old(self).history,
            final(self).loaned == old(self).loaned,
            final(self).loan_counter == old(self).loan_counter,
            final(self).subscriber_list_state == old(self).subscriber_list_state,
            final(self).subscriber_connections@.len() == old(self).subscriber_connections@.len(),
            forall|t: int|
                0 <= t < old(self).number_of_samples
                    && #[trigger] final(self).sample_reference_counter@[t] >= 1
                    ==> final(self).memory@[t] == old(self).memory@[t],
            forall|t: int|
                0 <= t < old(self).number_of_samples
                    && #[trigger] final(self).sample_reference_counter@[t] >= 1
                    ==> old(self).sample_reference_counter@[t] >= 1,
            r is Ok ==> forall|k: int|
                0 <= k < old(self).subscriber_connections@.len() ==> delivered_pair(
                    old(self).subscriber_connections@[k],
                    #[trigger] final(self).subscriber_connections@[k],
                    address_to_chunk,
                ),
            r matches Ok(n) ==> n == accepted_count(old(self).subscriber_connections@),
            r is Err ==> r == Result::<usize, PublisherSendError>::Err(
                PublisherSendError::ConnectionCorrupted,
            ) && old(self).config.degration_action == Some(DegrationAction::Fail) && exists|k: int|
                0 <= k < old(self).subscriber_connections@.len() && slot_corrupted(
                    #[trigger] old(self).subscriber_connections@[k],
                ),
            (old(self).config.degration_action != Some(DegrationAction::Fail) || forall|k: int|
                0 <= k < old(self).subscriber_connections@.len() ==> !slot_corrupted(
                    #[trigger] old(self).subscriber_connections@[k],
                )) ==> r is Ok,
            (old(self).config.degration_action == Some(DegrationAction::Fail) && exists|k: int|
                0 <= k < old(self).subscriber_connections@.len() && slot_corrupted(
                    #[trigger] old(self).subscriber_connections@[k],
                )) ==> r is Err,
    {
        self.retrieve_returned_samples();
        let ghost s_base = *self;
        let off = address_to_chunk;
        let n_slots = self.subscriber_connections.len();
        let mut number_of_recipients: usize = 0;
        proof {
            assert(s_base.subscriber_connections@.take(0) =~= Seq::<Option<Connection>>::empty());
        }
        let mut j: usize = 0;
        while j < n_slots
            invariant
                self.structure_ok(),
                self.counters_match(Seq::<usize>::empty()),
                self.same_config(old(self)),
                self.history == old(self).history,
                self.loaned == old(self).loaned,
                self.loan_counter == old(self).loan_counter,
                self.subscriber_list_state == old(self).subscriber_list_state,
                n_slots == self.subscriber_connections@.len(),
                j <= n_slots,
                number_of_recipients <= j,
                number_of_recipients == accepted_count(s_base.subscriber_connections@.take(j as int)),
                forall|k: int|
                    0 <= k < j ==> delivered_pair(
                        s_base.subscriber_connections@[k],
                        #[trigger] self.subscriber_connections@[k],
                        off,
                    ),
                forall|k: int|
                    0 <= k < j
                        ==> !(slot_corrupted(#[trigger] s_base.subscriber_connections@[k])
                            && old(self).config.degration_action == Some(DegrationAction::Fail)),
                forall|k: int|
                    j <= k < n_slots
                        ==> #[trigger] self.subscriber_connections@[k]
                            == s_base.subscriber_connections@[k],
                forall|t: int|
                    0 <= t < old(self).number_of_samples
                        && #[trigger] self.sample_reference_counter@[t] >= 1
                        ==> self.memory@[t] == old(self).memory@[t],
                forall|t: int|
                    0 <= t < old(self).number_of_samples
                        && #[trigger] self.sample_reference_counter@[t] >= 1
                        ==> old(self).sample_reference_counter@[t] >= 1,
            decreases n_slots - j,
        {
            let ghost s_iter = *self;
            let mut slot: Option<Connection> = None;
            self.subscriber_connections.set_and_swap(j, &mut slot);
            if slot.is_some() {
                let mut conn = match slot {
                    Some(c) => c,
                    None => unreached(),
                };
                let ghost c_pre = conn;
                proof {
                    lemma_conn_extra_count(&conn);
                    DataSegment::lemma_counters_swap_slot(
                        &s_iter,
                        self,
                        Seq::<usize>::empty(),
                        conn_extra(&conn),
                        j as int,
                    );
                }
                let outcome = self.deliver_one(&mut conn, off, Ghost(j as int));
                let delivered = match outcome {
                    Ok(d) => d,
                    Err(e) => {
                        let mut back: Option<Connection> = Some(conn);
                        let ghost s_mid = *self;
                        self.subscriber_connections.set_and_swap(j, &mut back);
                        proof {
                            lemma_conn_extra_count(
                                &self.subscriber_connections@[j as int]->Some_0,
                            );
                            DataSegment::lemma_counters_swap_slot(
                                &s_mid,
                                self,
                                conn_extra(&self.subscriber_connections@[j as int]->Some_0),
                                Seq::<usize>::empty(),
                                j as int,
                            );
                            assert(self.subscriber_connections@
                                =~= s_iter.subscriber_connections@);
                            assert(pair_reclaimed(
                                old(self).subscriber_connections@[j as int],
                                s_base.subscriber_connections@[j as int],
                            ));
                            assert(slot_corrupted(old(self).subscriber_connections@[j as int]));
                            assert forall|t: int|
                                0 <= t < old(self).number_of_samples
                                    && #[trigger] self.sample_reference_counter@[t] >= 1 implies self.memory@[t]
                                == old(self).memory@[t] && old(self).sample_reference_counter@[t]
                                >= 1 by {
                                assert(s_iter.sample_reference_counter@[t] >= 1);
                                assert(self.memory@[t] == s_iter.memory@[t]);
                            }
                        }
                        return Err(e);
                    },
                };
                proof {
                    assert(pair_reclaimed(
                        old(self).subscriber_connections@[j as int],
                        s_base.subscriber_connections@[j as int],
                    ));
                    assert(c_pre == s_base.subscriber_connections@[j as int]->Some_0);
                    assert(c_pre.returned@.len() == 0);
                    assert(c_pre.edge_total() == c_pre.ring@.len() + c_pre.retained@.len());
                    assert(delivered == slot_accepts(s_base.subscriber_connections@[j as int]));
                    lemma_accepted_count_take(s_base.subscriber_connections@, j as int);
                }
                if delivered {
                    number_of_recipients += 1;
                }
                let mut back: Option<Connection> = Some(conn);
                let ghost s_att = *self;
                self.subscriber_connections.set_and_swap(j, &mut back);
                proof {
                    lemma_conn_extra_count(&self.subscriber_connections@[j as int]->Some_0);
                    DataSegment::lemma_counters_swap_slot(
                        &s_att,
                        self,
                        conn_extra(&self.subscriber_connections@[j as int]->Some_0),
                        Seq::<usize>::empty(),
                        j as int,
                    );
                    assert(delivered_pair(
                        s_base.subscriber_connections@[j as int],
                        self.subscriber_connections@[j as int],
                        off,
                    ));
                    assert forall|t: int|
                        0 <= t < old(self).number_of_samples
                            && #[trigger] self.sample_reference_counter@[t] >= 1 implies self.memory@[t]
                        == old(self).memory@[t] && old(self).sample_reference_counter@[t] >= 1 by {
                        assert(s_iter.sample_reference_counter@[t] >= 1);
                        assert(self.memory@[t] == s_iter.memory@[t]);
                    }
                }
            } else {
                proof {
                    assert(!slot_accepts(s_base.subscriber_connections@[j as int]));
                    lemma_accepted_count_take(s_base.subscriber_connections@, j as int);
                    assert(self.subscriber_connections@ =~= s_iter.subscriber_connections@);
                }
            }
            j += 1;
        }
        proof {
            assert(s_base.subscriber_connections@.take(n_slots as int)
                =~= s_base.subscriber_connections@);
            assert forall|k: int|
                0 <= k < old(self).subscriber_connections@.len() implies slot_accepts(
                #[trigger] old(self).subscriber_connections@[k],
            ) == slot_accepts(s_base.subscriber_connections@[k]) by {
                assert(pair_reclaimed(
                    old(self).subscriber_connections@[k],
                    s_base.subscriber_connections@[k],
                ));
            }
            lemma_accepted_count_congruent(
                old(self).subscriber_connections@,
                s_base.subscriber_connections@,
            );
            assert forall|k: int| 0 <= k < old(self).subscriber_connections@.len() implies delivered_pair(
                old(self).subscriber_connections@[k],
                #[trigger] self.subscriber_connections@[k],
                off,
            ) && !(slot_corrupted(old(self).subscriber_connections@[k])
                && old(self).config.degration_action == Some(DegrationAction::Fail)) by {
                assert(pair_reclaimed(
                    old(self).subscriber_connections@[k],
                    s_base.subscriber_connections@[k],
                ));
                assert(delivered_pair(
                    s_base.subscriber_connections@[k],
                    self.subscriber_connections@[k],
                    off,
                ));
                assert(!(slot_corrupted(s_base.subscriber_connections@[k])
                    && old(self).config.degration_action == Some(DegrationAction::Fail)));
            }
            assert forall|k: int|
                0 <= k < old(self).subscriber_connections@.len() implies !(slot_corrupted(
                #[trigger] old(self).subscriber_connections@[k],
            ) && old(self).config.degration_action == Some(DegrationAction::Fail)) by {
                assert(pair_reclaimed(
                    old(self).subscriber_connections@[k],
                    s_base.subscriber_connections@[k],
                ));
                assert(!(slot_corrupted(s_base.subscriber_connections@[k])
                    && old(self).config.degration_action == Some(DegrationAction::Fail)));
            }
        }
        Ok(number_of_recipients)
    }

    /// Replays the retained history into a freshly built connection: each
    /// offset is enqueued in order and a reference taken for it; an entry a
    /// full non-overflowing ring refuses is skipped, a displaced entry's
    /// reference is dropped again.
    #[verifier::loop_isolation(false)]
    fn deliver_sample_history(&mut self, conn: &mut Connection, Ghost(j): Ghost<int>)
        requires
            old(self).structure_ok(),
            old(self).counters_match(conn_extra(old(conn))),
            old(conn).wf(),
            old(conn).sample_capacity <= old(self).conn_sample_budget(),
            old(conn).ring@ =~= Seq::<usize>::empty(),
            old(conn).retained@ =~= Seq::<usize>::empty(),
            old(conn).returned@ =~= Seq::<usize>::empty(),
            !old(conn).corrupted,
            0 <= j < old(self).subscriber_connections@.len(),
            old(self).subscriber_connections@[j] is None,
        ensures
            final(self).structure_ok(),
            final(self).counters_match(conn_extra(final(conn))),
            final(self).same_config(old(self)),
            final(self).history == old(self).history,
            final(self).loaned == old(self).loaned,
            final(self).loan_counter == old(self).loan_counter,
            final(self).subscriber_list_state == old(self).subscriber_list_state,
            final(self).subscriber_connections == old(self).subscriber_connections,
            final(self).memory == old(self).memory,
            forall|t: int|
                0 <= t < old(self).number_of_samples
                    && #[trigger] final(self).sample_reference_counter@[t] >= 1
                    ==> old(self).sample_reference_counter@[t] >= 1,
            forall|t: int|
                0 <= t < old(self).number_of_samples && count_of(
                    old(self).hist_contents(),
                    old(self).bucket_offset(t),
                ) == 0 ==> #[trigger] final(self).sample_reference_counter@[t] == old(self).sample_reference_counter@[t],
            final(conn).wf(),
            final(conn).same_link(old(conn)),
            final(conn).retained == old(conn).retained,
            final(conn).returned == old(conn).returned,
            all_valid(final(conn).ring@, old(self).payload_size, old(self).number_of_samples),
            final(conn).ring@ == replayed(
                old(self).hist_contents(),
                old(conn).buffer_size as int,
                old(conn).enable_safe_overflow,
            ),
    {
        let ghost hist = self.hist_contents();
        let ghost b = old(conn).buffer_size as int;
        let ghost o = old(conn).enable_safe_overflow;
        if self.history.is_some() {
            let hist_len = match self.history.as_ref() {
                Some(h) => h.len(),
                None => unreached(),
            };
            let mut k: usize = 0;
            while k < hist_len
                invariant
                    self.structure_ok(),
                    self.counters_match(conn_extra(conn)),
                    self.same_config(old(self)),
                    self.history == old(self).history,
                    self.loaned == old(self).loaned,
                    self.loan_counter == old(self).loan_counter,
                    self.subscriber_list_state == old(self).subscriber_list_state,
                    self.subscriber_connections == old(self).subscriber_connections,
                    self.memory == old(self).memory,
                    forall|t: int|
                        0 <= t < old(self).number_of_samples
                            && #[trigger] self.sample_reference_counter@[t] >= 1
                            ==> old(self).sample_reference_counter@[t] >= 1,
                    forall|t: int|
                        0 <= t < old(self).number_of_samples && count_of(
                            hist,
                            old(self).bucket_offset(t),
                        ) == 0 ==> #[trigger] self.sample_reference_counter@[t] == old(self).sample_reference_counter@[t],
                    k <= hist_len,
                    hist_len == hist.len(),
                    conn.wf(),
                    conn.same_link(old(conn)),
                    conn.retained == old(conn).retained,
                    conn.returned == old(conn).returned,
                    all_valid(conn.ring@, self.payload_size, self.number_of_samples),
                    conn.ring@ == replayed(hist.take(k as int), b, o),
                decreases hist_len - k,
            {
                let off = match self.history.as_ref() {
                    Some(h) => h.get(k),
                    None => unreached(),
                };
                let ghost c_pre = *conn;
                proof {
                    assert(hist[k as int] == off);
                    assert(valid_offset(off, self.payload_size, self.number_of_samples));
                    assert(conn.edge_total() == conn.ring@.len());
                }
                let send_result = conn.try_send(off);
                match send_result {
                    Ok(overflow) => {
                        proof {
                            lemma_offset_to_index(off, self.payload_size);
                            lemma_conn_extra_count(&c_pre);
                            self.lemma_counter_headroom_detached(
                                idx_of(off, self.payload_size),
                                conn_extra(&c_pre),
                                j,
                            );
                            assert(self.bucket_offset(idx_of(off, self.payload_size)) == off);
                            lemma_count_contains(hist, off);
                            assert(count_of(self.hist_contents(), off) >= 1);
                            assert(self.sample_reference_counter@[idx_of(off, self.payload_size)]
                                >= 1);
                            assert(old(self).bucket_offset(idx_of(off, self.payload_size)) == off);
                        }
                        let ghost s0 = *self;
                        self.borrow_sample(off);
                        proof {
                            lemma_count_relation_push(conn_extra(&c_pre), off);
                            DataSegment::lemma_counters_shift(
                                &s0,
                                self,
                                conn_extra(&c_pre),
                                conn_extra(&c_pre).push(off),
                                off,
                                1,
                            );
                        }
                        if let Some(displaced) = overflow {
                            let ghost s1 = *self;
                            let ghost exm = conn_extra(&c_pre).push(off);
                            proof {
                                assert(conn_extra(&c_pre)[0] == displaced);
                                assert(exm[0] == displaced);
                                lemma_offset_to_index(displaced, self.payload_size);
                                lemma_count_contains(exm, displaced);
                                assert(exm.contains(displaced));
                                // the displaced entry came from the history, whose own
                                // reference still stands: the counter stays positive
                                assert(c_pre.ring@.len() == b);
                                assert(c_pre.ring@[0] == hist.take(k as int)[k - b]);
                                assert(hist[k - b] == displaced);
                                assert(hist.contains(displaced));
                                lemma_count_contains(hist, displaced);
                                assert(count_of(self.hist_contents(), displaced) >= 1);
                                assert(self.bucket_offset(idx_of(displaced, self.payload_size))
                                    == displaced);
                                assert(self.sample_reference_counter@[idx_of(
                                    displaced,
                                    self.payload_size,
                                )] >= 2);
                            }
                            self.release_sample(displaced);
                            proof {
                                assert(exm.remove(0) =~= exm.drop_first());
                                lemma_count_relation_remove(exm, 0);
                                DataSegment::lemma_counters_shift(
                                    &s1,
                                    self,
                                    exm,
                                    exm.drop_first(),
                                    displaced,
                                    -1,
                                );
                                lemma_conn_extra_displace(&c_pre, conn, off);
                                DataSegment::lemma_counters_rebalance(
                                    self,
                                    self,
                                    exm.drop_first(),
                                    conn_extra(conn),
                                );
                                assert(hist.take(k as int).len() > b - 1);
                                assert(conn.ring@ =~= replayed(hist.take(k as int + 1), b, o));
                            }
                        } else {
                            proof {
                                lemma_conn_extra_push(&c_pre, conn, off);
                                DataSegment::lemma_counters_rebalance(
                                    self,
                                    self,
                                    conn_extra(&c_pre).push(off),
                                    conn_extra(conn),
                                );
                                assert(conn.ring@ =~= replayed(hist.take(k as int + 1), b, o));
                            }
                        }
                    },
                    Err(_) => {
                        proof {
                            assert(*conn == c_pre);
                            assert(conn.ring@ =~= replayed(hist.take(k as int + 1), b, o));
                        }
                    },
                }
                k += 1;
            }
            proof {
                assert(hist.take(hist_len as int) =~= hist);
            }
        } else {
            proof {
                assert(hist =~= Seq::<usize>::empty());
                assert(conn.ring@ =~= replayed(hist, b, o));
            }
        }
    }

    /// Rebuilds the connection table against the observed subscriber set:
    /// departed subscribers lose their slot and their chunks are reclaimed, a
    /// subscriber already wired at its slot is kept there, and newly observed
    /// subscribers get a fresh connection with the history replayed. A
    /// subscriber whose connection cannot be built is reported through the
    /// degradation policy; only `Fail` makes the reconciliation fail.
    #[verifier::loop_isolation(false)]
    pub fn populate_subscriber_channels(&mut self) -> (r: Result<(), ConnectionFailure>)
        requires
            old(self).inv(),
        ensures
            final(self).inv(),
            final(self).same_config(old(self)),
            final(self).history == old(self).history,
            final(self).loaned == old(self).loaned,
            final(self).loan_counter == old(self).loan_counter,
            final(self).subscriber_list_state == old(self).subscriber_list_state,
            forall|t: int|
                0 <= t < old(self).number_of_samples
                    && #[trigger] final(self).sample_reference_counter@[t] >= 1
                    ==> final(self).memory@[t] == old(self).memory@[t]
                        && old(self).sample_reference_counter@[t] >= 1,
            forall|t: int|
                0 <= t < old(self).number_of_samples && count_of(
                    old(self).hist_contents(),
                    old(self).bucket_offset(t),
                ) == 0 ==> #[trigger] final(self).sample_reference_counter@[t] <= old(self).sample_reference_counter@[t],
            r is Ok ==> forall|k: int|
                0 <= k < old(self).subscriber_connections@.len() ==> reconciled_slot(
                    old(self).subscriber_list_state.slots@[k],
                    old(self).subscriber_connections@[k],
                    #[trigger] final(self).subscriber_connections@[k],
                    old(self).hist_contents(),
                    old(self).static_config,
                ),
            r is Err ==> r == Result::<(), ConnectionFailure>::Err(
                ConnectionFailure::UnableToEstablishConnection,
            ) && old(self).config.degration_action == Some(DegrationAction::Fail) && exists|k: int|
                0 <= k < old(self).subscriber_connections@.len() && refused_subscriber(
                    old(self).subscriber_list_state.slots@[k],
                    #[trigger] old(self).subscriber_connections@[k],
                    old(self).static_config,
                ),
            (old(self).config.degration_action != Some(DegrationAction::Fail) || forall|k: int|
                0 <= k < old(self).subscriber_connections@.len() ==> !refused_subscriber(
                    old(self).subscriber_list_state.slots@[k],
                    #[trigger] old(self).subscriber_connections@[k],
                    old(self).static_config,
                )) ==> r is Ok,
            (old(self).config.degration_action == Some(DegrationAction::Fail) && exists|k: int|
                0 <= k < old(self).subscriber_connections@.len() && refused_subscriber(
                    old(self).subscriber_list_state.slots@[k],
                    #[trigger] old(self).subscriber_connections@[k],
                    old(self).static_config,
                )) ==> r is Err,
    {
        let n_slots = self.subscriber_connections.len();
        let mut j: usize = 0;
        while j < n_slots
            invariant
                self.inv(),
                self.same_config(old(self)),
                self.history == old(self).history,
                self.loaned == old(self).loaned,
                self.loan_counter == old(self).loan_counter,
                self.subscriber_list_state == old(self).subscriber_list_state,
                n_slots == self.subscriber_connections@.len(),
                j <= n_slots,
                forall|k: int|
                    0 <= k < j ==> reconciled_slot(
                        old(self).subscriber_list_state.slots@[k],
                        old(self).subscriber_connections@[k],
                        #[trigger] self.subscriber_connections@[k],
                        old(self).hist_contents(),
                        old(self).static_config,
                    ),
                forall|k: int|
                    0 <= k < j ==> !refused_subscriber(
                        old(self).subscriber_list_state.slots@[k],
                        #[trigger] old(self).subscriber_connections@[k],
                        old(self).static_config,
                    ) || old(self).config.degration_action != Some(DegrationAction::Fail),
                forall|k: int|
                    j <= k < n_slots
                        ==> #[trigger] self.subscriber_connections@[k]
                            == old(self).subscriber_connections@[k],
                forall|t: int|
                    0 <= t < old(self).number_of_samples
                        && #[trigger] self.sample_reference_counter@[t] >= 1
                        ==> self.memory@[t] == old(self).memory@[t]
                            && old(self).sample_reference_counter@[t] >= 1,
                forall|t: int|
                    0 <= t < old(self).number_of_samples && count_of(
                        old(self).hist_contents(),
                        old(self).bucket_offset(t),
                    ) == 0 ==> #[trigger] self.sample_reference_counter@[t] <= old(self).sample_reference_counter@[t],
            decreases n_slots - j,
        {
            let ghost s_iter = *self;
            let desired = self.subscriber_list_state.slots[j];
            match desired {
                None => {
                    self.remove_connection(j);
                },
                Some(d) => {
                    let keep = match &self.subscriber_connections[j] {
                        Some(c) => c.subscriber_id == d.port_id,
                        None => false,
                    };
                    if !keep {
                        self.remove_connection(j);
                        let can_create = 1 <= d.buffer_size && d.buffer_size
                            <= self.static_config.subscriber_max_buffer_size;
                        if can_create {
                            proof {
                                assert(self.static_config.max_subscribers >= 1);
                                assert(1 * self.conn_sample_budget()
                                    <= self.static_config.max_subscribers
                                    * self.conn_sample_budget()) by (nonlinear_arith)
                                    requires
                                        self.static_config.max_subscribers >= 1,
                                        self.conn_sample_budget() >= 0,
                                ;
                                assert(self.static_config.subscriber_max_buffer_size
                                    + self.static_config.history_size + 1 <= usize::MAX);
                            }
                            let sample_capacity = d.buffer_size + self.static_config.history_size
                                + 1;
                            let mut conn = Connection::new(
                                d.port_id,
                                d.buffer_size,
                                sample_capacity,
                                self.static_config.enable_safe_overflow,
                            );
                            proof {
                                assert(conn_extra(&conn) =~= Seq::<usize>::empty());
                            }
                            self.deliver_sample_history(&mut conn, Ghost(j as int));
                            let ghost c_done = conn;
                            let mut back: Option<Connection> = Some(conn);
                            let ghost s_mid = *self;
                            self.subscriber_connections.set_and_swap(j, &mut back);
                            proof {
                                lemma_conn_extra_count(
                                    &self.subscriber_connections@[j as int]->Some_0,
                                );
                                DataSegment::lemma_counters_swap_slot(
                                    &s_mid,
                                    self,
                                    conn_extra(&self.subscriber_connections@[j as int]->Some_0),
                                    Seq::<usize>::empty(),
                                    j as int,
                                );
                                assert(reconciled_slot(
                                    old(self).subscriber_list_state.slots@[j as int],
                                    old(self).subscriber_connections@[j as int],
                                    self.subscriber_connections@[j as int],
                                    old(self).hist_contents(),
                                    old(self).static_config,
                                ));
                            }
                        } else {
                            let fail_hard = match self.config.degration_action {
                                Some(DegrationAction::Fail) => true,
                                _ => false,
                            };
                            if fail_hard {
                                proof {
                                    assert(refused_subscriber(
                                        old(self).subscriber_list_state.slots@[j as int],
                                        old(self).subscriber_connections@[j as int],
                                        old(self).static_config,
                                    ));
                                }
                                return Err(ConnectionFailure::UnableToEstablishConnection);
                            }
                        }
                    }
                },
            }
            j += 1;
        }
        Ok(())
    }

    /// Refreshes the observed subscriber set; only an actual change makes the
    /// reconciler run — an unchanged set leaves the publisher untouched.
    pub fn update_connections(&mut self, subscribers: &SubscriberList) -> (r: Result<
        (),
        ConnectionFailure,
    >)
        requires
            old(self).inv(),
            subscribers.slots@.len() == old(self).static_config.max_subscribers,
        ensures
            final(self).inv(),
            final(self).same_config(old(self)),
            final(self).history == old(self).history,
            final(self).loaned == old(self).loaned,
            final(self).loan_counter == old(self).loan_counter,
            forall|t: int|
                0 <= t < old(self).number_of_samples
                    && #[trigger] final(self).sample_reference_counter@[t] >= 1
                    ==> final(self).memory@[t] == old(self).memory@[t]
                        && old(self).sample_reference_counter@[t] >= 1,
            subscribers.version == old(self).subscriber_list_state.version ==> *final(self)
                == *old(self) && r is Ok,
            subscribers.version != old(self).subscriber_list_state.version
                ==> final(self).subscriber_list_state.version == subscribers.version
                    && final(self).subscriber_list_state.slots@ == subscribers.slots@,
            r is Ok && subscribers.version != old(self).subscriber_list_state.version
                ==> forall|k: int|
                0 <= k < old(self).subscriber_connections@.len() ==> reconciled_slot(
                    subscribers.slots@[k],
                    old(self).subscriber_connections@[k],
                    #[trigger] final(self).subscriber_connections@[k],
                    old(self).hist_contents(),
                    old(self).static_config,
                ),
            r is Err ==> r == Result::<(), ConnectionFailure>::Err(
                ConnectionFailure::UnableToEstablishConnection,
            ) && old(self).config.degration_action == Some(DegrationAction::Fail),
            old(self).config.degration_action != Some(DegrationAction::Fail) ==> r is Ok,
            (subscribers.version != old(self).subscriber_list_state.version && old(self).config.degration_action == Some(DegrationAction::Fail)
                && exists|k: int|
                0 <= k < old(self).subscriber_connections@.len() && refused_subscriber(
                    subscribers.slots@[k],
                    #[trigger] old(self).subscriber_connections@[k],
                    old(self).static_config,
                )) ==> r is Err,
    {
        let changed = subscribers.update_state(&mut self.subscriber_list_state);
        if changed {
            self.populate_subscriber_channels()
        } else {
            Ok(())
        }
    }

    /// Sends a loaned chunk: refuses when the publisher is being torn down,
    /// reconciles the connections, retains the offset in the history and
    /// delivers it to every connected subscriber, returning how many accepted
    /// it. The caller's loan keeps its own reference throughout.
    pub fn send_sample(&mut self, address_to_chunk: usize, subscribers: &SubscriberList) -> (r:
        Result<usize, PublisherSendError>)
        requires
            old(self).inv(),
            count_of(old(self).loaned@, address_to_chunk) >= 1,
            subscribers.slots@.len() == old(self).static_config.max_subscribers,
        ensures
            final(self).inv(),
            final(self).same_config(old(self)),
            final(self).loaned == old(self).loaned,
            final(self).loan_counter == old(self).loan_counter,
            !old(self).is_active ==> r == Result::<usize, PublisherSendError>::Err(
                PublisherSendError::ConnectionBrokenSincePublisherNoLongerExists,
            ) && *final(self) == *old(self),
            r matches Err(e) ==> (e
                == PublisherSendError::ConnectionBrokenSincePublisherNoLongerExists || e
                == PublisherSendError::ConnectionCorrupted || e matches
            PublisherSendError::ConnectionError(_)),
            old(self).is_active && old(self).config.degration_action != Some(DegrationAction::Fail)
                ==> r is Ok,
            r matches Err(PublisherSendError::ConnectionError(_)) ==> final(self).history == old(self).history,
            (old(self).is_active && subscribers.version != old(self).subscriber_list_state.version
                && old(self).config.degration_action == Some(DegrationAction::Fail) && exists|k: int|
                0 <= k < old(self).subscriber_connections@.len() && refused_subscriber(
                    subscribers.slots@[k],
                    #[trigger] old(self).subscriber_connections@[k],
                    old(self).static_config,
                )) ==> r is Err,
            (old(self).is_active && subscribers.version == old(self).subscriber_list_state.version
                && old(self).config.degration_action == Some(DegrationAction::Fail) && exists|k: int|
                0 <= k < old(self).subscriber_connections@.len() && slot_corrupted(
                    #[trigger] old(self).subscriber_connections@[k],
                )) ==> r is Err,
            r is Ok && old(self).history is Some && old(self).hist_contents().len() < old(self).static_config.history_size
                ==> final(self).hist_contents() == old(self).hist_contents().push(address_to_chunk),
            r is Ok && old(self).history is Some && old(self).hist_contents().len() == old(self).static_config.history_size
                ==> final(self).hist_contents()
                    == old(self).hist_contents().drop_first().push(address_to_chunk),
            r is Ok && old(self).history is None ==> final(self).history is None,
            r is Ok ==> forall|k: int|
                0 <= k < final(self).subscriber_connections@.len() ==> sample_offered(
                    #[trigger] final(self).subscriber_connections@[k],
                    address_to_chunk,
                ),
            r is Ok ==> ({
                let i = idx_of(address_to_chunk, old(self).payload_size);
                final(self).sample_reference_counter@[i] >= 1
                    && final(self).memory@[i] == old(self).memory@[i]
            }),
            r matches Ok(n) ==> delivery_count_matches(
                old(self).subscriber_connections@,
                old(self).subscriber_list_state.version,
                subscribers.version,
                subscribers.slots@,
                old(self).hist_contents(),
                old(self).static_config,
                n,
            ),
    {
        if !self.is_active {
            return Err(PublisherSendError::ConnectionBrokenSincePublisherNoLongerExists);
        }
        let ghost s0 = *self;
        proof {
            lemma_count_contains(s0.loaned@, address_to_chunk);
            assert(s0.loaned@.contains(address_to_chunk));
            assert(valid_offset(address_to_chunk, s0.payload_size, s0.number_of_samples));
        }
        match self.update_connections(subscribers) {
            Ok(()) => {},
            Err(e) => {
                return Err(PublisherSendError::ConnectionError(e));
            },
        }
        let ghost s1 = *self;
        self.add_sample_to_history(address_to_chunk);
        let ghost s2 = *self;
        let r = self.deliver_sample(address_to_chunk);
        proof {
            if r is Ok {
                let mid = s2.subscriber_connections@;
                assert((subscribers.version == s0.subscriber_list_state.version ==> mid
                    == s0.subscriber_connections@) && (subscribers.version
                    != s0.subscriber_list_state.version ==> mid.len()
                    == s0.subscriber_connections@.len() && (forall|k: int|
                    0 <= k < mid.len() ==> reconciled_slot(
                        subscribers.slots@[k],
                        s0.subscriber_connections@[k],
                        #[trigger] mid[k],
                        s0.hist_contents(),
                        s0.static_config,
                    ))) && r->Ok_0 == accepted_count(mid));
                assert(delivery_count_matches(
                    s0.subscriber_connections@,
                    s0.subscriber_list_state.version,
                    subscribers.version,
                    subscribers.slots@,
                    s0.hist_contents(),
                    s0.static_config,
                    r->Ok_0,
                ));
                assert forall|k: int|
                    0 <= k < self.subscriber_connections@.len() implies sample_offered(
                    #[trigger] self.subscriber_connections@[k],
                    address_to_chunk,
                ) by {
                    assert(delivered_pair(
                        s2.subscriber_connections@[k],
                        self.subscriber_connections@[k],
                        address_to_chunk,
                    ));
                }
                let i = idx_of(address_to_chunk, s0.payload_size);
                lemma_offset_to_index(address_to_chunk, s0.payload_size);
                assert(self.bucket_offset(i) == address_to_chunk);
                lemma_count_contains(self.loaned@, address_to_chunk);
                assert(self.sample_reference_counter@[i] >= 1);
                assert(s2.sample_reference_counter@[i] >= 1);
                assert(self.memory@[i] == s2.memory@[i]);
                assert(s1.sample_reference_counter@[i] >= 1);
                assert(s2.memory@[i] == s1.memory@[i]);
                assert(s1.memory@[i] == s0.memory@[i]);
            }
        }
        match r {
            Ok(count) => Ok(count),
            Err(e) => Err(e),
        }
    }

    /// Marks the publisher as being torn down; every further send fails.
    pub fn deactivate(&mut self)
        requires
            old(self).inv(),
        ensures
            final(self).inv(),
            !final(self).is_active,
            final(self).sample_reference_counter == old(self).sample_reference_counter,
            final(self).memory == old(self).memory,
            final(self).payload_size == old(self).payload_size,
            final(self).number_of_samples == old(self).number_of_samples,
            final(self).port_id == old(self).port_id,
            final(self).config == old(self).config,
            final(self).static_config == old(self).static_config,
            final(self).subscriber_connections == old(self).subscriber_connections,
            final(self).subscriber_list_state == old(self).subscriber_list_state,
            final(self).history == old(self).history,
            final(self).loaned == old(self).loaned,
            final(self).loan_counter == old(self).loan_counter,
    {
        self.is_active = false;
    }

    /// Stamps the sample header of a freshly loaned chunk and clears its
    /// payload region: the chunk carries this publisher's id and the layout
    /// of `number_of_elements` payload elements before anyone can see it.
    pub fn stamp_sample(&mut self, distance_to_chunk: usize, number_of_elements: usize)
        requires
            old(self).inv(),
            valid_offset(distance_to_chunk, old(self).payload_size, old(self).number_of_samples),
            number_of_elements <= old(self).config.max_slice_len,
        ensures
            final(self).inv(),
            final(self).same_config(old(self)),
            final(self).history == old(self).history,
            final(self).loaned == old(self).loaned,
            final(self).loan_counter == old(self).loan_counter,
            final(self).subscriber_connections == old(self).subscriber_connections,
            final(self).subscriber_list_state == old(self).subscriber_list_state,
            final(self).sample_reference_counter == old(self).sample_reference_counter,
            final(self).memory@.len() == old(self).memory@.len(),
            forall|k: int|
                0 <= k < old(self).memory@.len() && k != idx_of(
                    distance_to_chunk,
                    old(self).payload_size,
                ) ==> #[trigger] final(self).memory@[k] == old(self).memory@[k],
            ({
                let i = idx_of(distance_to_chunk, old(self).payload_size);
                let size = old(self).static_config.type_size * number_of_elements;
                &&& final(self).memory@[i].header == Some(
                    Header {
                        publisher_id: old(self).port_id,
                        payload_size: size as u64,
                        payload_align: old(self).static_config.type_align as u64,
                    },
                )
                &&& final(self).memory@[i].payload@ == Seq::<u8>::new(size as nat, |b: int| 0u8)
            }),
    {
        proof {
            lemma_offset_to_index(distance_to_chunk, self.payload_size);
            assert(self.number_of_samples >= 1);
            assert(self.payload_size <= self.number_of_samples * self.payload_size)
                by (nonlinear_arith)
                requires self.number_of_samples >= 1, self.payload_size >= 0;
            assert(spec_round_up(
                SAMPLE_HEADER_SIZE as int,
                self.static_config.type_align as int,
            ) >= 0) by (nonlinear_arith)
                requires self.static_config.type_align >= 1;
            assert(self.static_config.type_size * number_of_elements <= self.static_config.type_size
                * self.config.max_slice_len) by (nonlinear_arith)
                requires
                    number_of_elements <= self.config.max_slice_len,
                    self.static_config.type_size >= 0,
            ;
        }
        let i = self.sample_index(distance_to_chunk);
        let size = self.static_config.type_size * number_of_elements;
        let header = Header::new(
            self.port_id,
            crate::types::PayloadLayout {
                size: size as u64,
                align: self.static_config.type_align as u64,
            },
        );
        let payload: Vec<u8> = vec![0u8; size];
        self.memory.set(i, Chunk { header: Some(header), payload });
    }

    /// Fills a loaned chunk's payload region in place.
    pub fn write_payload(&mut self, distance_to_chunk: usize, bytes: Vec<u8>)
        requires
            old(self).inv(),
            valid_offset(distance_to_chunk, old(self).payload_size, old(self).number_of_samples),
        ensures
            final(self).inv(),
            final(self).same_config(old(self)),
            final(self).history == old(self).history,
            final(self).loaned == old(self).loaned,
            final(self).loan_counter == old(self).loan_counter,
            final(self).subscriber_connections == old(self).subscriber_connections,
            final(self).subscriber_list_state == old(self).subscriber_list_state,
            final(self).sample_reference_counter == old(self).sample_reference_counter,
            final(self).memory@.len() == old(self).memory@.len(),
            forall|k: int|
                0 <= k < old(self).memory@.len() && k != idx_of(
                    distance_to_chunk,
                    old(self).payload_size,
                ) ==> #[trigger] final(self).memory@[k] == old(self).memory@[k],
            ({
                let i = idx_of(distance_to_chunk, old(self).payload_size);
                &&& final(self).memory@[i].header == old(self).memory@[i].header
                &&& final(self).memory@[i].payload == bytes
            }),
    {
        proof {
            lemma_offset_to_index(distance_to_chunk, self.payload_size);
        }
        let i = self.sample_index(distance_to_chunk);
        let header = self.memory[i].header;
        self.memory.set(i, Chunk { header, payload: bytes });
    }

    /// The subscriber's side of a connection: takes the oldest delivered
    /// offset out of the ring and keeps holding it. Counters do not move —
    /// the reference merely changes hands.
    pub fn subscriber_receive(&mut self, slot: usize) -> (r: Option<usize>)
        requires
            old(self).inv(),
            slot < old(self).subscriber_connections@.len(),
        ensures
            final(self).inv(),
            final(self).same_config(old(self)),
            final(self).history == old(self).history,
            final(self).loaned == old(self).loaned,
            final(self).loan_counter == old(self).loan_counter,
            final(self).subscriber_list_state == old(self).subscriber_list_state,
            final(self).sample_reference_counter == old(self).sample_reference_counter,
            final(self).memory == old(self).memory,
            final(self).subscriber_connections@.len() == old(self).subscriber_connections@.len(),
            forall|k: int|
                0 <= k < old(self).subscriber_connections@.len() && k != slot
                    ==> #[trigger] final(self).subscriber_connections@[k]
                        == old(self).subscriber_connections@[k],
            old(self).subscriber_connections@[slot as int] is None
                ==> r is None && final(self).subscriber_connections@[slot as int] is None,
            ({
                let before = old(self).subscriber_connections@[slot as int];
                before matches Some(c1) ==> final(self).subscriber_connections@[slot as int]
                    matches Some(c2) && c2.same_link(&c1) && c2.returned == c1.returned && (
                if c1.ring@.len() == 0 {
                    r is None && c2 == c1
                } else {
                    r == Some(c1.ring@[0]) && c2.ring@ == c1.ring@.drop_first() && c2.retained@
                        == c1.retained@.push(c1.ring@[0])
                })
            }),
    {
        let ghost s_entry = *self;
        let mut detached: Option<Connection> = None;
        self.subscriber_connections.set_and_swap(slot, &mut detached);
        if detached.is_some() {
            let mut conn = match detached {
                Some(c) => c,
                None => unreached(),
            };
            let ghost c_pre = conn;
            proof {
                lemma_conn_extra_count(&conn);
                DataSegment::lemma_counters_swap_slot(
                    &s_entry,
                    self,
                    Seq::<usize>::empty(),
                    conn_extra(&conn),
                    slot as int,
                );
            }
            let r = conn.receive();
            proof {
                if c_pre.ring@.len() > 0 {
                    assert forall|x: usize|
                        #[trigger] count_of(conn_extra(&conn), x) == count_of(
                        conn_extra(&c_pre),
                        x,
                    ) by {
                        lemma_conn_extra_count(&conn);
                        lemma_conn_extra_count(&c_pre);
                        assert(c_pre.ring@.remove(0) =~= c_pre.ring@.drop_first());
                        lemma_count_remove(c_pre.ring@, 0, x);
                        lemma_count_push(c_pre.retained@, c_pre.ring@[0], x);
                    }
                    DataSegment::lemma_counters_rebalance(
                        self,
                        self,
                        conn_extra(&c_pre),
                        conn_extra(&conn),
                    );
                }
            }
            let mut back: Option<Connection> = Some(conn);
            let ghost s_mid = *self;
            self.subscriber_connections.set_and_swap(slot, &mut back);
            proof {
                lemma_conn_extra_count(&self.subscriber_connections@[slot as int]->Some_0);
                DataSegment::lemma_counters_swap_slot(
                    &s_mid,
                    self,
                    conn_extra(&self.subscriber_connections@[slot as int]->Some_0),
                    Seq::<usize>::empty(),
                    slot as int,
                );
            }
            r
        } else {
            proof {
                assert(self.subscriber_connections@ =~= s_entry.subscriber_connections@);
            }
            None
        }
    }

    /// The subscriber's side of a connection: hands one held offset back
    /// through the connection, to be reclaimed by the publisher later.
    /// Returns whether the subscriber actually held it.
    pub fn subscriber_release(&mut self, slot: usize, offset: usize) -> (r: bool)
        requires
            old(self).inv(),
            slot < old(self).subscriber_connections@.len(),
        ensures
            final(self).inv(),
            final(self).same_config(old(self)),
            final(self).history == old(self).history,
            final(self).loaned == old(self).loaned,
            final(self).loan_counter == old(self).loan_counter,
            final(self).subscriber_list_state == old(self).subscriber_list_state,
            final(self).sample_reference_counter == old(self).sample_reference_counter,
            final(self).memory == old(self).memory,
            final(self).subscriber_connections@.len() == old(self).subscriber_connections@.len(),
            forall|k: int|
                0 <= k < old(self).subscriber_connections@.len() && k != slot
                    ==> #[trigger] final(self).subscriber_connections@[k]
                        == old(self).subscriber_connections@[k],
            old(self).subscriber_connections@[slot as int] is None ==> !r,
            ({
                let before = old(self).subscriber_connections@[slot as int];
                before matches Some(c1) ==> final(self).subscriber_connections@[slot as int]
                    matches Some(c2) && c2.same_link(&c1) && c2.ring == c1.ring && r
                    == c1.retained@.contains(offset) && (!r ==> c2 == c1) && (r ==> c2.returned@
                    == c1.returned@.push(offset))
            }),
    {
        let ghost s_entry = *self;
        let mut detached: Option<Connection> = None;
        self.subscriber_connections.set_and_swap(slot, &mut detached);
        if detached.is_some() {
            let mut conn = match detached {
                Some(c) => c,
                None => unreached(),
            };
            let ghost c_pre = conn;
            proof {
                lemma_conn_extra_count(&conn);
                DataSegment::lemma_counters_swap_slot(
                    &s_entry,
                    self,
                    Seq::<usize>::empty(),
                    conn_extra(&conn),
                    slot as int,
                );
            }
            let r = conn.release(offset);
            proof {
                if r {
                    let i = choose|i: int|
                        0 <= i < c_pre.retained@.len() && c_pre.retained@[i] == offset
                            && conn.retained@ =~= c_pre.retained@.remove(i) && conn.returned@
                            =~= c_pre.returned@.push(offset);
                    assert forall|x: usize|
                        #[trigger] count_of(conn_extra(&conn), x) == count_of(
                        conn_extra(&c_pre),
                        x,
                    ) by {
                        lemma_conn_extra_count(&conn);
                        lemma_conn_extra_count(&c_pre);
                        lemma_count_remove(c_pre.retained@, i, x);
                        lemma_count_push(c_pre.returned@, offset, x);
                    }
                    DataSegment::lemma_counters_rebalance(
                        self,
                        self,
                        conn_extra(&c_pre),
                        conn_extra(&conn),
                    );
                    assert(conn.wf());
                    assert(all_valid(conn.retained@, self.payload_size, self.number_of_samples));
                    assert forall|k: int|
                        0 <= k < conn.returned@.len() implies valid_offset(
                        #[trigger] conn.returned@[k],
                        self.payload_size,
                        self.number_of_samples,
                    ) by {
                        assert(c_pre.retained@[i] == offset);
                        assert(valid_offset(offset, self.payload_size, self.number_of_samples));
                        if k < c_pre.returned@.len() {
                            assert(conn.returned@[k] == c_pre.returned@[k]);
                        }
                    }
                }
            }
            let mut back: Option<Connection> = Some(conn);
            let ghost s_mid = *self;
            self.subscriber_connections.set_and_swap(slot, &mut back);
            proof {
                lemma_conn_extra_count(&self.subscriber_connections@[slot as int]->Some_0);
                DataSegment::lemma_counters_swap_slot(
                    &s_mid,
                    self,
                    conn_extra(&self.subscriber_connections@[slot as int]->Some_0),
                    Seq::<usize>::empty(),
                    slot as int,
                );
            }
            r
        } else {
            proof {
                assert(self.subscriber_connections@ =~= s_entry.subscriber_connections@);
            }
            false
        }
    }

    /// The reference counter of bucket `i`.
    pub fn reference_counter(&self, i: usize) -> (r: u64)
        requires
            i < self.sample_reference_counter@.len(),
        ensures
            r == self.sample_reference_counter@[i as int],
    {
        self.sample_reference_counter[i]
    }

    /// How many offsets the history currently retains.
    pub fn history_len(&self) -> (r: usize)
        requires
            self.inv(),
        ensures
            r == self.hist_contents().len(),
    {
        match self.history.as_ref() {
            Some(h) => h.len(),
            None => 0,
        }
    }

    /// For every reachable state, the reference counters total exactly the
    /// outstanding references: active loans, plus history entries, plus
    /// every offset a connection still tracks — in flight to, held by, or
    /// returned by its subscriber.
    pub proof fn lemma_counter_total_accounts_for_all_references(seg: &DataSegment)
        requires
            seg.inv(),
        ensures
            total_of(seg.sample_reference_counter@) == seg.loaned@.len()
                + seg.hist_contents().len() + conn_total(seg.subscriber_connections@),
    {
    }

    /// Each bucket's counter is exactly the number of references to it.
    pub proof fn lemma_counter_matches_references(seg: &DataSegment, i: int)
        requires
            seg.inv(),
            0 <= i < seg.number_of_samples,
        ensures
            seg.sample_reference_counter@[i] as int == count_of(
                seg.loaned@,
                seg.bucket_offset(i),
            ) + count_of(seg.hist_contents(), seg.bucket_offset(i)) + conn_count(
                seg.subscriber_connections@,
                seg.bucket_offset(i),
            ),
    {
    }

    /// The loan counter counts the outstanding loans and never exceeds its
    /// configured bound.
    pub proof fn lemma_loan_counter_bounded(seg: &DataSegment)
        requires
            seg.inv(),
        ensures
            seg.loan_counter == seg.loaned@.len(),
            seg.loan_counter <= seg.config.max_loaned_samples,
    {
    }

    /// A bucket whose counter is zero is referenced nowhere: it is not
    /// loaned, not retained in the history, and no connection tracks it — so
    /// handing it out as a fresh chunk, with its counter stepping from zero
    /// to one, never aliases a live sample.
    pub proof fn lemma_zero_counter_unreferenced(seg: &DataSegment, i: int)
        requires
            seg.inv(),
            0 <= i < seg.number_of_samples,
            seg.sample_reference_counter@[i] == 0,
        ensures
            !seg.loaned@.contains(seg.bucket_offset(i)),
            count_of(seg.hist_contents(), seg.bucket_offset(i)) == 0,
            forall|k: int|
                0 <= k < seg.subscriber_connections@.len() ==> slot_count(
                    #[trigger] seg.subscriber_connections@[k],
                    seg.bucket_offset(i),
                ) == 0,
    {
        let o = seg.bucket_offset(i);
        lemma_count_contains(seg.loaned@, o);
        assert forall|k: int|
            0 <= k < seg.subscriber_connections@.len() implies slot_count(
            #[trigger] seg.subscriber_connections@[k],
            o,
        ) == 0 by {
            lemma_slot_count_le_conn_count(seg.subscriber_connections@, k, o);
        }
    }
}

} // verus!
