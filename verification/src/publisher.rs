//! The publisher port: loans chunks to the user, sends them to every
//! connected subscriber, and participates in the service's dynamic registry.

use vstd::prelude::*;

use crate::counting::{count_of, lemma_count_contains, lemma_count_relation_push};
use crate::data_segment::{
    idx_of, lemma_conn_none, lemma_offset_to_index, lemma_slot_count_le_conn_count,
    lemma_total_zero, sample_offered, valid_offset, Chunk, DataSegment,
};
use crate::errors::{PublisherCreateError, PublisherLoanError, PublisherSendError};
use crate::header::Header;
use crate::history::HistoryBuffer;
use crate::registry::{PublisherRegistry, SubscriberList};
use crate::types::{
    spec_round_up, LocalPublisherConfig, PublisherDetails, StaticConfig, UniquePublisherId,
    SAMPLE_HEADER_SIZE,
};

verus! {

/// The user's handle to a loaned chunk: its offset and how many payload
/// elements it was loaned for.
#[derive(Debug)]
pub struct SampleMut {
    pub offset: usize,
    pub number_of_elements: usize,
}

/// The segment, connection and registry sizes derived from the configuration
/// all fit the machine's word.
pub open spec fn sizes_fit(cfg: StaticConfig, config: LocalPublisherConfig) -> bool {
    let ps = crate::types::spec_sample_size(cfg, config.max_slice_len as int);
    let n = config.max_loaned_samples + cfg.max_subscribers * cfg.subscriber_max_buffer_size
        + cfg.history_size;
    &&& ps <= usize::MAX
    &&& n <= usize::MAX
    &&& n * ps + (cfg.type_align - 1) <= usize::MAX
    &&& config.max_loaned_samples + cfg.history_size + cfg.max_subscribers * (
    cfg.subscriber_max_buffer_size + cfg.history_size + 1) + 1 <= usize::MAX
}

/// What a fresh loan guarantees: a valid chunk offset now counted among the
/// loans, its header stamped with the publisher's id and the payload layout
/// of `n` elements, and its payload region zeroed.
pub open spec fn fresh_loan(pre: DataSegment, post: DataSegment, s: SampleMut, n: usize) -> bool {
    let i = idx_of(s.offset, pre.payload_size);
    let size = crate::types::spec_payload_size(pre.static_config, n as int);
    &&& s.number_of_elements == n
    &&& valid_offset(s.offset, pre.payload_size, pre.number_of_samples)
    &&& !pre.loaned@.contains(s.offset)
    &&& count_of(post.loaned@, s.offset) >= 1
    &&& post.loaned@ == pre.loaned@.push(s.offset)
    &&& post.loan_counter == pre.loan_counter + 1
    &&& post.sample_reference_counter@[i] == 1
    &&& post.memory@[i].header == Some(
        Header {
            publisher_id: pre.port_id,
            payload_size: size as u64,
            payload_align: pre.static_config.type_align as u64,
        },
    )
    &&& post.memory@[i].payload@ == Seq::<u8>::new(size as nat, |b: int| 0u8)
}

/// How often the slot's ring holds offset `x`.
pub open spec fn slot_ring_count(slot: Option<crate::connection::Connection>, x: usize) -> nat {
    match slot {
        Some(c) => count_of(c.ring@, x),
        None => 0,
    }
}

/// With at least one subscriber slot, the per-connection budget is part of
/// the total budget.
pub proof fn lemma_budget_lower(n: int, per: int)
    requires
        n >= 1,
        per >= 0,
    ensures
        per <= n * per,
{
    assert(per <= n * per) by (nonlinear_arith)
        requires n >= 1, per >= 0;
}

/// Sending endpoint of a publish-subscribe service.
pub struct Publisher {
    pub data_segment: DataSegment,
    pub dynamic_publisher_handle: Option<usize>,
}

impl Publisher {
    /// The port is in its operating state: its segment invariant holds and,
    /// while registered, its handle points into a registry of the service's
    /// size.
    pub open spec fn wf(&self) -> bool {
        self.data_segment.inv()
    }

    /// Builds the publisher port: sizes the data segment from the
    /// configuration, snapshots the subscriber set, wires the already
    /// attached subscribers, and registers the port — registration comes
    /// last, so nobody observes a half-built publisher. Creation fails
    /// exactly when the sizes do not fit the machine or the registry is
    /// full.
    #[verifier::rlimit(80)]
    pub fn new(
        port_id: UniquePublisherId,
        static_config: &StaticConfig,
        config: LocalPublisherConfig,
        subscribers: &SubscriberList,
        registry: &mut PublisherRegistry,
    ) -> (r: Result<Publisher, PublisherCreateError>)
        requires
            static_config.wf(),
            subscribers.slots@.len() == static_config.max_subscribers,
            old(registry).slots@.len() == static_config.max_publishers,
        ensures
            r == Result::<Publisher, PublisherCreateError>::Err(
                PublisherCreateError::UnableToCreateDataSegment,
            ) <==> !sizes_fit(*static_config, config),
            r == Result::<Publisher, PublisherCreateError>::Err(
                PublisherCreateError::ExceedsMaxSupportedPublishers,
            ) <==> sizes_fit(*static_config, config) && (forall|i: int|
                0 <= i < old(registry).slots@.len() ==> old(registry).slots@[i] is Some),
            sizes_fit(*static_config, config) && !(forall|i: int|
                0 <= i < old(registry).slots@.len() ==> old(registry).slots@[i] is Some) ==> r
                is Ok,
            r is Err ==> *final(registry) == *old(registry),
            r matches Ok(p) ==> {
                &&& p.wf()
                &&& p.data_segment.is_active
                &&& p.data_segment.port_id == port_id
                &&& p.data_segment.config == config
                &&& p.data_segment.static_config == *static_config
                &&& p.data_segment.loan_counter == 0
                &&& p.data_segment.loaned@ =~= Seq::<usize>::empty()
                &&& p.data_segment.hist_contents() =~= Seq::<usize>::empty()
                &&& p.data_segment.number_of_samples == config.max_loaned_samples
                    + static_config.max_subscribers * static_config.subscriber_max_buffer_size
                    + static_config.history_size
                &&& (forall|i: int|
                    0 <= i < p.data_segment.number_of_samples
                        ==> #[trigger] p.data_segment.sample_reference_counter@[i] == 0)
                &&& p.data_segment.subscriber_list_state.version == subscribers.version
                &&& p.data_segment.subscriber_list_state.slots@ == subscribers.slots@
                &&& ((config.degration_action != Some(crate::types::DegrationAction::Fail)
                    || forall|k: int|
                    0 <= k < subscribers.slots@.len()
                        ==> !crate::data_segment::refused_subscriber(
                        #[trigger] subscribers.slots@[k],
                        None,
                        *static_config,
                    )) ==> forall|k: int|
                    0 <= k < subscribers.slots@.len() ==> crate::data_segment::reconciled_slot(
                        subscribers.slots@[k],
                        None,
                        #[trigger] p.data_segment.subscriber_connections@[k],
                        Seq::<usize>::empty(),
                        *static_config,
                    ))
                &&& p.dynamic_publisher_handle is Some
            },
            r matches Ok(p) ==> ({
                let h = p.dynamic_publisher_handle->Some_0;
                &&& h < old(registry).slots@.len()
                &&& old(registry).slots@[h as int] is None
                &&& final(registry).slots@ == old(registry).slots@.update(
                    h as int,
                    Some(
                        PublisherDetails {
                            publisher_id: port_id,
                            number_of_samples: p.data_segment.number_of_samples,
                            max_slice_len: config.max_slice_len,
                        },
                    ),
                )
            }),
    {
        // segment sizing, refused when it cannot fit
        let align = static_config.type_align;
        let header_part: usize;
        if 32usize % align == 0 {
            header_part = 32usize;
        } else {
            let q = 32usize / align;
            proof {
                vstd::arithmetic::div_mod::lemma_fundamental_div_mod(32, align as int);
                assert(q * align <= 32) by (nonlinear_arith)
                    requires
                        align >= 1,
                        q == 32int / (align as int),
                        32int == (align as int) * (32int / (align as int)) + (32int % (
                        align as int)),
                        (32int % (align as int)) >= 0,
                ;
                if align > 32 {
                    assert(q == 0) by (nonlinear_arith)
                        requires
                            align > 32,
                            q == 32int / (align as int),
                            32int == (align as int) * (32int / (align as int)) + (32int % (
                            align as int)),
                            (32int % (align as int)) >= 0,
                            (32int % (align as int)) < (align as int),
                    ;
                }
                assert((q + 1) * align == q * align + align) by (nonlinear_arith);
                if align > 32 {
                    assert((q + 1) * align == align) by (nonlinear_arith)
                        requires q == 0;
                } else {
                    assert((q + 1) * align <= 64);
                }
            }
            header_part = (q + 1) * align;
        }
        proof {
            assert(header_part == spec_round_up(SAMPLE_HEADER_SIZE as int, align as int));
            assert(32 <= header_part);
        }
        let payload_part = match static_config.type_size.checked_mul(config.max_slice_len) {
            Some(v) => v,
            None => {
                return Err(PublisherCreateError::UnableToCreateDataSegment);
            },
        };
        let payload_size = match header_part.checked_add(payload_part) {
            Some(v) => v,
            None => {
                return Err(PublisherCreateError::UnableToCreateDataSegment);
            },
        };
        let ring_total = match static_config.max_subscribers.checked_mul(
            static_config.subscriber_max_buffer_size,
        ) {
            Some(v) => v,
            None => {
                return Err(PublisherCreateError::UnableToCreateDataSegment);
            },
        };
        let number_of_samples = match config.max_loaned_samples.checked_add(ring_total) {
            Some(v) => match v.checked_add(static_config.history_size) {
                Some(w) => w,
                None => {
                    return Err(PublisherCreateError::UnableToCreateDataSegment);
                },
            },
            None => {
                return Err(PublisherCreateError::UnableToCreateDataSegment);
            },
        };
        let _segment_bytes = match number_of_samples.checked_mul(payload_size) {
            Some(v) => match v.checked_add(align - 1) {
                Some(w) => w,
                None => {
                    return Err(PublisherCreateError::UnableToCreateDataSegment);
                },
            },
            None => {
                return Err(PublisherCreateError::UnableToCreateDataSegment);
            },
        };
        let budget_conns: usize;
        if static_config.max_subscribers == 0 {
            budget_conns = 0;
            proof {
                assert(static_config.max_subscribers * (
                static_config.subscriber_max_buffer_size as int + static_config.history_size + 1)
                    == 0) by (nonlinear_arith)
                    requires static_config.max_subscribers == 0;
            }
        } else {
            let per_conn = match static_config.subscriber_max_buffer_size.checked_add(
                static_config.history_size,
            ) {
                Some(v) => match v.checked_add(1) {
                    Some(w) => w,
                    None => {
                        proof {
                            lemma_budget_lower(
                                static_config.max_subscribers as int,
                                static_config.subscriber_max_buffer_size as int
                                    + static_config.history_size as int + 1,
                            );
                        }
                        return Err(PublisherCreateError::UnableToCreateDataSegment);
                    },
                },
                None => {
                    proof {
                        lemma_budget_lower(
                            static_config.max_subscribers as int,
                            static_config.subscriber_max_buffer_size as int
                                + static_config.history_size as int + 1,
                        );
                    }
                    return Err(PublisherCreateError::UnableToCreateDataSegment);
                },
            };
            budget_conns = match static_config.max_subscribers.checked_mul(per_conn) {
                Some(v) => v,
                None => {
                    return Err(PublisherCreateError::UnableToCreateDataSegment);
                },
            };
        }
        let budget = match config.max_loaned_samples.checked_add(static_config.history_size) {
            Some(v) => match v.checked_add(budget_conns) {
                Some(w) => match w.checked_add(1) {
                    Some(u) => u,
                    None => {
                        return Err(PublisherCreateError::UnableToCreateDataSegment);
                    },
                },
                None => {
                    return Err(PublisherCreateError::UnableToCreateDataSegment);
                },
            },
            None => {
                return Err(PublisherCreateError::UnableToCreateDataSegment);
            },
        };
        proof {
            let ps = crate::types::spec_sample_size(*static_config, config.max_slice_len as int);
            let n = config.max_loaned_samples as int + static_config.max_subscribers
                * static_config.subscriber_max_buffer_size + static_config.history_size;
            assert(payload_size == ps);
            assert(number_of_samples == n);
            assert(ps <= usize::MAX);
            assert(n <= usize::MAX);
            assert(n * ps + (static_config.type_align - 1) <= usize::MAX);
            assert(config.max_loaned_samples + static_config.history_size
                + static_config.max_subscribers * (static_config.subscriber_max_buffer_size
                + static_config.history_size + 1) + 1 <= usize::MAX);
            assert(sizes_fit(*static_config, config));
            assert(budget >= 1);
        }

        // the chunk pool: one counter and one bucket per sample
        let mut sample_reference_counter: Vec<u64> = Vec::new();
        let mut memory: Vec<Chunk> = Vec::new();
        let mut i: usize = 0;
        while i < number_of_samples
            invariant
                i <= number_of_samples,
                sample_reference_counter@.len() == i,
                memory@.len() == i,
                forall|k: int| 0 <= k < i ==> #[trigger] sample_reference_counter@[k] == 0,
                forall|k: int| 0 <= k < i ==> #[trigger] memory@[k].header is None,
            decreases number_of_samples - i,
        {
            sample_reference_counter.push(0);
            memory.push(Chunk { header: None, payload: Vec::new() });
            i += 1;
        }

        // the empty connection table
        let mut subscriber_connections: Vec<Option<crate::connection::Connection>> = Vec::new();
        let mut j: usize = 0;
        while j < static_config.max_subscribers
            invariant
                j <= static_config.max_subscribers,
                subscriber_connections@.len() == j,
                forall|k: int| 0 <= k < j ==> #[trigger] subscriber_connections@[k] is None,
            decreases static_config.max_subscribers - j,
        {
            subscriber_connections.push(None);
            j += 1;
        }

        let history = if static_config.history_size == 0 {
            None
        } else {
            Some(HistoryBuffer::new(static_config.history_size))
        };

        let mut data_segment = DataSegment {
            sample_reference_counter,
            memory,
            payload_size,
            number_of_samples,
            port_id,
            config,
            static_config: *static_config,
            subscriber_connections,
            subscriber_list_state: subscribers.get_state(),
            history,
            loaned: Vec::new(),
            loan_counter: 0,
            is_active: true,
        };
        proof {
            lemma_conn_none(data_segment.subscriber_connections@);
            lemma_total_zero(data_segment.sample_reference_counter@);
            assert(data_segment.hist_contents() =~= Seq::<usize>::empty());
            assert(data_segment.counters_match(Seq::<usize>::empty()));
            assert(data_segment.structure_ok());
        }

        // wire the subscribers that are already attached; a refused one is
        // reported by the first send instead of blocking creation
        let ghost pre_populate = data_segment;
        let populate_result = data_segment.populate_subscriber_channels();
        proof {
            assert forall|i: int|
                0 <= i < data_segment.number_of_samples implies #[trigger] data_segment.sample_reference_counter@[i]
                == 0 by {
                assert(count_of(pre_populate.hist_contents(), pre_populate.bucket_offset(i)) == 0);
                assert(data_segment.sample_reference_counter@[i]
                    <= pre_populate.sample_reference_counter@[i]);
            }
            assert(data_segment.hist_contents() =~= Seq::<usize>::empty());
            if config.degration_action != Some(crate::types::DegrationAction::Fail) || (forall|
                k: int,
            |
                0 <= k < subscribers.slots@.len() ==> !crate::data_segment::refused_subscriber(
                    #[trigger] subscribers.slots@[k],
                    None,
                    *static_config,
                )) {
                assert forall|k: int|
                    0 <= k < subscribers.slots@.len() implies !crate::data_segment::refused_subscriber(
                    pre_populate.subscriber_list_state.slots@[k],
                    #[trigger] pre_populate.subscriber_connections@[k],
                    pre_populate.static_config,
                ) || pre_populate.config.degration_action != Some(
                    crate::types::DegrationAction::Fail,
                ) by {
                    assert(pre_populate.subscriber_connections@[k] is None);
                    assert(pre_populate.subscriber_list_state.slots@[k] == subscribers.slots@[k]);
                }
                assert(populate_result is Ok);
                assert forall|k: int|
                    0 <= k < subscribers.slots@.len() implies crate::data_segment::reconciled_slot(
                    subscribers.slots@[k],
                    None,
                    #[trigger] data_segment.subscriber_connections@[k],
                    Seq::<usize>::empty(),
                    *static_config,
                ) by {
                    assert(crate::data_segment::reconciled_slot(
                        pre_populate.subscriber_list_state.slots@[k],
                        pre_populate.subscriber_connections@[k],
                        data_segment.subscriber_connections@[k],
                        pre_populate.hist_contents(),
                        pre_populate.static_config,
                    ));
                }
            }
        }

        // registration is last: nobody may observe a half-built publisher
        let details = PublisherDetails {
            publisher_id: port_id,
            number_of_samples,
            max_slice_len: config.max_slice_len,
        };
        match registry.add_publisher_id(details) {
            Some(handle) => Ok(
                Publisher { data_segment, dynamic_publisher_handle: Some(handle) },
            ),
            None => Err(PublisherCreateError::ExceedsMaxSupportedPublishers),
        }
    }

    /// The unique id of this publisher port.
    pub fn id(&self) -> (r: UniquePublisherId)
        ensures
            r == self.data_segment.port_id,
    {
        self.data_segment.port_id
    }

    /// Loans a chunk for `number_of_elements` payload elements and stamps its
    /// header. Fails with `ExceedsMaxLoanedChunks` exactly when the loan
    /// bound is reached, with `OutOfMemory` when every bucket is referenced.
    fn loan_impl(&mut self, number_of_elements: usize) -> (r: Result<SampleMut, PublisherLoanError>)
        requires
            old(self).wf(),
            number_of_elements <= old(self).data_segment.config.max_slice_len,
        ensures
            final(self).wf(),
            final(self).dynamic_publisher_handle == old(self).dynamic_publisher_handle,
            final(self).data_segment.same_config(&old(self).data_segment),
            final(self).data_segment.history == old(self).data_segment.history,
            final(self).data_segment.subscriber_list_state == old(self).data_segment.subscriber_list_state,
            r != Result::<SampleMut, PublisherLoanError>::Err(PublisherLoanError::ExceedsMaxLoanedChunks)
                ==> crate::data_segment::slots_reclaimed(
                old(self).data_segment.subscriber_connections@,
                final(self).data_segment.subscriber_connections@,
            ),
            old(self).data_segment.loan_counter >= old(self).data_segment.config.max_loaned_samples
                <==> r == Result::<SampleMut, PublisherLoanError>::Err(
                PublisherLoanError::ExceedsMaxLoanedChunks,
            ),
            r == Result::<SampleMut, PublisherLoanError>::Err(PublisherLoanError::ExceedsMaxLoanedChunks)
                ==> *final(self) == *old(self),
            r matches Err(e) ==> (e == PublisherLoanError::ExceedsMaxLoanedChunks || e
                == PublisherLoanError::OutOfMemory),
            r == Result::<SampleMut, PublisherLoanError>::Err(PublisherLoanError::OutOfMemory)
                ==> final(self).data_segment.loaned == old(self).data_segment.loaned && final(self).data_segment.loan_counter == old(self).data_segment.loan_counter
                    && (forall|i: int|
                        0 <= i < old(self).data_segment.number_of_samples
                            ==> #[trigger] final(self).data_segment.sample_reference_counter@[i]
                                >= 1)
                    && (forall|i: int|
                        0 <= i < old(self).data_segment.number_of_samples
                            ==> #[trigger] final(self).data_segment.sample_reference_counter@[i]
                                <= old(self).data_segment.sample_reference_counter@[i]),
            r matches Ok(s) ==> fresh_loan(
                old(self).data_segment,
                final(self).data_segment,
                s,
                number_of_elements,
            ),
    {
        if self.data_segment.loan_counter >= self.data_segment.config.max_loaned_samples {
            return Err(PublisherLoanError::ExceedsMaxLoanedChunks);
        }
        match self.data_segment.allocate() {
            Ok(offset) => {
                proof {
                    lemma_count_relation_push(old(self).data_segment.loaned@, offset);
                }
                self.data_segment.stamp_sample(offset, number_of_elements);
                Ok(SampleMut { offset, number_of_elements })
            },
            Err(e) => Err(e),
        }
    }

    /// Loans a scalar chunk; its payload is not initialized.
    pub fn loan_uninit(&mut self) -> (r: Result<SampleMut, PublisherLoanError>)
        requires
            old(self).wf(),
            old(self).data_segment.config.max_slice_len >= 1,
        ensures
            final(self).wf(),
            final(self).dynamic_publisher_handle == old(self).dynamic_publisher_handle,
            final(self).data_segment.same_config(&old(self).data_segment),
            old(self).data_segment.loan_counter >= old(self).data_segment.config.max_loaned_samples
                <==> r == Result::<SampleMut, PublisherLoanError>::Err(
                PublisherLoanError::ExceedsMaxLoanedChunks,
            ),
            r matches Err(e) ==> (e == PublisherLoanError::ExceedsMaxLoanedChunks || e
                == PublisherLoanError::OutOfMemory),
            r == Result::<SampleMut, PublisherLoanError>::Err(PublisherLoanError::ExceedsMaxLoanedChunks)
                ==> *final(self) == *old(self),
            r == Result::<SampleMut, PublisherLoanError>::Err(PublisherLoanError::OutOfMemory)
                ==> final(self).data_segment.loaned == old(self).data_segment.loaned
                    && final(self).data_segment.loan_counter == old(self).data_segment.loan_counter
                    && (forall|i: int|
                        0 <= i < old(self).data_segment.number_of_samples
                            ==> #[trigger] final(self).data_segment.sample_reference_counter@[i]
                                >= 1)
                    && (forall|i: int|
                        0 <= i < old(self).data_segment.number_of_samples
                            ==> #[trigger] final(self).data_segment.sample_reference_counter@[i]
                                <= old(self).data_segment.sample_reference_counter@[i]),
            r matches Ok(s) ==> fresh_loan(
                old(self).data_segment,
                final(self).data_segment,
                s,
                1,
            ) && final(self).data_segment.memory@[idx_of(
                s.offset,
                old(self).data_segment.payload_size,
            )].payload@.len() == old(self).data_segment.static_config.type_size,
    {
        let r = self.loan_impl(1);
        r
    }

    /// Loans a scalar chunk with its payload default-initialized to zeroed
    /// bytes.
    pub fn loan(&mut self) -> (r: Result<SampleMut, PublisherLoanError>)
        requires
            old(self).wf(),
            old(self).data_segment.config.max_slice_len >= 1,
        ensures
            final(self).wf(),
            final(self).dynamic_publisher_handle == old(self).dynamic_publisher_handle,
            final(self).data_segment.same_config(&old(self).data_segment),
            old(self).data_segment.loan_counter >= old(self).data_segment.config.max_loaned_samples
                <==> r == Result::<SampleMut, PublisherLoanError>::Err(
                PublisherLoanError::ExceedsMaxLoanedChunks,
            ),
            r matches Err(e) ==> (e == PublisherLoanError::ExceedsMaxLoanedChunks || e
                == PublisherLoanError::OutOfMemory),
            r == Result::<SampleMut, PublisherLoanError>::Err(PublisherLoanError::ExceedsMaxLoanedChunks)
                ==> *final(self) == *old(self),
            r == Result::<SampleMut, PublisherLoanError>::Err(PublisherLoanError::OutOfMemory)
                ==> final(self).data_segment.loaned == old(self).data_segment.loaned
                    && final(self).data_segment.loan_counter == old(self).data_segment.loan_counter
                    && (forall|i: int|
                        0 <= i < old(self).data_segment.number_of_samples
                            ==> #[trigger] final(self).data_segment.sample_reference_counter@[i]
                                >= 1)
                    && (forall|i: int|
                        0 <= i < old(self).data_segment.number_of_samples
                            ==> #[trigger] final(self).data_segment.sample_reference_counter@[i]
                                <= old(self).data_segment.sample_reference_counter@[i]),
            r matches Ok(s) ==> fresh_loan(
                old(self).data_segment,
                final(self).data_segment,
                s,
                1,
            ),
    {
        self.loan_impl(1)
    }

    /// Loans a slice chunk of `slice_len` elements; its payload is not
    /// initialized. Refused with `ExceedsMaxLoanSize` exactly when the
    /// requested length exceeds the configured bound.
    pub fn loan_slice_uninit(&mut self, slice_len: usize) -> (r: Result<
        SampleMut,
        PublisherLoanError,
    >)
        requires
            old(self).wf(),
        ensures
            final(self).wf(),
            final(self).dynamic_publisher_handle == old(self).dynamic_publisher_handle,
            final(self).data_segment.same_config(&old(self).data_segment),
            slice_len > old(self).data_segment.config.max_slice_len <==> r == Result::<
                SampleMut,
                PublisherLoanError,
            >::Err(PublisherLoanError::ExceedsMaxLoanSize),
            r == Result::<SampleMut, PublisherLoanError>::Err(PublisherLoanError::ExceedsMaxLoanSize)
                ==> *final(self) == *old(self),
            (slice_len <= old(self).data_segment.config.max_slice_len && old(self).data_segment.loan_counter >= old(self).data_segment.config.max_loaned_samples) <==> r
                == Result::<SampleMut, PublisherLoanError>::Err(
                PublisherLoanError::ExceedsMaxLoanedChunks,
            ),
            r matches Err(e) ==> (e == PublisherLoanError::ExceedsMaxLoanSize || e
                == PublisherLoanError::ExceedsMaxLoanedChunks || e
                == PublisherLoanError::OutOfMemory),
            r == Result::<SampleMut, PublisherLoanError>::Err(PublisherLoanError::ExceedsMaxLoanedChunks)
                ==> *final(self) == *old(self),
            r == Result::<SampleMut, PublisherLoanError>::Err(PublisherLoanError::OutOfMemory)
                ==> final(self).data_segment.loaned == old(self).data_segment.loaned
                    && final(self).data_segment.loan_counter == old(self).data_segment.loan_counter
                    && (forall|i: int|
                        0 <= i < old(self).data_segment.number_of_samples
                            ==> #[trigger] final(self).data_segment.sample_reference_counter@[i]
                                >= 1)
                    && (forall|i: int|
                        0 <= i < old(self).data_segment.number_of_samples
                            ==> #[trigger] final(self).data_segment.sample_reference_counter@[i]
                                <= old(self).data_segment.sample_reference_counter@[i]),
            r matches Ok(s) ==> fresh_loan(
                old(self).data_segment,
                final(self).data_segment,
                s,
                slice_len,
            ),
    {
        if slice_len > self.data_segment.config.max_slice_len {
            return Err(PublisherLoanError::ExceedsMaxLoanSize);
        }
        self.loan_impl(slice_len)
    }

    /// Loans a slice chunk of `slice_len` elements with its payload
    /// default-initialized to zeroed bytes.
    pub fn loan_slice(&mut self, slice_len: usize) -> (r: Result<SampleMut, PublisherLoanError>)
        requires
            old(self).wf(),
        ensures
            final(self).wf(),
            final(self).dynamic_publisher_handle == old(self).dynamic_publisher_handle,
            final(self).data_segment.same_config(&old(self).data_segment),
            slice_len > old(self).data_segment.config.max_slice_len <==> r == Result::<
                SampleMut,
                PublisherLoanError,
            >::Err(PublisherLoanError::ExceedsMaxLoanSize),
            (slice_len <= old(self).data_segment.config.max_slice_len && old(self).data_segment.loan_counter >= old(self).data_segment.config.max_loaned_samples) <==> r
                == Result::<SampleMut, PublisherLoanError>::Err(
                PublisherLoanError::ExceedsMaxLoanedChunks,
            ),
            r matches Err(e) ==> (e == PublisherLoanError::ExceedsMaxLoanSize || e
                == PublisherLoanError::ExceedsMaxLoanedChunks || e
                == PublisherLoanError::OutOfMemory),
            r == Result::<SampleMut, PublisherLoanError>::Err(PublisherLoanError::ExceedsMaxLoanedChunks)
                ==> *final(self) == *old(self),
            r == Result::<SampleMut, PublisherLoanError>::Err(PublisherLoanError::OutOfMemory)
                ==> final(self).data_segment.loaned == old(self).data_segment.loaned
                    && final(self).data_segment.loan_counter == old(self).data_segment.loan_counter
                    && (forall|i: int|
                        0 <= i < old(self).data_segment.number_of_samples
                            ==> #[trigger] final(self).data_segment.sample_reference_counter@[i]
                                >= 1)
                    && (forall|i: int|
                        0 <= i < old(self).data_segment.number_of_samples
                            ==> #[trigger] final(self).data_segment.sample_reference_counter@[i]
                                <= old(self).data_segment.sample_reference_counter@[i]),
            r matches Ok(s) ==> fresh_loan(
                old(self).data_segment,
                final(self).data_segment,
                s,
                slice_len,
            ),
    {
        if slice_len > self.data_segment.config.max_slice_len {
            return Err(PublisherLoanError::ExceedsMaxLoanSize);
        }
        self.loan_impl(slice_len)
    }

    /// Fills a loaned sample's payload region with the given bytes.
    pub fn write_payload(&mut self, sample: &SampleMut, bytes: Vec<u8>)
        requires
            old(self).wf(),
            valid_offset(
                sample.offset,
                old(self).data_segment.payload_size,
                old(self).data_segment.number_of_samples,
            ),
        ensures
            final(self).wf(),
            final(self).dynamic_publisher_handle == old(self).dynamic_publisher_handle,
            final(self).data_segment.same_config(&old(self).data_segment),
            final(self).data_segment.loaned == old(self).data_segment.loaned,
            final(self).data_segment.loan_counter == old(self).data_segment.loan_counter,
            final(self).data_segment.subscriber_connections == old(self).data_segment.subscriber_connections,
            final(self).data_segment.history == old(self).data_segment.history,
            final(self).data_segment.subscriber_list_state == old(self).data_segment.subscriber_list_state,
            final(self).data_segment.sample_reference_counter == old(self).data_segment.sample_reference_counter,
            ({
                let i = idx_of(sample.offset, old(self).data_segment.payload_size);
                &&& final(self).data_segment.memory@[i].payload == bytes
                &&& final(self).data_segment.memory@[i].header == old(self).data_segment.memory@[i].header
            }),
    {
        self.data_segment.write_payload(sample.offset, bytes);
    }

    /// The header stamped into a loaned sample's chunk: it always carries
    /// this publisher's id.
    pub fn header(&self, sample: &SampleMut) -> (r: Header)
        requires
            self.wf(),
            valid_offset(
                sample.offset,
                self.data_segment.payload_size,
                self.data_segment.number_of_samples,
            ),
            self.data_segment.memory@[idx_of(sample.offset, self.data_segment.payload_size)].header
                is Some,
        ensures
            Some(r) == self.data_segment.memory@[idx_of(
                sample.offset,
                self.data_segment.payload_size,
            )].header,
            r.publisher_id == self.data_segment.port_id,
    {
        proof {
            lemma_offset_to_index(sample.offset, self.data_segment.payload_size);
        }
        let i = self.data_segment.sample_index(sample.offset);
        match self.data_segment.memory[i].header {
            Some(h) => h,
            None => unreached(),
        }
    }

    /// A loaned or delivered chunk's payload bytes.
    pub fn payload_at(&self, offset: usize) -> (r: &Vec<u8>)
        requires
            self.wf(),
            valid_offset(
                offset,
                self.data_segment.payload_size,
                self.data_segment.number_of_samples,
            ),
        ensures
            r == &self.data_segment.memory@[idx_of(offset, self.data_segment.payload_size)].payload,
    {
        proof {
            lemma_offset_to_index(offset, self.data_segment.payload_size);
        }
        let i = self.data_segment.sample_index(offset);
        &self.data_segment.memory[i].payload
    }

    /// Gives an unsent loan back; its reference is dropped and the chunk may
    /// be reused.
    pub fn return_loaned_sample(&mut self, sample: SampleMut)
        requires
            old(self).wf(),
        ensures
            final(self).wf(),
            final(self).dynamic_publisher_handle == old(self).dynamic_publisher_handle,
            final(self).data_segment.same_config(&old(self).data_segment),
            final(self).data_segment.history == old(self).data_segment.history,
            final(self).data_segment.subscriber_connections == old(self).data_segment.subscriber_connections,
            final(self).data_segment.subscriber_list_state == old(self).data_segment.subscriber_list_state,
            old(self).data_segment.loaned@.contains(sample.offset) ==> {
                let i = idx_of(sample.offset, old(self).data_segment.payload_size);
                &&& final(self).data_segment.loan_counter == old(self).data_segment.loan_counter
                    - 1
                &&& exists|k: int|
                    0 <= k < old(self).data_segment.loaned@.len() && old(self).data_segment.loaned@[k]
                        == sample.offset && final(self).data_segment.loaned@ == old(self).data_segment.loaned@.remove(k)
                &&& final(self).data_segment.sample_reference_counter@
                    == old(self).data_segment.sample_reference_counter@.update(
                    i,
                    (old(self).data_segment.sample_reference_counter@[i] - 1) as u64,
                )
                &&& (old(self).data_segment.sample_reference_counter@[i] > 1 ==> final(self).data_segment.memory == old(self).data_segment.memory)
            },
            !old(self).data_segment.loaned@.contains(sample.offset) ==> *final(self) == *old(self),
    {
        self.data_segment.return_loaned_sample(sample.offset);
    }

    /// Sends a loaned sample: reconciles the connections, retains the offset
    /// in the history, delivers it to every connected subscriber and then
    /// consumes the loan. Returns how many subscribers accepted it.
    pub fn send(&mut self, sample: SampleMut, subscribers: &SubscriberList) -> (r: Result<
        usize,
        PublisherSendError,
    >)
        requires
            old(self).wf(),
            count_of(old(self).data_segment.loaned@, sample.offset) >= 1,
            subscribers.slots@.len() == old(self).data_segment.static_config.max_subscribers,
        ensures
            final(self).wf(),
            final(self).dynamic_publisher_handle == old(self).dynamic_publisher_handle,
            final(self).data_segment.same_config(&old(self).data_segment),
            final(self).data_segment.loan_counter == old(self).data_segment.loan_counter - 1,
            !old(self).data_segment.is_active ==> r == Result::<usize, PublisherSendError>::Err(
                PublisherSendError::ConnectionBrokenSincePublisherNoLongerExists,
            ),
            old(self).data_segment.is_active && old(self).data_segment.config.degration_action
                != Some(crate::types::DegrationAction::Fail) ==> r is Ok,
            r matches Err(e) ==> (e
                == PublisherSendError::ConnectionBrokenSincePublisherNoLongerExists || e
                == PublisherSendError::ConnectionCorrupted || e matches
            PublisherSendError::ConnectionError(_)),
            r matches Err(PublisherSendError::ConnectionError(_)) ==> final(self).data_segment.history
                == old(self).data_segment.history,
            r matches Ok(n) ==> crate::data_segment::delivery_count_matches(
                old(self).data_segment.subscriber_connections@,
                old(self).data_segment.subscriber_list_state.version,
                subscribers.version,
                subscribers.slots@,
                old(self).data_segment.hist_contents(),
                old(self).data_segment.static_config,
                n,
            ),
            r is Ok ==> forall|k: int|
                0 <= k < final(self).data_segment.subscriber_connections@.len() ==> sample_offered(
                    #[trigger] final(self).data_segment.subscriber_connections@[k],
                    sample.offset,
                ),
            r is Ok && old(self).data_segment.history is Some && old(self).data_segment.hist_contents().len() < old(self).data_segment.static_config.history_size ==> final(self).data_segment.hist_contents()
                == old(self).data_segment.hist_contents().push(sample.offset),
            r is Ok && old(self).data_segment.history is Some && old(self).data_segment.hist_contents().len() == old(self).data_segment.static_config.history_size ==> final(self).data_segment.hist_contents()
                == old(self).data_segment.hist_contents().drop_first().push(sample.offset),
            r is Ok ==> forall|k: int|
                0 <= k < final(self).data_segment.subscriber_connections@.len()
                    && slot_ring_count(
                    #[trigger] final(self).data_segment.subscriber_connections@[k],
                    sample.offset,
                ) >= 1 ==> final(self).data_segment.memory@[idx_of(
                    sample.offset,
                    old(self).data_segment.payload_size,
                )] == old(self).data_segment.memory@[idx_of(
                    sample.offset,
                    old(self).data_segment.payload_size,
                )],
    {
        let ghost s0 = *self;
        proof {
            lemma_count_contains(s0.data_segment.loaned@, sample.offset);
        }
        let r = self.data_segment.send_sample(sample.offset, subscribers);
        let ghost s_mid = *self;
        self.data_segment.return_loaned_sample(sample.offset);
        proof {
            if r is Ok {
                let i = idx_of(sample.offset, s0.data_segment.payload_size);
                lemma_offset_to_index(sample.offset, s0.data_segment.payload_size);
                assert forall|k: int|
                    0 <= k < self.data_segment.subscriber_connections@.len() && slot_ring_count(
                        #[trigger] self.data_segment.subscriber_connections@[k],
                        sample.offset,
                    ) >= 1 implies self.data_segment.memory@[i] == s0.data_segment.memory@[i] by {
                    // the subscriber's ring and the still-open loan both hold a
                    // reference, so returning the loan cannot free the chunk
                    assert(self.data_segment.subscriber_connections
                        == s_mid.data_segment.subscriber_connections);
                    lemma_slot_count_le_conn_count(
                        s_mid.data_segment.subscriber_connections@,
                        k,
                        sample.offset,
                    );
                    assert(crate::data_segment::slot_count(
                        s_mid.data_segment.subscriber_connections@[k],
                        sample.offset,
                    ) >= 1);
                    assert(s_mid.data_segment.bucket_offset(i) == sample.offset);
                    assert(count_of(s_mid.data_segment.loaned@, sample.offset) >= 1);
                    assert(s_mid.data_segment.sample_reference_counter@[i] >= 2);
                    assert(self.data_segment.memory@[i] == s_mid.data_segment.memory@[i]);
                    assert(s_mid.data_segment.memory@[i] == s0.data_segment.memory@[i]);
                }
            }
        }
        r
    }

    /// Loans a scalar chunk, fills it with the given payload bytes and sends
    /// it, all in one call.
    pub fn send_copy(&mut self, value: Vec<u8>, subscribers: &SubscriberList) -> (r: Result<
        usize,
        PublisherSendError,
    >)
        requires
            old(self).wf(),
            old(self).data_segment.config.max_slice_len >= 1,
            subscribers.slots@.len() == old(self).data_segment.static_config.max_subscribers,
        ensures
            final(self).wf(),
            final(self).dynamic_publisher_handle == old(self).dynamic_publisher_handle,
            final(self).data_segment.same_config(&old(self).data_segment),
            old(self).data_segment.loan_counter >= old(self).data_segment.config.max_loaned_samples
                <==> r == Result::<usize, PublisherSendError>::Err(
                PublisherSendError::LoanError(PublisherLoanError::ExceedsMaxLoanedChunks),
            ),
            r matches Err(PublisherSendError::LoanError(e)) ==> (e
                == PublisherLoanError::ExceedsMaxLoanedChunks || e
                == PublisherLoanError::OutOfMemory),
            r == Result::<usize, PublisherSendError>::Err(
                PublisherSendError::LoanError(PublisherLoanError::OutOfMemory),
            ) ==> forall|i: int|
                0 <= i < old(self).data_segment.number_of_samples
                    ==> #[trigger] final(self).data_segment.sample_reference_counter@[i] >= 1,
            r is Ok ==> final(self).data_segment.loan_counter == old(self).data_segment.loan_counter,
            !old(self).data_segment.is_active && old(self).data_segment.loan_counter < old(self).data_segment.config.max_loaned_samples
                ==> (r == Result::<usize, PublisherSendError>::Err(
                    PublisherSendError::ConnectionBrokenSincePublisherNoLongerExists,
                ) || r == Result::<usize, PublisherSendError>::Err(
                    PublisherSendError::LoanError(PublisherLoanError::OutOfMemory),
                )),
            (old(self).data_segment.is_active && old(self).data_segment.config.degration_action
                != Some(crate::types::DegrationAction::Fail) && old(self).data_segment.loan_counter
                < old(self).data_segment.config.max_loaned_samples) ==> (r is Ok || r == Result::<
                usize,
                PublisherSendError,
            >::Err(PublisherSendError::LoanError(PublisherLoanError::OutOfMemory))),
            r matches Ok(n) ==> exists|reaped: Seq<Option<crate::connection::Connection>>|
                {
                    &&& #[trigger] crate::data_segment::slots_reclaimed(
                        old(self).data_segment.subscriber_connections@,
                        reaped,
                    )
                    &&& crate::data_segment::delivery_count_matches(
                        reaped,
                        old(self).data_segment.subscriber_list_state.version,
                        subscribers.version,
                        subscribers.slots@,
                        old(self).data_segment.hist_contents(),
                        old(self).data_segment.static_config,
                        n,
                    )
                },
            r is Ok ==> exists|off: usize|
                valid_offset(
                    off,
                    old(self).data_segment.payload_size,
                    old(self).data_segment.number_of_samples,
                ) && (forall|k: int|
                    0 <= k < final(self).data_segment.subscriber_connections@.len()
                        ==> sample_offered(
                        #[trigger] final(self).data_segment.subscriber_connections@[k],
                        off,
                    )) && (forall|k: int|
                    0 <= k < final(self).data_segment.subscriber_connections@.len()
                        && slot_ring_count(
                        #[trigger] final(self).data_segment.subscriber_connections@[k],
                        off,
                    ) >= 1 ==> final(self).data_segment.memory@[idx_of(
                        off,
                        old(self).data_segment.payload_size,
                    )].payload == value),
    {
        let sample = match self.loan_impl(1) {
            Ok(s) => s,
            Err(e) => {
                return Err(PublisherSendError::LoanError(e));
            },
        };
        let ghost s_loaned = *self;
        let ghost v = value@;
        self.write_payload(&sample, value);
        let ghost s_written = *self;
        let ghost off = sample.offset;
        let r = self.send(sample, subscribers);
        proof {
            if r is Ok {
                let n = r->Ok_0;
                let reaped = s_written.data_segment.subscriber_connections@;
                assert(s_written.data_segment.hist_contents() == old(self).data_segment.hist_contents());
                assert(crate::data_segment::slots_reclaimed(
                    old(self).data_segment.subscriber_connections@,
                    reaped,
                ));
                assert(crate::data_segment::delivery_count_matches(
                    reaped,
                    old(self).data_segment.subscriber_list_state.version,
                    subscribers.version,
                    subscribers.slots@,
                    old(self).data_segment.hist_contents(),
                    old(self).data_segment.static_config,
                    n,
                ));
            }
        }
        match r {
            Ok(count) => {
                proof {
                    assert(valid_offset(
                        off,
                        self.data_segment.payload_size,
                        self.data_segment.number_of_samples,
                    ));
                }
                Ok(count)
            },
            Err(e) => Err(e),
        }
    }

    /// Reconciles the connection table against the observed subscriber set;
    /// an unchanged set leaves everything untouched.
    pub fn update_connections(&mut self, subscribers: &SubscriberList) -> (r: Result<
        (),
        crate::errors::ConnectionFailure,
    >)
        requires
            old(self).wf(),
            subscribers.slots@.len() == old(self).data_segment.static_config.max_subscribers,
        ensures
            final(self).wf(),
            final(self).dynamic_publisher_handle == old(self).dynamic_publisher_handle,
            final(self).data_segment.same_config(&old(self).data_segment),
            final(self).data_segment.history == old(self).data_segment.history,
            final(self).data_segment.loaned == old(self).data_segment.loaned,
            final(self).data_segment.loan_counter == old(self).data_segment.loan_counter,
            subscribers.version == old(self).data_segment.subscriber_list_state.version ==> *final(self) == *old(self) && r is Ok,
            subscribers.version != old(self).data_segment.subscriber_list_state.version
                ==> final(self).data_segment.subscriber_list_state.version == subscribers.version
                    && final(self).data_segment.subscriber_list_state.slots@ == subscribers.slots@,
            r is Ok && subscribers.version != old(self).data_segment.subscriber_list_state.version
                ==> forall|k: int|
                0 <= k < old(self).data_segment.subscriber_connections@.len()
                    ==> crate::data_segment::reconciled_slot(
                    subscribers.slots@[k],
                    old(self).data_segment.subscriber_connections@[k],
                    #[trigger] final(self).data_segment.subscriber_connections@[k],
                    old(self).data_segment.hist_contents(),
                    old(self).data_segment.static_config,
                ),
            r is Err ==> r == Result::<(), crate::errors::ConnectionFailure>::Err(
                crate::errors::ConnectionFailure::UnableToEstablishConnection,
            ) && old(self).data_segment.config.degration_action == Some(
                crate::types::DegrationAction::Fail,
            ),
            old(self).data_segment.config.degration_action != Some(
                crate::types::DegrationAction::Fail,
            ) ==> r is Ok,
            (subscribers.version != old(self).data_segment.subscriber_list_state.version
                && old(self).data_segment.config.degration_action == Some(
                crate::types::DegrationAction::Fail,
            ) && exists|k: int|
                0 <= k < old(self).data_segment.subscriber_connections@.len()
                    && crate::data_segment::refused_subscriber(
                    subscribers.slots@[k],
                    #[trigger] old(self).data_segment.subscriber_connections@[k],
                    old(self).data_segment.static_config,
                )) ==> r is Err,
    {
        self.data_segment.update_connections(subscribers)
    }

    /// Tears the port down: deregisters it from the service and deactivates
    /// the segment, so every further send fails.
    pub fn deregister(&mut self, registry: &mut PublisherRegistry)
        requires
            old(self).wf(),
            old(self).dynamic_publisher_handle matches Some(h) ==> h < old(
                registry,
            ).slots@.len(),
        ensures
            final(self).wf(),
            final(self).dynamic_publisher_handle is None,
            !final(self).data_segment.is_active,
            old(self).dynamic_publisher_handle matches Some(h) ==> final(registry).slots@ == old(
                registry,
            ).slots@.update(h as int, None),
            old(self).dynamic_publisher_handle is None ==> *final(registry) == *old(registry),
    {
        match self.dynamic_publisher_handle {
            Some(handle) => {
                registry.release_publisher_handle(handle);
            },
            None => {},
        }
        self.dynamic_publisher_handle = None;
        self.data_segment.deactivate();
    }
}

} // verus!
