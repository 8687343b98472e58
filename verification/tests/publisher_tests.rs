use publisher_core::errors::{
    ConnectionFailure, PublisherCreateError, PublisherLoanError, PublisherSendError,
};
use publisher_core::publisher::Publisher;
use publisher_core::registry::{PublisherRegistry, SubscriberList};
use publisher_core::types::{
    DegrationAction, LocalPublisherConfig, StaticConfig, SubscriberDetails, UnableToDeliverStrategy,
    UniquePublisherId, UniqueSubscriberId,
};

fn service_config(history_size: usize, max_subscribers: usize, buf: usize, overflow: bool) -> StaticConfig {
    StaticConfig {
        history_size,
        max_subscribers,
        max_publishers: 4,
        subscriber_max_buffer_size: buf,
        enable_safe_overflow: overflow,
        type_size: 8,
        type_align: 8,
    }
}

fn publisher_config(max_loaned_samples: usize, max_slice_len: usize) -> LocalPublisherConfig {
    LocalPublisherConfig {
        max_loaned_samples,
        max_slice_len,
        unable_to_deliver_strategy: UnableToDeliverStrategy::DiscardSample,
        degration_action: None,
    }
}

fn make_publisher(
    static_config: &StaticConfig,
    config: LocalPublisherConfig,
    subscribers: &SubscriberList,
    registry: &mut PublisherRegistry,
) -> Publisher {
    Publisher::new(UniquePublisherId { value: 42 }, static_config, config, subscribers, registry)
        .unwrap()
}

fn bytes_of(v: u64) -> Vec<u8> {
    v.to_le_bytes().to_vec()
}

#[test]
fn when_going_out_of_scope_it_is_released() {
    let cfg = service_config(0, 1, 2, false);
    let subscribers = SubscriberList::new(1);
    let mut registry = PublisherRegistry::new(4);
    let mut p = make_publisher(&cfg, publisher_config(1, 1), &subscribers, &mut registry);

    let sample = p.loan().unwrap();
    let offset = sample.offset;
    assert_eq!(p.data_segment.loan_counter, 1);
    // the loan bound is reached, a second loan is refused
    assert_eq!(p.loan().unwrap_err(), PublisherLoanError::ExceedsMaxLoanedChunks);
    // releasing the sample frees its chunk
    p.return_loaned_sample(sample);
    assert_eq!(p.data_segment.loan_counter, 0);
    assert_eq!(p.data_segment.reference_counter(offset / p.data_segment.payload_size), 0);
    assert!(p.loan().is_ok());
}

#[test]
fn header_tracks_correct_origin() {
    let cfg = service_config(0, 1, 2, false);
    let subscribers = SubscriberList::new(1);
    let mut registry = PublisherRegistry::new(4);
    let mut p = make_publisher(&cfg, publisher_config(2, 1), &subscribers, &mut registry);

    let sample = p.loan().unwrap();
    assert_eq!(p.header(&sample).publisher_id(), p.id());
}

#[test]
fn write_payload_works() {
    let cfg = service_config(0, 1, 2, false);
    let subscribers = SubscriberList::new(1);
    let mut registry = PublisherRegistry::new(4);
    let mut p = make_publisher(&cfg, publisher_config(2, 1), &subscribers, &mut registry);

    let sample = p.loan().unwrap();
    p.write_payload(&sample, bytes_of(891283689123555));
    assert_eq!(p.payload_at(sample.offset), &bytes_of(891283689123555));
    p.write_payload(&sample, bytes_of(71820));
    assert_eq!(p.payload_at(sample.offset), &bytes_of(71820));
}

#[test]
fn assume_init_works() {
    let cfg = service_config(0, 1, 2, false);
    let subscribers = SubscriberList::new(1);
    let mut registry = PublisherRegistry::new(4);
    let mut p = make_publisher(&cfg, publisher_config(2, 1), &subscribers, &mut registry);

    let sample = p.loan_uninit().unwrap();
    assert_eq!(p.payload_at(sample.offset).len(), 8);
    p.write_payload(&sample, bytes_of(7182055123));
    assert_eq!(p.payload_at(sample.offset), &bytes_of(7182055123));
}

#[test]
fn send_works() {
    let cfg = service_config(0, 1, 2, false);
    let mut subscribers = SubscriberList::new(1);
    let mut registry = PublisherRegistry::new(4);
    let mut p = make_publisher(&cfg, publisher_config(2, 1), &subscribers, &mut registry);

    let slot = subscribers
        .add(SubscriberDetails { port_id: UniqueSubscriberId { value: 7 }, buffer_size: 2 })
        .unwrap();
    let recipients = p.send_copy(bytes_of(3215357), &subscribers).unwrap();
    assert_eq!(recipients, 1);
    let offset = p.data_segment.subscriber_receive(slot).unwrap();
    assert_eq!(p.payload_at(offset), &bytes_of(3215357));
}

#[test]
fn basic_delivery_is_byte_identical() {
    let cfg = service_config(0, 1, 2, false);
    let mut subscribers = SubscriberList::new(1);
    let mut registry = PublisherRegistry::new(4);
    let mut p = make_publisher(&cfg, publisher_config(5, 1), &subscribers, &mut registry);

    let slot = subscribers
        .add(SubscriberDetails { port_id: UniqueSubscriberId { value: 9 }, buffer_size: 2 })
        .unwrap();
    assert_eq!(p.send_copy(bytes_of(1234), &subscribers).unwrap(), 1);
    let offset = p.data_segment.subscriber_receive(slot).unwrap();
    assert_eq!(p.payload_at(offset), &bytes_of(1234));
}

#[test]
fn loan_exhaustion_and_recovery() {
    let cfg = service_config(0, 1, 2, false);
    let subscribers = SubscriberList::new(1);
    let mut registry = PublisherRegistry::new(4);
    let mut p = make_publisher(&cfg, publisher_config(5, 1), &subscribers, &mut registry);

    let mut samples = Vec::new();
    for _ in 0..5 {
        samples.push(p.loan().unwrap());
    }
    assert_eq!(p.loan().unwrap_err(), PublisherLoanError::ExceedsMaxLoanedChunks);
    for s in samples {
        p.return_loaned_sample(s);
    }
    assert!(p.loan().is_ok());
}

#[test]
fn loan_slice_boundaries() {
    let cfg = service_config(0, 1, 2, false);
    let subscribers = SubscriberList::new(1);
    let mut registry = PublisherRegistry::new(4);
    let mut p = make_publisher(&cfg, publisher_config(4, 16), &subscribers, &mut registry);

    let sample = p.loan_slice(16).unwrap();
    assert_eq!(sample.number_of_elements, 16);
    assert_eq!(p.payload_at(sample.offset).len(), 16 * 8);
    assert_eq!(p.loan_slice(17).unwrap_err(), PublisherLoanError::ExceedsMaxLoanSize);
    assert_eq!(p.loan_slice_uninit(17).unwrap_err(), PublisherLoanError::ExceedsMaxLoanSize);
    assert!(p.loan_slice_uninit(16).is_ok());
}

#[test]
fn history_replays_most_recent_sends_in_order() {
    let cfg = service_config(3, 1, 8, false);
    let mut subscribers = SubscriberList::new(1);
    let mut registry = PublisherRegistry::new(4);
    let mut p = make_publisher(&cfg, publisher_config(2, 1), &subscribers, &mut registry);

    let mut sent = Vec::new();
    for v in 1u64..=5 {
        let sample = p.loan().unwrap();
        p.write_payload(&sample, bytes_of(v));
        sent.push(sample.offset);
        assert_eq!(p.send(sample, &subscribers).unwrap(), 0);
    }
    // only the most recent three offsets are retained; the evicted chunks
    // are free again — the history holds the only references left
    assert_eq!(p.data_segment.history_len(), 3);
    assert_eq!(p.data_segment.reference_counter(sent[1] / p.data_segment.payload_size), 0);
    let mut total: u64 = 0;
    for i in 0..p.data_segment.number_of_samples {
        total += p.data_segment.reference_counter(i);
    }
    assert_eq!(total, 3);

    let slot = subscribers
        .add(SubscriberDetails { port_id: UniqueSubscriberId { value: 3 }, buffer_size: 8 })
        .unwrap();
    p.update_connections(&subscribers).unwrap();
    for v in 3u64..=5 {
        let offset = p.data_segment.subscriber_receive(slot).unwrap();
        assert_eq!(p.payload_at(offset), &bytes_of(v));
    }
    assert!(p.data_segment.subscriber_receive(slot).is_none());
}

#[test]
fn unchanged_subscriber_set_is_a_noop() {
    let cfg = service_config(2, 1, 4, false);
    let mut subscribers = SubscriberList::new(1);
    let mut registry = PublisherRegistry::new(4);
    let mut p = make_publisher(&cfg, publisher_config(2, 1), &subscribers, &mut registry);

    let slot = subscribers
        .add(SubscriberDetails { port_id: UniqueSubscriberId { value: 5 }, buffer_size: 4 })
        .unwrap();
    assert_eq!(p.send_copy(bytes_of(11), &subscribers).unwrap(), 1);
    let first = p.data_segment.subscriber_receive(slot).unwrap();
    assert_eq!(p.payload_at(first), &bytes_of(11));
    // nothing changed: reconciling again neither rewires nor replays
    p.update_connections(&subscribers).unwrap();
    p.update_connections(&subscribers).unwrap();
    assert!(p.data_segment.subscriber_receive(slot).is_none());
}

#[test]
fn backpressure_discards_at_full_ring() {
    let cfg = service_config(0, 1, 2, false);
    let mut subscribers = SubscriberList::new(1);
    let mut registry = PublisherRegistry::new(4);
    let mut p = make_publisher(&cfg, publisher_config(4, 1), &subscribers, &mut registry);

    subscribers
        .add(SubscriberDetails { port_id: UniqueSubscriberId { value: 2 }, buffer_size: 2 })
        .unwrap();
    // the ring holds two offsets; a third send finds it full and drops
    assert_eq!(p.send_copy(bytes_of(1), &subscribers).unwrap(), 1);
    assert_eq!(p.send_copy(bytes_of(2), &subscribers).unwrap(), 1);
    assert_eq!(p.send_copy(bytes_of(3), &subscribers).unwrap(), 0);
}

#[test]
fn overflow_displaces_oldest() {
    let cfg = service_config(0, 1, 2, true);
    let mut subscribers = SubscriberList::new(1);
    let mut registry = PublisherRegistry::new(4);
    let mut p = make_publisher(&cfg, publisher_config(4, 1), &subscribers, &mut registry);

    let slot = subscribers
        .add(SubscriberDetails { port_id: UniqueSubscriberId { value: 2 }, buffer_size: 2 })
        .unwrap();
    for v in 1u64..=3 {
        assert_eq!(p.send_copy(bytes_of(v), &subscribers).unwrap(), 1);
    }
    // the oldest entry was displaced; the subscriber sees 2 and 3
    let second = p.data_segment.subscriber_receive(slot).unwrap();
    assert_eq!(p.payload_at(second), &bytes_of(2));
    let third = p.data_segment.subscriber_receive(slot).unwrap();
    assert_eq!(p.payload_at(third), &bytes_of(3));
}

#[test]
fn removing_a_subscriber_reclaims_its_chunks() {
    let cfg = service_config(0, 1, 4, false);
    let mut subscribers = SubscriberList::new(1);
    let mut registry = PublisherRegistry::new(4);
    let mut p = make_publisher(&cfg, publisher_config(2, 1), &subscribers, &mut registry);

    let slot = subscribers
        .add(SubscriberDetails { port_id: UniqueSubscriberId { value: 6 }, buffer_size: 4 })
        .unwrap();
    assert_eq!(p.send_copy(bytes_of(1), &subscribers).unwrap(), 1);
    assert_eq!(p.send_copy(bytes_of(2), &subscribers).unwrap(), 1);
    // the subscriber received both chunks but never returned them
    let o1 = p.data_segment.subscriber_receive(slot).unwrap();
    let o2 = p.data_segment.subscriber_receive(slot).unwrap();
    assert_eq!(p.data_segment.reference_counter(o1 / p.data_segment.payload_size), 1);
    assert_eq!(p.data_segment.reference_counter(o2 / p.data_segment.payload_size), 1);
    // it dies: the reconciler clears the slot and reclaims everything
    subscribers.remove(slot);
    p.update_connections(&subscribers).unwrap();
    assert_eq!(p.data_segment.reference_counter(o1 / p.data_segment.payload_size), 0);
    assert_eq!(p.data_segment.reference_counter(o2 / p.data_segment.payload_size), 0);
}

#[test]
fn returned_chunks_are_reclaimed_on_next_send() {
    let cfg = service_config(0, 1, 2, false);
    let mut subscribers = SubscriberList::new(1);
    let mut registry = PublisherRegistry::new(4);
    let mut p = make_publisher(&cfg, publisher_config(2, 1), &subscribers, &mut registry);

    let slot = subscribers
        .add(SubscriberDetails { port_id: UniqueSubscriberId { value: 8 }, buffer_size: 2 })
        .unwrap();
    assert_eq!(p.send_copy(bytes_of(10), &subscribers).unwrap(), 1);
    let offset = p.data_segment.subscriber_receive(slot).unwrap();
    assert!(p.data_segment.subscriber_release(slot, offset));
    assert_eq!(p.data_segment.reference_counter(offset / p.data_segment.payload_size), 1);
    // the next send reaps the returned offset before delivering
    assert_eq!(p.send_copy(bytes_of(11), &subscribers).unwrap(), 1);
    let next = p.data_segment.subscriber_receive(slot).unwrap();
    assert_eq!(p.payload_at(next), &bytes_of(11));
}

#[test]
fn inactive_publisher_refuses_to_send() {
    let cfg = service_config(0, 1, 2, false);
    let subscribers = SubscriberList::new(1);
    let mut registry = PublisherRegistry::new(4);
    let mut p = make_publisher(&cfg, publisher_config(2, 1), &subscribers, &mut registry);

    p.deregister(&mut registry);
    let err = p.send_copy(bytes_of(1), &subscribers).unwrap_err();
    assert_eq!(err, PublisherSendError::ConnectionBrokenSincePublisherNoLongerExists);
}

#[test]
fn corrupted_connection_follows_degradation_policy() {
    let cfg = service_config(0, 1, 2, false);
    let mut subscribers = SubscriberList::new(1);
    let mut registry = PublisherRegistry::new(4);
    let mut config = publisher_config(4, 1);
    config.degration_action = Some(DegrationAction::Fail);
    let mut p = make_publisher(&cfg, config, &subscribers, &mut registry);

    let slot = subscribers
        .add(SubscriberDetails { port_id: UniqueSubscriberId { value: 4 }, buffer_size: 2 })
        .unwrap();
    assert_eq!(p.send_copy(bytes_of(1), &subscribers).unwrap(), 1);
    p.data_segment.mark_connection_corrupted(slot);
    let err = p.send_copy(bytes_of(2), &subscribers).unwrap_err();
    assert_eq!(err, PublisherSendError::ConnectionCorrupted);
}

#[test]
fn corrupted_connection_is_skipped_without_fail_policy() {
    let cfg = service_config(0, 1, 2, false);
    let mut subscribers = SubscriberList::new(1);
    let mut registry = PublisherRegistry::new(4);
    let mut config = publisher_config(4, 1);
    config.degration_action = Some(DegrationAction::Warn);
    let mut p = make_publisher(&cfg, config, &subscribers, &mut registry);

    let slot = subscribers
        .add(SubscriberDetails { port_id: UniqueSubscriberId { value: 4 }, buffer_size: 2 })
        .unwrap();
    assert_eq!(p.send_copy(bytes_of(1), &subscribers).unwrap(), 1);
    p.data_segment.mark_connection_corrupted(slot);
    assert_eq!(p.send_copy(bytes_of(2), &subscribers).unwrap(), 0);
}

#[test]
fn unbuildable_connection_fails_reconciliation_under_fail_policy() {
    let cfg = service_config(0, 1, 2, false);
    let mut subscribers = SubscriberList::new(1);
    let mut registry = PublisherRegistry::new(4);
    let mut config = publisher_config(2, 1);
    config.degration_action = Some(DegrationAction::Fail);
    let mut p = make_publisher(&cfg, config, &subscribers, &mut registry);

    // a subscriber asking for a zero-sized ring cannot be wired
    subscribers
        .add(SubscriberDetails { port_id: UniqueSubscriberId { value: 4 }, buffer_size: 0 })
        .unwrap();
    let err = p.send_copy(bytes_of(1), &subscribers).unwrap_err();
    assert_eq!(
        err,
        PublisherSendError::ConnectionError(ConnectionFailure::UnableToEstablishConnection)
    );
    // the failed attempt consumed the change: reconciling again is a no-op
    // and later sends go out, with the subscriber left unwired
    p.update_connections(&subscribers).unwrap();
    assert_eq!(p.send_copy(bytes_of(2), &subscribers).unwrap(), 0);
}

#[test]
fn out_of_memory_when_subscriber_hoards_chunks() {
    let cfg = service_config(0, 1, 1, false);
    let mut subscribers = SubscriberList::new(1);
    let mut registry = PublisherRegistry::new(4);
    let mut p = make_publisher(&cfg, publisher_config(1, 1), &subscribers, &mut registry);

    // two buckets in total; the subscriber receives and keeps both
    let slot = subscribers
        .add(SubscriberDetails { port_id: UniqueSubscriberId { value: 1 }, buffer_size: 1 })
        .unwrap();
    assert_eq!(p.send_copy(bytes_of(1), &subscribers).unwrap(), 1);
    p.data_segment.subscriber_receive(slot).unwrap();
    assert_eq!(p.send_copy(bytes_of(2), &subscribers).unwrap(), 1);
    p.data_segment.subscriber_receive(slot).unwrap();
    let err = p.loan().unwrap_err();
    assert_eq!(err, PublisherLoanError::OutOfMemory);
}

#[test]
fn registry_capacity_bounds_publishers() {
    let mut cfg = service_config(0, 1, 2, false);
    cfg.max_publishers = 1;
    let subscribers = SubscriberList::new(1);
    let mut registry = PublisherRegistry::new(1);
    let _first = make_publisher(&cfg, publisher_config(1, 1), &subscribers, &mut registry);
    let second = Publisher::new(
        UniquePublisherId { value: 43 },
        &cfg,
        publisher_config(1, 1),
        &subscribers,
        &mut registry,
    );
    let err = match second {
        Err(e) => e,
        Ok(_) => panic!("a second publisher must not fit the registry"),
    };
    assert_eq!(err, PublisherCreateError::ExceedsMaxSupportedPublishers);
}

#[test]
fn oversized_segment_is_refused() {
    let cfg = service_config(0, 1, 2, false);
    let subscribers = SubscriberList::new(1);
    let mut registry = PublisherRegistry::new(4);
    let r = Publisher::new(
        UniquePublisherId { value: 44 },
        &cfg,
        publisher_config(usize::MAX, 1),
        &subscribers,
        &mut registry,
    );
    let err = match r {
        Err(e) => e,
        Ok(_) => panic!("an oversized segment must be refused"),
    };
    assert_eq!(err, PublisherCreateError::UnableToCreateDataSegment);
}

#[test]
fn counters_account_for_every_reference() {
    let cfg = service_config(2, 1, 2, false);
    let mut subscribers = SubscriberList::new(1);
    let mut registry = PublisherRegistry::new(4);
    let mut p = make_publisher(&cfg, publisher_config(2, 1), &subscribers, &mut registry);

    let slot = subscribers
        .add(SubscriberDetails { port_id: UniqueSubscriberId { value: 2 }, buffer_size: 2 })
        .unwrap();
    assert_eq!(p.send_copy(bytes_of(1), &subscribers).unwrap(), 1);
    let loaned = p.loan().unwrap();
    // total references: one loan, one history entry, one ring entry
    let mut total: u64 = 0;
    for i in 0..p.data_segment.number_of_samples {
        total += p.data_segment.reference_counter(i);
    }
    assert_eq!(total, 3);
    let offset = p.data_segment.subscriber_receive(slot).unwrap();
    assert!(p.data_segment.subscriber_release(slot, offset));
    p.return_loaned_sample(loaned);
    // reclaim drains the returned offset; only the history entry remains
    let next = p.loan().unwrap();
    p.return_loaned_sample(next);
    let mut total_after: u64 = 0;
    for i in 0..p.data_segment.number_of_samples {
        total_after += p.data_segment.reference_counter(i);
    }
    assert_eq!(total_after, 1);
}

#[test]
fn sample_of_dropped_publisher_does_not_block_new_publishers() {
    let mut cfg = service_config(0, 1, 2, false);
    cfg.max_publishers = 1;
    let subscribers = SubscriberList::new(1);
    let mut registry = PublisherRegistry::new(1);
    let mut p1 = make_publisher(&cfg, publisher_config(1, 1), &subscribers, &mut registry);
    let _sample = p1.loan().unwrap();
    p1.deregister(&mut registry);
    // the retired publisher's outstanding sample does not occupy the registry
    let p2 = Publisher::new(
        UniquePublisherId { value: 77 },
        &cfg,
        publisher_config(1, 1),
        &subscribers,
        &mut registry,
    );
    assert!(p2.is_ok());
}
