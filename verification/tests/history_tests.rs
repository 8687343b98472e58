use publisher_core::history::HistoryBuffer;

#[test]
fn history_keeps_order_and_evicts_oldest() {
    let mut h = HistoryBuffer::new(3);
    assert_eq!(h.len(), 0);
    assert_eq!(h.push(10), None);
    assert_eq!(h.push(20), None);
    assert_eq!(h.push(30), None);
    assert_eq!(h.len(), 3);
    assert_eq!(h.get(0), 10);
    assert_eq!(h.get(1), 20);
    assert_eq!(h.get(2), 30);
    // a full history evicts its oldest entry
    assert_eq!(h.push(40), Some(10));
    assert_eq!(h.len(), 3);
    assert_eq!(h.get(0), 20);
    assert_eq!(h.get(1), 30);
    assert_eq!(h.get(2), 40);
}

#[test]
fn history_of_one_always_holds_the_newest() {
    let mut h = HistoryBuffer::new(1);
    assert_eq!(h.push(1), None);
    assert_eq!(h.push(2), Some(1));
    assert_eq!(h.push(3), Some(2));
    assert_eq!(h.len(), 1);
    assert_eq!(h.get(0), 3);
}
