use publisher_core::header::{
    iox2_publish_subscribe_header_storage_t, iox2_publish_subscribe_header_t, Header,
};
use publisher_core::types::{PayloadLayout, UniquePublisherId};

#[test]
fn header_wire_form_round_trips() {
    let h = Header::new(
        UniquePublisherId { value: 0x0011_2233_4455_6677_8899_aabb_ccdd_eeffu128 },
        PayloadLayout { size: 24, align: 8 },
    );
    let bytes = h.to_bytes();
    assert_eq!(bytes.len(), 32);
    // little-endian: the lowest byte of the id comes first
    assert_eq!(bytes[0], 0xff);
    assert_eq!(bytes[15], 0x00);
    assert_eq!(bytes[16], 24);
    assert_eq!(bytes[24], 8);
    let back = Header::from_bytes(&bytes).unwrap();
    assert_eq!(back, h);
}

#[test]
fn header_wire_form_refuses_wrong_length() {
    assert!(Header::from_bytes(&vec![0u8; 31]).is_none());
    assert!(Header::from_bytes(&vec![0u8; 33]).is_none());
}

#[test]
fn header_storage_init_and_read_back() {
    let h = Header::new(UniquePublisherId { value: 7 }, PayloadLayout { size: 8, align: 8 });
    let mut cell = iox2_publish_subscribe_header_storage_t::default();
    assert!(cell.internal.is_none());
    cell.init(h);
    assert_eq!(cell.as_ref().publisher_id(), UniquePublisherId { value: 7 });
    assert_eq!(cell.as_ref().payload_type_layout().size, 8);

    let mut handle_storage = iox2_publish_subscribe_header_t::default();
    handle_storage.init(h);
    assert_eq!(handle_storage.value.as_ref().payload_type_layout().align, 8);
}
