//! The sample header stamped into the first bytes of every chunk, and the
//! C-API-facing storage types that carry it across the language boundary.

#![allow(non_camel_case_types)]

use vstd::prelude::*;

use crate::types::{PayloadLayout, UniquePublisherId};

verus! {

/// Per-chunk metadata, written exactly once per loan, before the chunk can be
/// observed by any subscriber.
#[derive(Clone, Copy, Debug, PartialEq, Eq, Structural)]
pub struct Header {
    pub publisher_id: UniquePublisherId,
    pub payload_size: u64,
    pub payload_align: u64,
}

impl Header {
    pub fn new(publisher_id: UniquePublisherId, payload_layout: PayloadLayout) -> (r: Header)
        ensures
            r.publisher_id == publisher_id,
            r.payload_size == payload_layout.size,
            r.payload_align == payload_layout.align,
    {
        Header {
            publisher_id,
            payload_size: payload_layout.size,
            payload_align: payload_layout.align,
        }
    }

    /// The id of the publisher port the sample originates from.
    pub fn publisher_id(&self) -> (r: UniquePublisherId)
        ensures
            r == self.publisher_id,
    {
        self.publisher_id
    }

    /// Size and alignment of the payload carried behind this header.
    pub fn payload_type_layout(&self) -> (r: PayloadLayout)
        ensures
            r.size == self.payload_size,
            r.align == self.payload_align,
    {
        PayloadLayout { size: self.payload_size, align: self.payload_align }
    }
}

/// The byte at position `k` of the little-endian encoding of `v`.
pub open spec fn le_byte_u64(v: u64, k: int) -> u8 {
    ((v >> (8 * k)) & 0xff) as u8
}

/// The byte at position `k` of the little-endian encoding of `v`.
pub open spec fn le_byte_u128(v: u128, k: int) -> u8 {
    ((v >> (8 * k)) & 0xff) as u8
}

/// The wire form of a header: 16 bytes publisher id, 8 bytes payload size,
/// 8 bytes payload alignment, all little-endian.
pub open spec fn spec_header_bytes(h: Header) -> Seq<u8> {
    Seq::new(16, |k: int| le_byte_u128(h.publisher_id.value, k)) + Seq::new(
        8,
        |k: int| le_byte_u64(h.payload_size, k),
    ) + Seq::new(8, |k: int| le_byte_u64(h.payload_align, k))
}

impl Header {
    /// The header's fixed 32-byte wire form, identical on every port of the
    /// service.
    pub fn to_bytes(&self) -> (r: Vec<u8>)
        ensures
            r@ == spec_header_bytes(*self),
            r@.len() == 32,
    {
        let mut r: Vec<u8> = Vec::new();
        let mut k: usize = 0;
        while k < 16
            invariant
                k <= 16,
                r@.len() == k,
                forall|t: int| 0 <= t < k ==> r@[t] == le_byte_u128(self.publisher_id.value, t),
            decreases 16 - k,
        {
            let b = ((self.publisher_id.value >> ((8 * k) as u32)) & 0xff) as u8;
            proof {
                assert(b == le_byte_u128(self.publisher_id.value, k as int));
            }
            r.push(b);
            k += 1;
        }
        let mut k: usize = 0;
        while k < 8
            invariant
                k <= 8,
                r@.len() == 16 + k,
                forall|t: int| 0 <= t < 16 ==> r@[t] == le_byte_u128(self.publisher_id.value, t),
                forall|t: int| 0 <= t < k ==> r@[16 + t] == le_byte_u64(self.payload_size, t),
            decreases 8 - k,
        {
            r.push(((self.payload_size >> ((8 * k) as u32)) & 0xff) as u8);
            k += 1;
        }
        let mut k: usize = 0;
        while k < 8
            invariant
                k <= 8,
                r@.len() == 24 + k,
                forall|t: int| 0 <= t < 16 ==> r@[t] == le_byte_u128(self.publisher_id.value, t),
                forall|t: int| 0 <= t < 8 ==> r@[16 + t] == le_byte_u64(self.payload_size, t),
                forall|t: int| 0 <= t < k ==> r@[24 + t] == le_byte_u64(self.payload_align, t),
            decreases 8 - k,
        {
            r.push(((self.payload_align >> ((8 * k) as u32)) & 0xff) as u8);
            k += 1;
        }
        proof {
            assert(r@ =~= spec_header_bytes(*self));
        }
        r
    }

    /// Reads a header back from its wire form; anything but 32 bytes is
    /// refused, and the wire form of a header always decodes to that header.
    pub fn from_bytes(bytes: &Vec<u8>) -> (r: Option<Header>)
        ensures
            bytes@.len() != 32 <==> r is None,
            forall|h: Header| bytes@ == spec_header_bytes(h) ==> r == Some(h),
    {
        if bytes.len() != 32 {
            return None;
        }
        let mut pid: u128 = 0;
        proof {
            assert(0u128 >> 0 == 0) by (bit_vector);
        }
        let mut k: usize = 0;
        while k < 16
            invariant
                k <= 16,
                bytes@.len() == 32,
                pid >> (8 * k) == 0,
                forall|h: Header|
                    (forall|t: int| 0 <= t < 16 ==> bytes@[t] == le_byte_u128(
                        h.publisher_id.value,
                        t,
                    )) ==> #[trigger] low_bits_match(pid, h.publisher_id.value, k as int),
            decreases 16 - k,
        {
            let b = bytes[k];
            proof {
                let kk = k as u128;
                assert forall|h: Header|
                    (forall|t: int| 0 <= t < 16 ==> bytes@[t] == le_byte_u128(
                        h.publisher_id.value,
                        t,
                    )) implies #[trigger] low_bits_match(
                    (pid | ((b as u128) << (8 * kk))) as u128,
                    h.publisher_id.value,
                    k as int + 1,
                ) by {
                    assert(low_bits_match(pid, h.publisher_id.value, k as int));
                    assert(b == le_byte_u128(h.publisher_id.value, k as int));
                    lemma_u128_extend(pid, b, h.publisher_id.value, k as u128);
                }
                assert((pid | ((b as u128) << (8 * kk))) >> (8 * (kk + 1)) == 0) by {
                    lemma_u128_stays_low(pid, b, k as u128);
                }
            }
            pid = pid | ((b as u128) << ((8 * k) as u32));
            k += 1;
        }
        let size = read_u64_le(bytes, 16);
        let align = read_u64_le(bytes, 24);
        let r = Header { publisher_id: UniquePublisherId { value: pid }, payload_size: size, payload_align: align };
        proof {
            assert forall|h: Header| bytes@ == spec_header_bytes(h) implies Some(r) == Some(
                h,
            ) by {
                assert(forall|t: int|
                    0 <= t < 16 ==> bytes@[t] == le_byte_u128(h.publisher_id.value, t));
                assert(low_bits_match(pid, h.publisher_id.value, 16));
                lemma_u128_complete(pid, h.publisher_id.value);
                assert(forall|t: int| 0 <= t < 8 ==> bytes@[16 + t] == le_byte_u64(
                    h.payload_size,
                    t,
                ));
                lemma_u64_le_round_trip(h.payload_size, bytes@, 16);
                assert(forall|t: int| 0 <= t < 8 ==> bytes@[24 + t] == le_byte_u64(
                    h.payload_align,
                    t,
                ));
                lemma_u64_le_round_trip(h.payload_align, bytes@, 24);
            }
        }
        Some(r)
    }
}

/// The lowest `8 * k` bits of `a` and `b` agree.
pub open spec fn low_bits_match(a: u128, b: u128, k: int) -> bool {
    forall|t: int| 0 <= t < k ==> le_byte_u128(a, t) == le_byte_u128(b, t)
}

/// Folding in byte `k` of `v` extends the agreement by one byte.
proof fn lemma_u128_extend(acc: u128, b: u8, v: u128, k: u128)
    requires
        k < 16,
        acc >> (8 * k) == 0,
        forall|t: int| 0 <= t < k ==> le_byte_u128(acc, t) == le_byte_u128(v, t),
        b == ((v >> (8 * k)) & 0xff) as u8,
    ensures
        forall|t: int|
            0 <= t < k + 1 ==> le_byte_u128((acc | ((b as u128) << (8 * k))) as u128, t)
                == le_byte_u128(v, t),
{
    assert forall|t: int|
        0 <= t < k + 1 implies le_byte_u128((acc | ((b as u128) << (8 * k))) as u128, t)
        == le_byte_u128(v, t) by {
        let tt = t as u128;
        if t < k {
            assert(((acc | (((((v >> (8 * k)) & 0xff) as u8) as u128) << (8 * k))) >> (8 * tt))
                & 0xff == (acc >> (8 * tt)) & 0xff) by (bit_vector)
                requires tt < k, k < 16;
        } else {
            assert(((acc | (((((v >> (8 * k)) & 0xff) as u8) as u128) << (8 * k))) >> (8 * k))
                & 0xff == (v >> (8 * k)) & 0xff) by (bit_vector)
                requires k < 16, acc >> (8 * k) == 0;
            assert(tt == k);
        }
    }
}

/// Folding in a byte keeps everything above it zero.
proof fn lemma_u128_stays_low(acc: u128, b: u8, k: u128)
    requires
        k < 16,
        acc >> (8 * k) == 0,
    ensures
        (acc | ((b as u128) << (8 * k))) >> (8 * (k + 1)) == 0,
{
    assert((acc | ((b as u128) << (8 * k))) >> (8 * (k + 1)) == 0) by (bit_vector)
        requires k < 16, acc >> (8 * k) == 0;
}

/// Two values agreeing on all sixteen bytes are equal.
proof fn lemma_u128_complete(a: u128, v: u128)
    requires
        low_bits_match(a, v, 16),
    ensures
        a == v,
{
    assert(le_byte_u128(a, 0) == le_byte_u128(v, 0));
    assert(le_byte_u128(a, 1) == le_byte_u128(v, 1));
    assert(le_byte_u128(a, 2) == le_byte_u128(v, 2));
    assert(le_byte_u128(a, 3) == le_byte_u128(v, 3));
    assert(le_byte_u128(a, 4) == le_byte_u128(v, 4));
    assert(le_byte_u128(a, 5) == le_byte_u128(v, 5));
    assert(le_byte_u128(a, 6) == le_byte_u128(v, 6));
    assert(le_byte_u128(a, 7) == le_byte_u128(v, 7));
    assert(le_byte_u128(a, 8) == le_byte_u128(v, 8));
    assert(le_byte_u128(a, 9) == le_byte_u128(v, 9));
    assert(le_byte_u128(a, 10) == le_byte_u128(v, 10));
    assert(le_byte_u128(a, 11) == le_byte_u128(v, 11));
    assert(le_byte_u128(a, 12) == le_byte_u128(v, 12));
    assert(le_byte_u128(a, 13) == le_byte_u128(v, 13));
    assert(le_byte_u128(a, 14) == le_byte_u128(v, 14));
    assert(le_byte_u128(a, 15) == le_byte_u128(v, 15));
    assert(a == v) by (bit_vector)
        requires
            ((a >> 0) & 0xff) as u8 == ((v >> 0) & 0xff) as u8,
            ((a >> 8) & 0xff) as u8 == ((v >> 8) & 0xff) as u8,
            ((a >> 16) & 0xff) as u8 == ((v >> 16) & 0xff) as u8,
            ((a >> 24) & 0xff) as u8 == ((v >> 24) & 0xff) as u8,
            ((a >> 32) & 0xff) as u8 == ((v >> 32) & 0xff) as u8,
            ((a >> 40) & 0xff) as u8 == ((v >> 40) & 0xff) as u8,
            ((a >> 48) & 0xff) as u8 == ((v >> 48) & 0xff) as u8,
            ((a >> 56) & 0xff) as u8 == ((v >> 56) & 0xff) as u8,
            ((a >> 64) & 0xff) as u8 == ((v >> 64) & 0xff) as u8,
            ((a >> 72) & 0xff) as u8 == ((v >> 72) & 0xff) as u8,
            ((a >> 80) & 0xff) as u8 == ((v >> 80) & 0xff) as u8,
            ((a >> 88) & 0xff) as u8 == ((v >> 88) & 0xff) as u8,
            ((a >> 96) & 0xff) as u8 == ((v >> 96) & 0xff) as u8,
            ((a >> 104) & 0xff) as u8 == ((v >> 104) & 0xff) as u8,
            ((a >> 112) & 0xff) as u8 == ((v >> 112) & 0xff) as u8,
            ((a >> 120) & 0xff) as u8 == ((v >> 120) & 0xff) as u8,
    ;
}

/// Eight little-endian bytes starting at `at`, assembled into a value.
pub open spec fn u64_from_bytes(s: Seq<u8>, at: int) -> u64 {
    (s[at] as u64) | ((s[at + 1] as u64) << 8) | ((s[at + 2] as u64) << 16) | ((s[at + 3] as u64)
        << 24) | ((s[at + 4] as u64) << 32) | ((s[at + 5] as u64) << 40) | ((s[at + 6] as u64)
        << 48) | ((s[at + 7] as u64) << 56)
}

/// Assembling the little-endian bytes of a value gives the value back.
pub proof fn lemma_u64_le_round_trip(v: u64, s: Seq<u8>, at: int)
    requires
        forall|t: int| 0 <= t < 8 ==> s[at + t] == le_byte_u64(v, t),
    ensures
        u64_from_bytes(s, at) == v,
{
    assert(s[at + 0] == le_byte_u64(v, 0));
    assert(s[at + 1] == le_byte_u64(v, 1));
    assert(s[at + 2] == le_byte_u64(v, 2));
    assert(s[at + 3] == le_byte_u64(v, 3));
    assert(s[at + 4] == le_byte_u64(v, 4));
    assert(s[at + 5] == le_byte_u64(v, 5));
    assert(s[at + 6] == le_byte_u64(v, 6));
    assert(s[at + 7] == le_byte_u64(v, 7));
    let b0 = s[at];
    let b1 = s[at + 1];
    let b2 = s[at + 2];
    let b3 = s[at + 3];
    let b4 = s[at + 4];
    let b5 = s[at + 5];
    let b6 = s[at + 6];
    let b7 = s[at + 7];
    assert((b0 as u64) | ((b1 as u64) << 8) | ((b2 as u64) << 16) | ((b3 as u64) << 24) | ((
    b4 as u64) << 32) | ((b5 as u64) << 40) | ((b6 as u64) << 48) | ((b7 as u64) << 56) == v)
        by (bit_vector)
        requires
            b0 == ((v >> 0) & 0xff) as u8,
            b1 == ((v >> 8) & 0xff) as u8,
            b2 == ((v >> 16) & 0xff) as u8,
            b3 == ((v >> 24) & 0xff) as u8,
            b4 == ((v >> 32) & 0xff) as u8,
            b5 == ((v >> 40) & 0xff) as u8,
            b6 == ((v >> 48) & 0xff) as u8,
            b7 == ((v >> 56) & 0xff) as u8,
    ;
}

/// Reads eight little-endian bytes starting at `at` back into a value.
fn read_u64_le(bytes: &Vec<u8>, at: usize) -> (r: u64)
    requires
        at + 8 <= bytes@.len(),
    ensures
        r == u64_from_bytes(bytes@, at as int),
{
    let n = bytes.len();
    (bytes[at] as u64) | ((bytes[at + 1] as u64) << 8u32) | ((bytes[at + 2] as u64) << 16u32) | ((
    bytes[at + 3] as u64) << 24u32) | ((bytes[at + 4] as u64) << 32u32) | ((bytes[at + 5] as u64)
        << 40u32) | ((bytes[at + 6] as u64) << 48u32) | ((bytes[at + 7] as u64) << 56u32)
}

/// Storage cell for a header that may not have been written yet.
pub struct iox2_publish_subscribe_header_storage_t {
    pub internal: Option<Header>,
}

impl iox2_publish_subscribe_header_storage_t {
    pub fn init(&mut self, header: Header)
        ensures
            final(self).internal == Some(header),
    {
        self.internal = Some(header);
    }

    pub fn as_ref(&self) -> (r: &Header)
        requires
            self.internal is Some,
        ensures
            *r == self.internal->0,
    {
        match &self.internal {
            Some(h) => h,
            None => unreached(),
        }
    }
}

impl Default for iox2_publish_subscribe_header_storage_t {
    fn default() -> (r: Self)
        ensures
            r.internal is None,
    {
        iox2_publish_subscribe_header_storage_t { internal: None }
    }
}

/// A header as handed over the C API: the storage cell plus its lifecycle
/// state.
pub struct iox2_publish_subscribe_header_t {
    pub value: iox2_publish_subscribe_header_storage_t,
}

impl iox2_publish_subscribe_header_t {
    pub fn init(&mut self, header: Header)
        ensures
            final(self).value.internal == Some(header),
    {
        self.value.init(header);
    }

    /// Clears the storage so it can be reused for another header.
    pub fn deinit(&mut self)
        ensures
            final(self).value.internal is None,
    {
        self.value.internal = None;
    }
}

impl Default for iox2_publish_subscribe_header_t {
    fn default() -> (r: Self)
        ensures
            r.value.internal is None,
    {
        iox2_publish_subscribe_header_t {
            value: iox2_publish_subscribe_header_storage_t { internal: None },
        }
    }
}

/// Marker behind the owning C handle of a header.
pub struct iox2_publish_subscribe_header_h_t;

/// Marker behind the non-owning C handle of a header.
pub struct iox2_publish_subscribe_header_ref_h_t;

} // verus!
