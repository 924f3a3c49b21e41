//! The E1.31 data packet and its codec.
use crate::text::{
    decode_name, encode_name, has_nul, lemma_encode_utf8_nonzero, lemma_name_slot_text, name_slot,
    text_of, until_nul, NAME_MAX_BYTES,
};
use crate::wire::lemma_be16_round_trip;
use crate::wire::{be16, be16_at, push_be16, push_bytes, ByteReader};
use vstd::prelude::*;
use vstd::utf8::{encode_utf8, encode_utf8_decode_utf8, encode_utf8_valid_utf8, is_ascii_chars, is_ascii_chars_encode_utf8};

verus! {

/// Bytes before the payload values: root, framing and DMP layer headers.
pub const HEADER_LEN: usize = 125;

/// The tag in the top nibble of each flags-and-length field.
pub const FLAGS_TAG: u16 = 7;

/// Bytes counted by the root layer's length field besides the values.
pub const ROOT_OVERHEAD: u16 = 109;

/// Bytes counted by the framing layer's length field besides the values.
pub const FRAMING_OVERHEAD: u16 = 87;

/// Bytes counted by the DMP layer's length field besides the values.
pub const DMP_OVERHEAD: u16 = 10;

/// The ACN packet identifier: "ASC-E1.17" and three zero bytes.
pub open spec fn acn_id() -> Seq<u8> {
    seq![0x41u8, 0x53, 0x43, 0x2d, 0x45, 0x31, 0x2e, 0x31, 0x37, 0x00, 0x00, 0x00]
}

/// A flags-and-length field: `tag` in the top four bits, and in the low
/// twelve the payload size plus the layer's fixed overhead.
pub open spec fn length_field(tag: u16, count: u16, overhead: u16) -> u16
    recommends
        tag < 16,
{
    (tag * 4096 + (count + overhead) % 4096) as u16
}

/// Computes a flags-and-length field.
pub fn flags_and_length(tag: u16, count: u16, overhead: u16) -> (r: u16)
    requires
        tag < 16,
    ensures
        r == length_field(tag, count, overhead),
{
    let len: u32 = (count as u32 + overhead as u32) % 4096;
    (tag as u32 * 4096 + len) as u16
}


/// One E1.31 data packet.
#[allow(non_camel_case_types)]
pub struct e1_31_pkt {
    /// The sender's component identifier.
    pub cid: [u8; 16],
    /// The sender's name; the wire slot carries at most 63 bytes of it.
    pub source_name: String,
    pub priority: u8,
    /// The universe used for synchronization; 0 when unsynchronized.
    pub sync_addr: u16,
    /// The sequence number, which receivers use to detect loss and reordering.
    pub seq: u8,
    pub options: u8,
    /// The DMX universe addressed.
    pub universe: u16,
    /// The number of entries in `values`.
    pub property_value_count: u16,
    /// The property values; the first is the DMX start code.
    pub values: Vec<u8>,
}

/// The root layer header of `p`'s encoding: preamble and postamble sizes,
/// the ACN identifier, flags and length, vector and component identifier.
pub open spec fn root_layer(p: e1_31_pkt) -> Seq<u8> {
    be16(0x0010) + be16(0) + acn_id() + be16(
        length_field(FLAGS_TAG, p.property_value_count, ROOT_OVERHEAD),
    ) + seq![0u8, 0, 0, 4] + p.cid@
}

/// The framing layer header of `p`'s encoding.
pub open spec fn framing_layer(p: e1_31_pkt) -> Seq<u8> {
    be16(length_field(FLAGS_TAG, p.property_value_count, FRAMING_OVERHEAD)) + seq![0u8, 0, 0, 2]
        + name_slot(encode_utf8(p.source_name@)) + seq![p.priority] + be16(p.sync_addr) + seq![
        p.seq,
        p.options,
    ] + be16(p.universe)
}

/// The DMP layer header of `p`'s encoding, up to the value count.
pub open spec fn dmp_layer(p: e1_31_pkt) -> Seq<u8> {
    be16(length_field(FLAGS_TAG, p.property_value_count, DMP_OVERHEAD)) + seq![0x02u8, 0xa1]
        + be16(0) + be16(1) + be16(p.property_value_count)
}

/// The bytes that `p` is sent as: the three layer headers, then the values.
pub open spec fn encoding(p: e1_31_pkt) -> Seq<u8> {
    root_layer(p) + framing_layer(p) + dmp_layer(p) + p.values@
}

/// Whether `b` holds a whole data packet: the full header, the ACN
/// identifier in its place, a terminated source name and as many values as
/// the header announces. Bytes after those values are ignored.
pub open spec fn decodable(b: Seq<u8>) -> bool {
    &&& b.len() >= HEADER_LEN
    &&& b.subrange(4, 16) == acn_id()
    &&& has_nul(b.subrange(44, 108))
    &&& b.len() >= HEADER_LEN + be16_at(b, 123)
}

/// Whether `p` holds the fields that the data packet `b` carries.
pub open spec fn decodes_to(b: Seq<u8>, p: e1_31_pkt) -> bool {
    &&& p.cid@ == b.subrange(22, 38)
    &&& p.source_name@ == text_of(until_nul(b.subrange(44, 108)))
    &&& p.priority == b[108]
    &&& p.sync_addr == be16_at(b, 109)
    &&& p.seq == b[111]
    &&& p.options == b[112]
    &&& p.universe == be16_at(b, 113)
    &&& p.property_value_count == be16_at(b, 123)
    &&& p.values@ == b.subrange(HEADER_LEN as int, HEADER_LEN + be16_at(b, 123))
}

/// The ACN identifier as an array.
fn acn_id_bytes() -> (r: [u8; 12])
    ensures
        r@ == acn_id(),
{
    let id: [u8; 12] = [0x41, 0x53, 0x43, 0x2d, 0x45, 0x31, 0x2e, 0x31, 0x37, 0x00, 0x00, 0x00];
    assert(id@ == acn_id());
    id
}

/// Whether `b` is the 12-byte ACN identifier.
fn is_acn_id(b: &Vec<u8>) -> (r: bool)
    requires
        b@.len() == 12,
    ensures
        r == (b@ == acn_id()),
{
    let id = acn_id_bytes();
    let mut i: usize = 0;
    while i < 12
        invariant
            i <= 12,
            b@.len() == 12,
            id@ == acn_id(),
            forall|j: int| 0 <= j < i ==> b@[j] == acn_id()[j],
        decreases 12 - i,
    {
        if b[i] != id[i] {
            return false;
        }
        i = i + 1;
    }
    assert(b@ =~= acn_id());
    true
}

/// The 16 bytes of `b` as an array.
fn to_cid(b: &Vec<u8>) -> (r: [u8; 16])
    requires
        b@.len() == 16,
    ensures
        r@ == b@,
{
    let mut r: [u8; 16] = [0; 16];
    let mut i: usize = 0;
    while i < 16
        invariant
            i <= 16,
            b@.len() == 16,
            forall|j: int| 0 <= j < i ==> r@[j] == b@[j],
        decreases 16 - i,
    {
        r[i] = b[i];
        i = i + 1;
    }
    assert(r@ =~= b@);
    r
}

impl e1_31_pkt {
    /// An empty packet: all fields zero but `priority`, which is 100.
    pub fn new() -> (r: e1_31_pkt)
        ensures
            r.cid@ == Seq::new(16, |i: int| 0u8),
            r.source_name@ == Seq::<char>::empty(),
            r.priority == 100,
            r.sync_addr == 0,
            r.seq == 0,
            r.options == 0,
            r.universe == 0,
            r.property_value_count == 0,
            r.values@ == Seq::<u8>::empty(),
    {
        let r = e1_31_pkt {
            cid: [0; 16],
            source_name: String::new(),
            priority: 100,
            sync_addr: 0,
            seq: 0,
            options: 0,
            universe: 0,
            property_value_count: 0,
            values: Vec::new(),
        };
        assert(r.cid@ =~= Seq::new(16, |i: int| 0u8));
        r
    }

    /// The bytes of this packet on the wire. The source name is cut to its
    /// first 63 UTF-8 bytes so that its slot keeps a terminator. The value
    /// count is written as it stands, followed by every entry of `values`.
    pub fn serialize(&self) -> (r: Vec<u8>)
        ensures
            r@ == encoding(*self),
    {
        let n = self.property_value_count;
        let mut out: Vec<u8> = Vec::new();
        push_be16(&mut out, 0x0010);
        push_be16(&mut out, 0);
        let id = acn_id_bytes();
        push_bytes(&mut out, id.as_slice());
        push_be16(&mut out, flags_and_length(FLAGS_TAG, n, ROOT_OVERHEAD));
        push_be16(&mut out, 0);
        push_be16(&mut out, 4);
        push_bytes(&mut out, self.cid.as_slice());
        push_be16(&mut out, flags_and_length(FLAGS_TAG, n, FRAMING_OVERHEAD));
        push_be16(&mut out, 0);
        push_be16(&mut out, 2);
        let slot = encode_name(&self.source_name);
        push_bytes(&mut out, slot.as_slice());
        out.push(self.priority);
        push_be16(&mut out, self.sync_addr);
        out.push(self.seq);
        out.push(self.options);
        push_be16(&mut out, self.universe);
        push_be16(&mut out, flags_and_length(FLAGS_TAG, n, DMP_OVERHEAD));
        out.push(0x02);
        out.push(0xa1);
        push_be16(&mut out, 0);
        push_be16(&mut out, 1);
        push_be16(&mut out, n);
        push_bytes(&mut out, self.values.as_slice());
        assert(out@ =~= encoding(*self));
        out
    }

    /// Parses one data packet from the front of `data`. Returns `None` where
    /// `data` is too short, lacks the ACN identifier, or has no terminator
    /// in the source-name slot.
    pub fn deserialize(data: Vec<u8>) -> (r: Option<e1_31_pkt>)
        ensures
            r is Some <==> decodable(data@),
            r matches Some(p) ==> decodes_to(data@, p),
    {
        let ghost b = data@;
        let mut rd = ByteReader::new(data);
        if !rd.skip(4) {
            return None;
        }
        let id = match rd.read_bytes(12) {
            Some(v) => v,
            None => return None,
        };
        if !is_acn_id(&id) {
            assert(id@ == b.subrange(4, 16));
            return None;
        }
        if !rd.skip(6) {
            return None;
        }
        let cid = match rd.read_bytes(16) {
            Some(v) => to_cid(&v),
            None => return None,
        };
        if !rd.skip(6) {
            return None;
        }
        let slot = match rd.read_bytes(64) {
            Some(v) => v,
            None => return None,
        };
        let source_name = match decode_name(slot.as_slice()) {
            Some(s) => s,
            None => return None,
        };
        let priority = match rd.read_u8() {
            Some(n) => n,
            None => return None,
        };
        let sync_addr = match rd.read_be16() {
            Some(n) => n,
            None => return None,
        };
        let seq = match rd.read_u8() {
            Some(n) => n,
            None => return None,
        };
        let options = match rd.read_u8() {
            Some(n) => n,
            None => return None,
        };
        let universe = match rd.read_be16() {
            Some(n) => n,
            None => return None,
        };
        if !rd.skip(8) {
            return None;
        }
        let property_value_count = match rd.read_be16() {
            Some(n) => n,
            None => return None,
        };
        let values = match rd.read_bytes(property_value_count as usize) {
            Some(v) => v,
            None => return None,
        };
        Some(
            e1_31_pkt {
                cid,
                source_name,
                priority,
                sync_addr,
                seq,
                options,
                universe,
                property_value_count,
                values,
            },
        )
    }
}

/// Where each field of `p` stands in its encoding.
proof fn lemma_encoding_layout(p: e1_31_pkt)
    ensures
        encoding(p).len() == HEADER_LEN + p.values@.len(),
        encoding(p).subrange(4, 16) == acn_id(),
        encoding(p).subrange(22, 38) == p.cid@,
        encoding(p).subrange(44, 108) == name_slot(encode_utf8(p.source_name@)),
        encoding(p)[108] == p.priority,
        be16_at(encoding(p), 109) == p.sync_addr,
        encoding(p)[111] == p.seq,
        encoding(p)[112] == p.options,
        be16_at(encoding(p), 113) == p.universe,
        be16_at(encoding(p), 123) == p.property_value_count,
        encoding(p).subrange(HEADER_LEN as int, encoding(p).len() as int) == p.values@,
{
    let e = encoding(p);
    let r = root_layer(p);
    let f = framing_layer(p);
    let d = dmp_layer(p);
    lemma_be16_round_trip(p.sync_addr);
    lemma_be16_round_trip(p.universe);
    lemma_be16_round_trip(p.property_value_count);
    assert(r.len() == 38);
    assert(r.subrange(4, 16) =~= acn_id());
    assert(r.subrange(22, 38) =~= p.cid@);
    assert(f.len() == 77);
    assert(f.subrange(6, 70) =~= name_slot(encode_utf8(p.source_name@)));
    assert(f[70] == p.priority);
    assert(f.subrange(71, 73) =~= be16(p.sync_addr));
    assert(f[73] == p.seq);
    assert(f[74] == p.options);
    assert(f.subrange(75, 77) =~= be16(p.universe));
    assert(d.len() == 10);
    assert(d.subrange(8, 10) =~= be16(p.property_value_count));
    assert(e.subrange(0, 38) =~= r);
    assert(e.subrange(38, 115) =~= f);
    assert(e.subrange(115, 125) =~= d);
    assert(e.subrange(4, 16) =~= r.subrange(4, 16));
    assert(e.subrange(22, 38) =~= r.subrange(22, 38));
    assert(e.subrange(44, 108) =~= f.subrange(6, 70));
    assert(e[108] == f[70]);
    assert(e.subrange(109, 111) =~= f.subrange(71, 73));
    assert(e[111] == f[73]);
    assert(e[112] == f[74]);
    assert(e.subrange(113, 115) =~= f.subrange(75, 77));
    assert(e.subrange(123, 125) =~= d.subrange(8, 10));
    assert(e.subrange(HEADER_LEN as int, e.len() as int) =~= p.values@);
}

/// Decoding what a packet encodes to gives the packet back, where the value
/// count matches the values and the source name is at most 63 UTF-8 bytes
/// with no NUL character.
pub proof fn lemma_round_trip(p: e1_31_pkt)
    requires
        p.property_value_count == p.values@.len(),
        encode_utf8(p.source_name@).len() <= NAME_MAX_BYTES,
        !p.source_name@.contains('\0'),
    ensures
        decodable(encoding(p)),
        decodes_to(encoding(p), p),
{
    let e = encoding(p);
    let t = encode_utf8(p.source_name@);
    lemma_encoding_layout(p);
    lemma_encode_utf8_nonzero(p.source_name@);
    lemma_name_slot_text(t);
    encode_utf8_valid_utf8(p.source_name@);
    encode_utf8_decode_utf8(p.source_name@);
}

/// Every proper prefix of a packet's encoding is refused, where the value
/// count matches the values.
pub proof fn lemma_truncated_refused(p: e1_31_pkt, k: int)
    requires
        p.property_value_count == p.values@.len(),
        0 <= k < encoding(p).len(),
    ensures
        !decodable(encoding(p).take(k)),
{
    let e = encoding(p);
    lemma_encoding_layout(p);
    if k >= HEADER_LEN {
        assert(be16_at(e.take(k), 123) == be16_at(e, 123));
    }
}

/// Changing any byte of the ACN identifier in a buffer that decodes makes
/// it refused.
pub proof fn lemma_bad_identifier_refused(b: Seq<u8>, i: int, v: u8)
    requires
        decodable(b),
        4 <= i < 16,
        v != b[i],
    ensures
        !decodable(b.update(i, v)),
{
    assert(b.update(i, v).subrange(4, 16)[i - 4] != b.subrange(4, 16)[i - 4]);
}

/// A packet with no values encodes to the 125 header bytes alone, and
/// decodes to a packet with no values and the same numeric fields and
/// component identifier.
pub proof fn lemma_empty_payload(p: e1_31_pkt, q: e1_31_pkt)
    requires
        p.property_value_count == 0,
        p.values@.len() == 0,
    ensures
        encoding(p).len() == HEADER_LEN,
        decodable(encoding(p)),
        decodes_to(encoding(p), q) ==> {
            &&& q.property_value_count == 0
            &&& q.values@.len() == 0
            &&& q.cid@ == p.cid@
            &&& q.priority == p.priority
            &&& q.sync_addr == p.sync_addr
            &&& q.seq == p.seq
            &&& q.options == p.options
            &&& q.universe == p.universe
        },
{
    let t = encode_utf8(p.source_name@);
    lemma_encoding_layout(p);
    assert(name_slot(t)[NAME_MAX_BYTES as int] == 0);
}

/// An ASCII source name longer than 63 characters, with no NUL, comes back
/// as its first 63 characters.
pub proof fn lemma_long_name_cut(p: e1_31_pkt)
    requires
        p.property_value_count == p.values@.len(),
        is_ascii_chars(p.source_name@),
        !p.source_name@.contains('\0'),
        p.source_name@.len() > NAME_MAX_BYTES,
    ensures
        decodable(encoding(p)),
        text_of(until_nul(encoding(p).subrange(44, 108))) == p.source_name@.take(
            NAME_MAX_BYTES as int,
        ),
{
    let name = p.source_name@;
    let short = name.take(NAME_MAX_BYTES as int);
    let t = encode_utf8(name);
    lemma_encoding_layout(p);
    lemma_encode_utf8_nonzero(name);
    is_ascii_chars_encode_utf8(name);
    lemma_name_slot_text(t);
    assert(is_ascii_chars(short));
    is_ascii_chars_encode_utf8(short);
    assert(t.take(NAME_MAX_BYTES as int) =~= encode_utf8(short));
    encode_utf8_valid_utf8(short);
    encode_utf8_decode_utf8(short);
}

} // verus!
