//! The source-name slot: a UTF-8 text stored in 64 bytes and ended by a
//! zero byte.
use vstd::prelude::*;
use vstd::utf8::*;

verus! {

/// The width of the name slot on the wire.
pub const NAME_SLOT_LEN: usize = 64;

/// The most text bytes the slot carries; the byte after them is the terminator.
pub const NAME_MAX_BYTES: usize = 63;

/// What `String::from_utf8_lossy` gives for bytes that are not valid UTF-8.
pub uninterp spec fn utf8_lossy(b: Seq<u8>) -> Seq<char>;

/// The text that `b` reads as: its UTF-8 decoding, with replacement
/// characters where it is not valid.
pub open spec fn text_of(b: Seq<u8>) -> Seq<char> {
    if valid_utf8(b) {
        decode_utf8(b)
    } else {
        utf8_lossy(b)
    }
}

/// Relies on std's `String::from_utf8_lossy`: on valid UTF-8 it returns the
/// decoded text unchanged; otherwise its result depends on the bytes alone.
#[verifier::external_body]
fn lossy_string(b: &[u8]) -> (r: String)
    ensures
        valid_utf8(b@) ==> r@ == decode_utf8(b@),
        !valid_utf8(b@) ==> r@ == utf8_lossy(b@),
{
    String::from_utf8_lossy(b).into_owned()
}

/// Whether `s` holds a zero byte.
pub open spec fn has_nul(s: Seq<u8>) -> bool {
    exists|i: int| 0 <= i < s.len() && s[i] == 0
}

/// The bytes of `s` before its first zero byte (all of `s` where it has none).
pub open spec fn until_nul(s: Seq<u8>) -> Seq<u8>
    decreases s.len(),
{
    if s.len() == 0 {
        s
    } else if s[0] == 0 {
        Seq::empty()
    } else {
        seq![s[0]] + until_nul(s.drop_first())
    }
}

/// The 64 bytes that the slot holds for the text bytes `t`: at most the
/// first 63 of them, then zeros.
pub open spec fn name_slot(t: Seq<u8>) -> Seq<u8> {
    Seq::new(
        NAME_SLOT_LEN as nat,
        |i: int|
            if i < NAME_MAX_BYTES && i < t.len() {
                t[i]
            } else {
                0u8
            },
    )
}

/// The prefix before a first zero byte at `k` is what `until_nul` gives.
pub proof fn lemma_until_nul_at(s: Seq<u8>, k: int)
    requires
        0 <= k < s.len(),
        s[k] == 0,
        forall|j: int| 0 <= j < k ==> s[j] != 0,
    ensures
        until_nul(s) == s.take(k),
    decreases k,
{
    if k == 0 {
        assert(s.take(0) =~= Seq::<u8>::empty());
    } else {
        let t = s.drop_first();
        assert forall|j: int| 0 <= j < k - 1 implies t[j] != 0 by {
            assert(s[j + 1] != 0);
        }
        lemma_until_nul_at(t, k - 1);
        assert(s.take(k) =~= seq![s[0]] + t.take(k - 1));
    }
}

/// The slot for text bytes free of zeros keeps their first 63 bytes in front
/// of its terminator.
pub proof fn lemma_name_slot_text(t: Seq<u8>)
    requires
        forall|i: int| 0 <= i < t.len() && i < NAME_MAX_BYTES ==> t[i] != 0,
    ensures
        has_nul(name_slot(t)),
        until_nul(name_slot(t)) == if t.len() <= NAME_MAX_BYTES {
            t
        } else {
            t.take(NAME_MAX_BYTES as int)
        },
{
    let s = name_slot(t);
    let k: int = if t.len() <= NAME_MAX_BYTES {
        t.len() as int
    } else {
        NAME_MAX_BYTES as int
    };
    assert(s[k] == 0);
    lemma_until_nul_at(s, k);
    if t.len() <= NAME_MAX_BYTES {
        assert(s.take(k) =~= t);
    } else {
        assert(s.take(k) =~= t.take(NAME_MAX_BYTES as int));
    }
}

/// Only the character `'\0'` puts a zero byte in a UTF-8 encoding.
pub proof fn lemma_encode_utf8_nonzero(s: Seq<char>)
    requires
        !s.contains('\0'),
    ensures
        forall|i: int| 0 <= i < encode_utf8(s).len() ==> encode_utf8(s)[i] != 0,
    decreases s.len(),
{
    if s.len() > 0 {
        let c = s[0];
        let v = c as u32;
        assert(s[0] != '\0');
        char_is_scalar(c);
        char_u32_cast(c, v);
        assert(v != 0) by {
            if v == 0 {
                assert((0u32 as char) == '\0');
            }
        }
        let e = encode_scalar(v);
        assert(0x80u8 | ((v & 0x3F) as u8) != 0) by (bit_vector);
        assert(0x80u8 | (((v >> 6) & 0x3F) as u8) != 0) by (bit_vector);
        assert(0x80u8 | (((v >> 12) & 0x3F) as u8) != 0) by (bit_vector);
        assert(0xC0u8 | (((v >> 6) & 0x1F) as u8) != 0) by (bit_vector);
        assert(0xE0u8 | (((v >> 12) & 0x0F) as u8) != 0) by (bit_vector);
        assert(0xF0u8 | (((v >> 18) & 0x7) as u8) != 0) by (bit_vector);
        assert(v != 0 && v <= 0x7F ==> ((v & 0x7F) as u8) != 0) by (bit_vector);
        assert forall|i: int| 0 <= i < e.len() implies e[i] != 0 by {}
        let rest = s.drop_first();
        assert(!rest.contains('\0')) by {
            if rest.contains('\0') {
                let j = choose|j: int| 0 <= j < rest.len() && rest[j] == '\0';
                assert(s[j + 1] == '\0');
            }
        }
        lemma_encode_utf8_nonzero(rest);
        assert(encode_utf8(s) == e + encode_utf8(rest));
    }
}

/// The slot holding `name`: its UTF-8 bytes cut to 63, then zeros.
pub fn encode_name(name: &String) -> (r: Vec<u8>)
    ensures
        r@ == name_slot(encode_utf8(name@)),
{
    let bytes = name.as_str().as_bytes();
    let mut r: Vec<u8> = Vec::new();
    let mut i: usize = 0;
    while i < NAME_SLOT_LEN
        invariant
            bytes@ == encode_utf8(name@),
            i <= NAME_SLOT_LEN,
            r@ == name_slot(encode_utf8(name@)).take(i as int),
        decreases NAME_SLOT_LEN - i,
    {
        if i < NAME_MAX_BYTES && i < bytes.len() {
            r.push(bytes[i]);
        } else {
            r.push(0);
        }
        i = i + 1;
        assert(r@ =~= name_slot(encode_utf8(name@)).take(i as int));
    }
    assert(r@ =~= name_slot(encode_utf8(name@)));
    r
}

/// The text before the first zero byte of `slot`, decoded as UTF-8 with
/// replacement characters; `None` where `slot` holds no zero byte.
pub fn decode_name(slot: &[u8]) -> (r: Option<String>)
    ensures
        r is Some <==> has_nul(slot@),
        r is Some ==> r->0@ == text_of(until_nul(slot@)),
{
    let mut k: usize = 0;
    while k < slot.len() && slot[k] != 0
        invariant
            k <= slot@.len(),
            forall|j: int| 0 <= j < k ==> slot@[j] != 0,
        decreases slot@.len() - k,
    {
        k = k + 1;
    }
    if k == slot.len() {
        return None;
    }
    proof {
        lemma_until_nul_at(slot@, k as int);
    }
    let text = vstd::slice::slice_subrange(slot, 0, k);
    assert(text@ =~= slot@.take(k as int));
    Some(lossy_string(text))
}

} // verus!
