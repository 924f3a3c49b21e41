//! Byte-level pieces of the wire format: big-endian integers and a reader
//! that consumes a buffer from the front.
use byteorder::{BigEndian, ByteOrder};
use vstd::prelude::*;
use vstd::slice::slice_subrange;

verus! {

/// The two bytes of `n`, most significant first.
pub open spec fn be16(n: u16) -> Seq<u8> {
    seq![(n / 256) as u8, (n % 256) as u8]
}

/// The big-endian `u16` that starts at position `i` of `b`.
pub open spec fn be16_at(b: Seq<u8>, i: int) -> u16 {
    (b[i] as int * 256 + b[i + 1] as int) as u16
}

pub proof fn lemma_be16_round_trip(n: u16)
    ensures
        be16(n).len() == 2,
        be16_at(be16(n), 0) == n,
{
}

/// Relies on byteorder's `BigEndian::read_u16`: the first two bytes of `b`,
/// most significant first (it panics on fewer than two bytes).
#[verifier::external_body]
fn read_be_u16(b: &[u8]) -> (r: u16)
    requires
        b@.len() >= 2,
    ensures
        r == be16_at(b@, 0),
{
    BigEndian::read_u16(b)
}

/// Relies on byteorder's `BigEndian::write_u16`: it stores `n` into the first
/// two bytes of a buffer, most significant first.
#[verifier::external_body]
fn be_bytes_u16(n: u16) -> (r: [u8; 2])
    ensures
        r@ == be16(n),
{
    let mut b = [0u8; 2];
    BigEndian::write_u16(&mut b, n);
    b
}

/// Appends the two big-endian bytes of `n` to `out`.
pub fn push_be16(out: &mut Vec<u8>, n: u16)
    ensures
        final(out)@ == old(out)@ + be16(n),
{
    let b = be_bytes_u16(n);
    out.push(b[0]);
    out.push(b[1]);
    assert(final(out)@ =~= old(out)@ + be16(n));
}

/// Appends the bytes of `src` to `out`, in order.
pub fn push_bytes(out: &mut Vec<u8>, src: &[u8])
    ensures
        final(out)@ == old(out)@ + src@,
{
    let ghost start = out@;
    let mut i: usize = 0;
    while i < src.len()
        invariant
            i <= src@.len(),
            out@ == start + src@.take(i as int),
        decreases src@.len() - i,
    {
        out.push(src[i]);
        i = i + 1;
        assert(out@ =~= start + src@.take(i as int));
    }
    assert(src@.take(i as int) =~= src@);
}

/// A cursor over a byte buffer. Each read takes bytes from the current
/// position on and moves past them; a read that would run past the end
/// fails and leaves the position where it was.
pub struct ByteReader {
    data: Vec<u8>,
    pos: usize,
}

impl ByteReader {
    /// The buffer being read.
    pub closed spec fn data(&self) -> Seq<u8> {
        self.data@
    }

    /// The number of bytes consumed so far.
    pub closed spec fn pos(&self) -> int {
        self.pos as int
    }

    pub closed spec fn wf(&self) -> bool {
        self.pos <= self.data@.len()
    }

    /// A reader at the start of `data`.
    pub fn new(data: Vec<u8>) -> (r: ByteReader)
        ensures
            r.wf(),
            r.data() == data@,
            r.pos() == 0,
    {
        ByteReader { data, pos: 0 }
    }

    /// Takes the next `n` bytes.
    pub fn read_bytes(&mut self, n: usize) -> (r: Option<Vec<u8>>)
        requires
            old(self).wf(),
        ensures
            final(self).wf(),
            final(self).data() == old(self).data(),
            r is Some <==> old(self).pos() + n <= old(self).data().len(),
            r is Some ==> final(self).pos() == old(self).pos() + n && r->0@ == old(
                self,
            ).data().subrange(old(self).pos(), old(self).pos() + n),
            r is None ==> final(self).pos() == old(self).pos(),
    {
        if n > self.data.len() - self.pos {
            return None;
        }
        let start = self.pos;
        let len = self.data.len();
        let mut v: Vec<u8> = Vec::new();
        let mut i: usize = 0;
        while i < n
            invariant
                start == self.pos,
                len == self.data@.len(),
                start + n <= self.data@.len(),
                i <= n,
                v@ == self.data@.subrange(start as int, start + i),
            decreases n - i,
        {
            v.push(self.data[start + i]);
            i = i + 1;
            assert(v@ =~= self.data@.subrange(start as int, start + i));
        }
        self.pos = self.pos + n;
        Some(v)
    }

    /// Moves past the next `n` bytes; false where fewer are left.
    pub fn skip(&mut self, n: usize) -> (r: bool)
        requires
            old(self).wf(),
        ensures
            final(self).wf(),
            final(self).data() == old(self).data(),
            r <==> old(self).pos() + n <= old(self).data().len(),
            final(self).pos() == if r {
                old(self).pos() + n
            } else {
                old(self).pos()
            },
    {
        if n > self.data.len() - self.pos {
            return false;
        }
        self.pos = self.pos + n;
        true
    }

    /// Takes the next byte.
    pub fn read_u8(&mut self) -> (r: Option<u8>)
        requires
            old(self).wf(),
        ensures
            final(self).wf(),
            final(self).data() == old(self).data(),
            r is Some <==> old(self).pos() + 1 <= old(self).data().len(),
            r is Some ==> final(self).pos() == old(self).pos() + 1 && r->0 == old(self).data()[old(
                self,
            ).pos()],
            r is None ==> final(self).pos() == old(self).pos(),
    {
        if self.pos >= self.data.len() {
            return None;
        }
        let b = self.data[self.pos];
        self.pos = self.pos + 1;
        Some(b)
    }

    /// Takes the next two bytes as a big-endian `u16`.
    pub fn read_be16(&mut self) -> (r: Option<u16>)
        requires
            old(self).wf(),
        ensures
            final(self).wf(),
            final(self).data() == old(self).data(),
            r is Some <==> old(self).pos() + 2 <= old(self).data().len(),
            r is Some ==> final(self).pos() == old(self).pos() + 2 && r->0 == be16_at(
                old(self).data(),
                old(self).pos(),
            ),
            r is None ==> final(self).pos() == old(self).pos(),
    {
        if 2 > self.data.len() - self.pos {
            return None;
        }
        let s = slice_subrange(self.data.as_slice(), self.pos, self.pos + 2);
        let v = read_be_u16(s);
        self.pos = self.pos + 2;
        Some(v)
    }
}

} // verus!
