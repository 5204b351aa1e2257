//! The message header: the sender's ratchet public key and two counters,
//! with its 36-byte wire encoding.

use vstd::prelude::*;

verus! {

/// Errors of header handling. Building, encoding and decoding a header
/// cannot fail, so no function returns this variant.
#[derive(Debug)]
pub enum HeaderError {
    Malformed,
}

/// A message header: the sender's current ratchet public key `dh`, the
/// length `pn` of the sender's previous sending chain, and the message
/// number `n` in the current sending chain.
#[derive(Debug, Clone, Copy)]
pub struct HEADER {
    pub dh: [u8; 32],
    pub pn: u16,
    pub n: u16,
}

/// The mathematical value of a header.
pub struct HeaderView {
    pub dh: Seq<u8>,
    pub pn: u16,
    pub n: u16,
}

impl View for HEADER {
    type V = HeaderView;

    open spec fn view(&self) -> HeaderView {
        HeaderView { dh: self.dh@, pn: self.pn, n: self.n }
    }
}

/// The little-endian encoding of a `u16`.
pub open spec fn le_bytes(x: u16) -> Seq<u8> {
    seq![(x % 256) as u8, (x / 256) as u8]
}

/// The `u16` whose little-endian encoding is `lo, hi`.
pub open spec fn from_le_bytes(lo: u8, hi: u8) -> u16 {
    (lo + 256 * hi) as u16
}

/// The wire encoding of a header: the key, then `pn`, then `n`, both little-endian.
pub open spec fn header_bytes(h: HeaderView) -> Seq<u8> {
    h.dh + le_bytes(h.pn) + le_bytes(h.n)
}

/// The header that the first 36 bytes of `data` encode.
pub open spec fn parse_header(data: Seq<u8>) -> HeaderView {
    HeaderView {
        dh: data.subrange(0, 32),
        pn: from_le_bytes(data[32], data[33]),
        n: from_le_bytes(data[34], data[35]),
    }
}

fn u16_to_le(x: u16) -> (out: [u8; 2])
    ensures
        out@ == le_bytes(x),
{
    let out: [u8; 2] = [(x % 256) as u8, (x / 256) as u8];
    assert(out@ =~= le_bytes(x));
    out
}

fn u16_from_le(lo: u8, hi: u8) -> (x: u16)
    ensures
        x == from_le_bytes(lo, hi),
{
    lo as u16 + 256 * (hi as u16)
}

impl HEADER {
    /// A header with the given fields.
    pub fn new(dh_pair: [u8; 32], pn: u16, n: u16) -> (res: Result<Self, HeaderError>)
        ensures
            res matches Ok(h) && h@ == (HeaderView { dh: dh_pair@, pn, n }),
    {
        Ok(HEADER { dh: dh_pair, pn, n })
    }

    /// The 36-byte wire encoding of the header.
    pub fn serialize(&self) -> (res: Result<Vec<u8>, HeaderError>)
        ensures
            res matches Ok(bytes) && bytes@ == header_bytes(self@) && bytes@.len() == 36,
            res matches Ok(bytes) ==> {
                &&& bytes@.subrange(0, 32) == self.dh@
                &&& bytes@[32] == (self.pn % 256) as u8 && bytes@[33] == (self.pn / 256) as u8
                &&& bytes@[34] == (self.n % 256) as u8 && bytes@[35] == (self.n / 256) as u8
            },
    {
        let pn = u16_to_le(self.pn);
        let n = u16_to_le(self.n);
        let mut bytes: Vec<u8> = Vec::new();
        let mut i: usize = 0;
        while i < 32
            invariant
                i <= 32,
                bytes@ == self.dh@.subrange(0, i as int),
            decreases 32 - i,
        {
            bytes.push(self.dh[i]);
            i = i + 1;
            assert(bytes@ =~= self.dh@.subrange(0, i as int));
        }
        bytes.push(pn[0]);
        bytes.push(pn[1]);
        bytes.push(n[0]);
        bytes.push(n[1]);
        assert(bytes@ =~= header_bytes(self@));
        Ok(bytes)
    }

    /// Decodes the first 36 bytes of `data`; further bytes are ignored.
    pub fn deserialize(data: &[u8]) -> (res: Result<Self, HeaderError>)
        requires
            data@.len() >= 36,
        ensures
            res matches Ok(h) && h@ == parse_header(data@),
            res matches Ok(h) ==> {
                &&& h.dh@ == data@.subrange(0, 32)
                &&& h.pn == data@[32] + 256 * data@[33]
                &&& h.n == data@[34] + 256 * data@[35]
            },
    {
        let dh: [u8; 32] = crate::bytes::array_at(data, 0);
        let pn = u16_from_le(data[32], data[33]);
        let n = u16_from_le(data[34], data[35]);
        Ok(HEADER { dh, pn, n })
    }
}

/// Decoding gives back the header that was encoded.
pub proof fn lemma_parse_header_bytes(h: HeaderView)
    requires
        h.dh.len() == 32,
    ensures
        parse_header(header_bytes(h)) == h,
{
    let b = header_bytes(h);
    assert(b.subrange(0, 32) =~= h.dh);
    assert(b[32] == (h.pn % 256) as u8 && b[33] == (h.pn / 256) as u8);
    assert(b[34] == (h.n % 256) as u8 && b[35] == (h.n / 256) as u8);
}

/// Encoding a decoded header gives back its 36 bytes.
pub proof fn lemma_header_bytes_parse(data: Seq<u8>)
    requires
        data.len() == 36,
    ensures
        header_bytes(parse_header(data)) == data,
{
    let h = parse_header(data);
    assert(header_bytes(h) =~= data);
}

} // verus!
