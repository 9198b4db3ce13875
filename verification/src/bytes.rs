//! Little-endian integer decoding from raw bytes, through `byteorder`.

use vstd::prelude::*;

verus! {

/// The little-endian value of the two bytes starting at `i`.
pub open spec fn le16(d: Seq<u8>, i: int) -> int {
    d[i] + 0x100 * d[i + 1]
}

/// The little-endian value of the four bytes starting at `i`.
pub open spec fn le32(d: Seq<u8>, i: int) -> int {
    d[i] + 0x100 * d[i + 1] + 0x1_0000 * d[i + 2] + 0x100_0000 * d[i + 3]
}

/// Relies on byteorder::LittleEndian::read_u16: the unsigned little-endian
/// value of the first two bytes of the slice.
#[verifier::external_body]
pub(crate) fn read_le_u16(d: &[u8], at: usize) -> (r: u16)
    requires
        at + 2 <= d@.len(),
    ensures
        r == le16(d@, at as int),
{
    <byteorder::LittleEndian as byteorder::ByteOrder>::read_u16(&d[at..at + 2])
}

/// Relies on byteorder::LittleEndian::read_u32: the unsigned little-endian
/// value of the first four bytes of the slice.
#[verifier::external_body]
pub(crate) fn read_le_u32(d: &[u8], at: usize) -> (r: u32)
    requires
        at + 4 <= d@.len(),
    ensures
        r == le32(d@, at as int),
{
    <byteorder::LittleEndian as byteorder::ByteOrder>::read_u32(&d[at..at + 4])
}

/// The `n` bytes of `d` starting at `at`, as a fresh vector.
pub(crate) fn copy_bytes(d: &[u8], at: usize, n: usize) -> (r: Vec<u8>)
    requires
        at + n <= d@.len(),
    ensures
        r@ == d@.subrange(at as int, at + n),
{
    let dlen = d.len();
    let mut r: Vec<u8> = Vec::new();
    let mut i: usize = 0;
    while i < n
        invariant
            i <= n,
            at + n <= dlen,
            dlen == d@.len(),
            r@ == d@.subrange(at as int, at + i),
        decreases n - i,
    {
        r.push(d[at + i]);
        i = i + 1;
        assert(r@ =~= d@.subrange(at as int, at + i));
    }
    r
}

/// What String::from_utf8_lossy returns: a function of the bytes alone.
pub uninterp spec fn utf8_lossy_of(b: Seq<u8>) -> Seq<char>;

/// Relies on String::from_utf8_lossy: the result depends on the bytes
/// alone, and bytes below 0x80 are one-byte UTF-8 sequences that decode to
/// the characters with their own values.
#[verifier::external_body]
pub(crate) fn utf8_lossy(b: &[u8]) -> (r: String)
    ensures
        r@ == utf8_lossy_of(b@),
        (forall|i: int| 0 <= i < b@.len() ==> b@[i] < 0x80) ==> (
            r@.len() == b@.len()
            && forall|i: int| 0 <= i < b@.len() ==> r@[i] == b@[i] as char
        ),
{
    String::from_utf8_lossy(b).into_owned()
}

} // verus!
