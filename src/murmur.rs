use vstd::prelude::*;

verus! {

/// The 32-bit MurmurHash, with seed 0, of the UTF-8 bytes of `s`, for the
/// byte order of the machine the library runs on.
pub uninterp spec fn murmur32_of(s: Seq<char>) -> u32;

/// Relies on `fasthash::murmur::hash32`: a hash of the bytes of the text,
/// a function of the text alone for a given byte order (results differ
/// between little- and big-endian machines).
#[verifier::external_body]
pub(crate) fn murmur32(s: &str) -> (r: u32)
    ensures
        r == murmur32_of(s@),
{
    fasthash::murmur::hash32(s)
}

} // verus!
