use vstd::prelude::*;
use vstd::utf8::{decode_utf8, valid_utf8};
use indexmap::IndexSet;

verus! {

/// The CRC-32 (IEEE) checksum of a byte string, as crc32fast computes it.
pub uninterp spec fn crc32_of(data: Seq<u8>) -> u32;

/// The raw DEFLATE stream that miniz_oxide produces for `data` at `level`.
pub uninterp spec fn deflate_of(data: Seq<u8>, level: u8) -> Seq<u8>;

/// What miniz_oxide inflates a raw DEFLATE stream to; `None` when the stream is invalid.
pub uninterp spec fn inflate_of(data: Seq<u8>) -> Option<Seq<u8>>;

/// The SHA-1 digest of a byte string.
pub uninterp spec fn sha1_of(data: Seq<u8>) -> Seq<u8>;

/// The SHA-256 digest of a byte string.
pub uninterp spec fn sha256_of(data: Seq<u8>) -> Seq<u8>;

/// The names an `IndexSet` holds, in insertion order.
pub uninterp spec fn index_names(s: IndexSet<Vec<u8>>) -> Seq<Seq<u8>>;

#[verifier::external_type_specification]
#[verifier::external_body]
#[verifier::reject_recursive_types(T)]
#[verifier::reject_recursive_types(S)]
pub struct ExIndexSet<T, S>(IndexSet<T, S>);

/// Relies on crc32fast::hash: the CRC-32 of the whole slice.
#[verifier::external_body]
pub(crate) fn crc32(data: &[u8]) -> (r: u32)
    ensures
        r == crc32_of(data@),
{
    crc32fast::hash(data)
}

/// Relies on miniz_oxide::deflate::compress_to_vec: a raw DEFLATE stream of the input, which
/// `decompress_to_vec` inflates back to the input (the crate's own round-trip tests check
/// this; levels above 10 are treated as 10). The stream is never empty: it always ends with a
/// final block.
#[verifier::external_body]
pub(crate) fn deflate(data: &[u8], level: u8) -> (r: Vec<u8>)
    ensures
        r@ == deflate_of(data@, level),
        inflate_of(r@) == Some(data@),
        r@.len() > 0,
{
    miniz_oxide::deflate::compress_to_vec(data, level)
}

/// Relies on miniz_oxide::inflate::decompress_to_vec: the inflated bytes, or an error
/// for an invalid stream.
#[verifier::external_body]
pub(crate) fn inflate(data: &[u8]) -> (r: Option<Vec<u8>>)
    ensures
        match r {
            Some(v) => inflate_of(data@) == Some(v@),
            None => inflate_of(data@) is None,
        },
{
    miniz_oxide::inflate::decompress_to_vec(data).ok()
}

/// Relies on sha1::Sha1::digest: the SHA-1 digest of the slice, 20 bytes (its output size).
#[verifier::external_body]
pub(crate) fn sha1(data: &[u8]) -> (r: Vec<u8>)
    ensures
        r@ == sha1_of(data@),
        r@.len() == 20,
{
    <sha1::Sha1 as sha1::Digest>::digest(data).to_vec()
}

/// Relies on sha2::Sha256::digest: the SHA-256 digest of the slice, 32 bytes (its output size).
#[verifier::external_body]
pub(crate) fn sha256(data: &[u8]) -> (r: Vec<u8>)
    ensures
        r@ == sha256_of(data@),
        r@.len() == 32,
{
    <sha2::Sha256 as sha2::Digest>::digest(data).to_vec()
}

/// Relies on String::from_utf8: succeeds exactly on valid UTF-8 and keeps the characters.
#[verifier::external_body]
pub(crate) fn utf8_string(b: Vec<u8>) -> (r: Option<String>)
    ensures
        r is Some <==> valid_utf8(b@),
        r matches Some(s) ==> s@ == decode_utf8(b@),
{
    String::from_utf8(b).ok()
}

/// Relies on IndexSet::new: a new set holds nothing.
#[verifier::external_body]
pub(crate) fn names_new() -> (r: IndexSet<Vec<u8>>)
    ensures
        index_names(r) == Seq::<Seq<u8>>::empty(),
{
    IndexSet::new()
}

/// Relies on IndexSet::get_index_of: the position of the item equal to `name`, if any.
#[verifier::external_body]
pub(crate) fn names_position(s: &IndexSet<Vec<u8>>, name: &[u8]) -> (r: Option<usize>)
    ensures
        match r {
            Some(i) => i < index_names(*s).len() && index_names(*s)[i as int] == name@,
            None => !index_names(*s).contains(name@),
        },
{
    s.get_index_of(name)
}

/// Relies on IndexSet::insert: a new item goes to the end, an existing one stays where it is.
#[verifier::external_body]
pub(crate) fn names_insert(s: &mut IndexSet<Vec<u8>>, name: Vec<u8>) -> (r: bool)
    ensures
        r == !index_names(*old(s)).contains(name@),
        r ==> index_names(*final(s)) == index_names(*old(s)).push(name@),
        !r ==> index_names(*final(s)) == index_names(*old(s)),
{
    s.insert(name)
}

/// Relies on IndexSet::shift_remove_index: removes the item at `i` and shifts those after it.
#[verifier::external_body]
pub(crate) fn names_remove_at(s: &mut IndexSet<Vec<u8>>, i: usize)
    ensures
        i < index_names(*old(s)).len() ==> index_names(*final(s)) == index_names(*old(s)).remove(
            i as int,
        ),
        i >= index_names(*old(s)).len() ==> index_names(*final(s)) == index_names(*old(s)),
{
    s.shift_remove_index(i);
}

} // verus!
