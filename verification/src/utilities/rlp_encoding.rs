//! Recursive-length-prefix encoding, as the `rlp` crate writes and
//! reads it.

use vstd::prelude::*;

verus! {

/// The bytes of each string.
pub open spec fn strings_view(strings: Seq<Vec<u8>>) -> Seq<Seq<u8>> {
    Seq::new(strings.len(), |i: int| strings[i]@)
}

/// What reading `data` as an RLP list of byte strings gives: the
/// strings of the items that can be read, and `None` where one of them
/// is no byte string.
pub uninterp spec fn rlp_list_items(data: Seq<u8>) -> Option<Seq<Seq<u8>>>;

/// Reads `node` with `rlp::Rlp::as_list` into byte strings; a decoder
/// error becomes `None`. The outcome is taken as a function of the
/// bytes; the decoding is not verified here.
#[verifier::external_body]
pub(crate) fn rlp_decode_list(node: &[u8]) -> (items: Option<Vec<Vec<u8>>>)
    ensures
        items is Some <==> rlp_list_items(node@) is Some,
        items is Some ==> rlp_list_items(node@) == Some(strings_view(items.unwrap()@)),
{
    rlp::Rlp::new(node).as_list::<Vec<u8>>().ok()
}

/// The bytes of `x` in big-endian order without leading zero bytes.
pub open spec fn be_bytes(x: nat) -> Seq<u8>
    decreases x,
{
    if x == 0 {
        Seq::empty()
    } else {
        be_bytes(x / 256).push((x % 256) as u8)
    }
}

/// The RLP encoding of an unsigned integer: a single byte below `0x80`
/// stands for itself; else the length of the big-endian bytes, added to
/// `0x80`, goes before them.
pub open spec fn spec_rlp_uint(x: u64) -> Seq<u8> {
    let bytes = be_bytes(x as nat);
    if bytes.len() == 1 && bytes[0] < 0x80 {
        bytes
    } else {
        seq![(0x80 + bytes.len()) as u8] + bytes
    }
}

/// Calls `rlp::encode` on a `u64`, which writes the big-endian bytes
/// without leading zeros as an RLP string.
#[verifier::external_body]
pub(crate) fn rlp_encode_u64(value: u64) -> (encoded: Vec<u8>)
    ensures
        encoded@ == spec_rlp_uint(value),
{
    rlp::encode(&value).to_vec()
}

/// The encoding of a byte string: a single byte below `0x80` stands for
/// itself; a string of up to 55 bytes follows its length added to `0x80`;
/// a longer one follows `0xb7` added to the width of its length, and the
/// length in big-endian order.
pub open spec fn spec_rlp_bytes(bytes: Seq<u8>) -> Seq<u8> {
    if bytes.len() == 1 && bytes[0] < 0x80 {
        bytes
    } else if bytes.len() < 56 {
        seq![(0x80 + bytes.len()) as u8] + bytes
    } else {
        seq![(0xb7 + be_bytes(bytes.len()).len()) as u8] + be_bytes(bytes.len()) + bytes
    }
}

/// The encoding of a list whose encoded items, one after the other, are
/// `payload`: a payload of up to 55 bytes follows its length added to
/// `0xc0`; a longer one follows `0xf7` added to the width of its length,
/// and the length in big-endian order.
pub open spec fn spec_rlp_list(payload: Seq<u8>) -> Seq<u8> {
    if payload.len() < 56 {
        seq![(0xc0 + payload.len()) as u8] + payload
    } else {
        seq![(0xf7 + be_bytes(payload.len()).len()) as u8] + be_bytes(payload.len()) + payload
    }
}

/// The `rlp` crate writes lengths in 32 bits: a string or a payload
/// must be shorter than this.
pub const RLP_LENGTH_LIMIT: u64 = 0x1_0000_0000;

/// An encoded string is never empty.
pub proof fn lemma_rlp_bytes_nonempty(bytes: Seq<u8>)
    ensures
        spec_rlp_bytes(bytes).len() > 0,
{
}

/// An encoded list is never empty.
pub proof fn lemma_rlp_list_nonempty(payload: Seq<u8>)
    ensures
        spec_rlp_list(payload).len() > 0,
{
}

/// Calls `rlp::encode` on a byte string, which writes it as an RLP
/// string, with its length in no more than 32 bits.
#[verifier::external_body]
pub(crate) fn rlp_encode_bytes(bytes: &[u8]) -> (encoded: Vec<u8>)
    requires
        bytes@.len() < RLP_LENGTH_LIMIT,
    ensures
        encoded@ == spec_rlp_bytes(bytes@),
{
    rlp::encode(&bytes.to_vec()).to_vec()
}

/// Opens an `rlp::RlpStream` as a list of `item_count` items, appends
/// `payload` to it as that many items already encoded, and takes the
/// stream out: the stream puts the header of the list before the
/// payload, with its length in no more than 32 bits.
#[verifier::external_body]
pub(crate) fn rlp_encode_list(payload: &[u8], item_count: usize) -> (encoded: Vec<u8>)
    requires
        (item_count == 0) == (payload@.len() == 0),
        payload@.len() < RLP_LENGTH_LIMIT,
    ensures
        encoded@ == spec_rlp_list(payload@),
{
    let mut stream = rlp::RlpStream::new_list(item_count);
    stream.append_raw(payload, item_count);
    stream.out().to_vec()
}

} // verus!
