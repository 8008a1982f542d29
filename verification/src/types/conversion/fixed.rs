//! Records of a fixed size: numbers, byte arrays, and structs of them.
//! Their packed form is their fields one after the other, numbers in
//! little-endian order.

use vstd::prelude::*;

use crate::types::records::{Client, ClientInfo, ClientTypeArgs, Header, HeaderDigest, SyncAggregate};
use crate::utilities::endian::{
    le_bytes,
    lemma_le_bytes_of_le_value,
    lemma_le_value_of_le_bytes,
    lemma_pow256_values,
    push_le,
    read_le,
};

verus! {

/// A record whose packed form always has the same length.
pub trait FixedSize: Sized {
    /// The length of the packed form.
    spec fn spec_size() -> nat;

    /// The packed form.
    spec fn encoding(&self) -> Seq<u8>;

    /// The packed form has the length of the type, which is positive and
    /// fits 16 bits.
    proof fn lemma_encoding_len(&self)
        ensures
            self.encoding().len() == Self::spec_size(),
            0 < Self::spec_size() < 0x1_0000,
    ;

    /// Records with the same packed form are the same record.
    proof fn lemma_encoding_injective(&self, other: &Self)
        requires
            self.encoding() == other.encoding(),
        ensures
            *self == *other,
    ;

    /// The length of the packed form.
    fn size() -> (size: usize)
        ensures
            size == Self::spec_size(),
            0 < size < 0x1_0000,
    ;

    /// Appends the packed form to `out`.
    fn write(&self, out: &mut Vec<u8>)
        ensures
            final(out)@ == old(out)@ + self.encoding(),
    ;

    /// Reads the record whose packed form stands at `start`.
    fn read(bytes: &[u8], start: usize) -> (value: Self)
        requires
            start + Self::spec_size() <= bytes@.len(),
        ensures
            value.encoding() == bytes@.subrange(start as int, start + Self::spec_size()),
    ;
}

impl FixedSize for u8 {
    open spec fn spec_size() -> nat {
        1
    }

    open spec fn encoding(&self) -> Seq<u8> {
        seq![*self]
    }

    proof fn lemma_encoding_len(&self) {
    }

    proof fn lemma_encoding_injective(&self, other: &Self) {
        assert(seq![*self][0] == *self);
        assert(seq![*other][0] == *other);
    }

    fn size() -> (size: usize) {
        1
    }

    fn write(&self, out: &mut Vec<u8>) {
        out.push(*self);
    }

    fn read(bytes: &[u8], start: usize) -> (value: Self) {
        let value = bytes[start];
        proof {
            assert(seq![value] =~= bytes@.subrange(start as int, start + 1));
        }
        value
    }
}

impl FixedSize for u64 {
    open spec fn spec_size() -> nat {
        8
    }

    open spec fn encoding(&self) -> Seq<u8> {
        le_bytes(*self as nat, 8)
    }

    proof fn lemma_encoding_len(&self) {
    }

    proof fn lemma_encoding_injective(&self, other: &Self) {
        lemma_pow256_values();
        lemma_le_value_of_le_bytes(*self as nat, 8);
        lemma_le_value_of_le_bytes(*other as nat, 8);
    }

    fn size() -> (size: usize) {
        8
    }

    fn write(&self, out: &mut Vec<u8>) {
        push_le(out, *self, 8);
    }

    fn read(bytes: &[u8], start: usize) -> (value: Self) {
        let value = read_le(bytes, start, 8);
        proof {
            lemma_le_bytes_of_le_value(bytes@.subrange(start as int, start + 8));
        }
        value
    }
}

/// Appends the bytes of an array to `out`.
pub fn write_array<const N: usize>(array: &[u8; N], out: &mut Vec<u8>)
    ensures
        final(out)@ == old(out)@ + array@,
{
    let mut i: usize = 0;
    while i < N
        invariant
            i <= N,
            out@ == old(out)@ + array@.take(i as int),
        decreases N - i,
    {
        out.push(array[i]);
        proof {
            assert(out@ =~= old(out)@ + array@.take(i + 1));
        }
        i = i + 1;
    }
    proof {
        assert(array@.take(N as int) =~= array@);
    }
}

/// Reads the array that stands at `start`.
pub fn read_array<const N: usize>(bytes: &[u8], start: usize) -> (array: [u8; N])
    requires
        start + N <= bytes@.len(),
    ensures
        array@ == bytes@.subrange(start as int, start + N),
{
    let mut array: [u8; N] = [0u8; N];
    let mut i: usize = 0;
    let total = bytes.len();
    while i < N
        invariant
            i <= N,
            total == bytes@.len(),
            start + N <= total,
            forall|j: int| 0 <= j < i ==> array@[j] == bytes@[start + j],
        decreases N - i,
    {
        array[i] = bytes[start + i];
        i = i + 1;
    }
    proof {
        assert(array@ =~= bytes@.subrange(start as int, start + N));
    }
    array
}

impl FixedSize for [u8; 32] {
    open spec fn spec_size() -> nat {
        32
    }

    open spec fn encoding(&self) -> Seq<u8> {
        self@
    }

    proof fn lemma_encoding_len(&self) {
    }

    proof fn lemma_encoding_injective(&self, other: &Self) {
        assert(*self =~= *other);
    }

    fn size() -> (size: usize) {
        32
    }

    fn write(&self, out: &mut Vec<u8>) {
        write_array(self, out);
    }

    fn read(bytes: &[u8], start: usize) -> (value: Self) {
        read_array(bytes, start)
    }
}

impl FixedSize for [u8; 48] {
    open spec fn spec_size() -> nat {
        48
    }

    open spec fn encoding(&self) -> Seq<u8> {
        self@
    }

    proof fn lemma_encoding_len(&self) {
    }

    proof fn lemma_encoding_injective(&self, other: &Self) {
        assert(*self =~= *other);
    }

    fn size() -> (size: usize) {
        48
    }

    fn write(&self, out: &mut Vec<u8>) {
        write_array(self, out);
    }

    fn read(bytes: &[u8], start: usize) -> (value: Self) {
        read_array(bytes, start)
    }
}

impl FixedSize for [u8; 64] {
    open spec fn spec_size() -> nat {
        64
    }

    open spec fn encoding(&self) -> Seq<u8> {
        self@
    }

    proof fn lemma_encoding_len(&self) {
    }

    proof fn lemma_encoding_injective(&self, other: &Self) {
        assert(*self =~= *other);
    }

    fn size() -> (size: usize) {
        64
    }

    fn write(&self, out: &mut Vec<u8>) {
        write_array(self, out);
    }

    fn read(bytes: &[u8], start: usize) -> (value: Self) {
        read_array(bytes, start)
    }
}

impl FixedSize for [u8; 96] {
    open spec fn spec_size() -> nat {
        96
    }

    open spec fn encoding(&self) -> Seq<u8> {
        self@
    }

    proof fn lemma_encoding_len(&self) {
    }

    proof fn lemma_encoding_injective(&self, other: &Self) {
        assert(*self =~= *other);
    }

    fn size() -> (size: usize) {
        96
    }

    fn write(&self, out: &mut Vec<u8>) {
        write_array(self, out);
    }

    fn read(bytes: &[u8], start: usize) -> (value: Self) {
        read_array(bytes, start)
    }
}

impl FixedSize for HeaderDigest {
    open spec fn spec_size() -> nat {
        32
    }

    open spec fn encoding(&self) -> Seq<u8> {
        self.children_hash.encoding()
    }

    proof fn lemma_encoding_len(&self) {
        self.children_hash.lemma_encoding_len();
    }

    proof fn lemma_encoding_injective(&self, other: &Self) {
        self.lemma_encoding_len();
        other.lemma_encoding_len();
        self.children_hash.lemma_encoding_len();
        other.children_hash.lemma_encoding_len();
        let a = self.encoding();
        let b = other.encoding();
        assert(self.children_hash.encoding() =~= a.subrange(0, 32));
        assert(other.children_hash.encoding() =~= b.subrange(0, 32));
        self.children_hash.lemma_encoding_injective(&other.children_hash);
    }

    fn size() -> (size: usize) {
        32
    }

    fn write(&self, out: &mut Vec<u8>) {
        self.children_hash.write(out);
        proof {
            assert(out@ =~= old(out)@ + self.encoding());
        }
    }

    fn read(bytes: &[u8], start: usize) -> (value: Self) {
        let total = bytes.len();
        assert(start + Self::spec_size() <= total);
        let children_hash = <[u8; 32]>::read(bytes, start + 0);
        let value = HeaderDigest { children_hash };
        proof {
            assert(value.encoding() =~= bytes@.subrange(start as int, start + 32));
        }
        value
    }
}

impl FixedSize for Header {
    open spec fn spec_size() -> nat {
        112
    }

    open spec fn encoding(&self) -> Seq<u8> {
        self.slot.encoding()
            + self.proposer_index.encoding()
            + self.parent_root.encoding()
            + self.state_root.encoding()
            + self.body_root.encoding()
    }

    proof fn lemma_encoding_len(&self) {
        self.slot.lemma_encoding_len();
        self.proposer_index.lemma_encoding_len();
        self.parent_root.lemma_encoding_len();
        self.state_root.lemma_encoding_len();
        self.body_root.lemma_encoding_len();
    }

    proof fn lemma_encoding_injective(&self, other: &Self) {
        self.lemma_encoding_len();
        other.lemma_encoding_len();
        self.slot.lemma_encoding_len();
        other.slot.lemma_encoding_len();
        self.proposer_index.lemma_encoding_len();
        other.proposer_index.lemma_encoding_len();
        self.parent_root.lemma_encoding_len();
        other.parent_root.lemma_encoding_len();
        self.state_root.lemma_encoding_len();
        other.state_root.lemma_encoding_len();
        self.body_root.lemma_encoding_len();
        other.body_root.lemma_encoding_len();
        let a = self.encoding();
        let b = other.encoding();
        assert(self.slot.encoding() =~= a.subrange(0, 8));
        assert(other.slot.encoding() =~= b.subrange(0, 8));
        self.slot.lemma_encoding_injective(&other.slot);
        assert(self.proposer_index.encoding() =~= a.subrange(8, 16));
        assert(other.proposer_index.encoding() =~= b.subrange(8, 16));
        self.proposer_index.lemma_encoding_injective(&other.proposer_index);
        assert(self.parent_root.encoding() =~= a.subrange(16, 48));
        assert(other.parent_root.encoding() =~= b.subrange(16, 48));
        self.parent_root.lemma_encoding_injective(&other.parent_root);
        assert(self.state_root.encoding() =~= a.subrange(48, 80));
        assert(other.state_root.encoding() =~= b.subrange(48, 80));
        self.state_root.lemma_encoding_injective(&other.state_root);
        assert(self.body_root.encoding() =~= a.subrange(80, 112));
        assert(other.body_root.encoding() =~= b.subrange(80, 112));
        self.body_root.lemma_encoding_injective(&other.body_root);
    }

    fn size() -> (size: usize) {
        112
    }

    fn write(&self, out: &mut Vec<u8>) {
        self.slot.write(out);
        self.proposer_index.write(out);
        self.parent_root.write(out);
        self.state_root.write(out);
        self.body_root.write(out);
        proof {
            assert(out@ =~= old(out)@ + self.encoding());
        }
    }

    fn read(bytes: &[u8], start: usize) -> (value: Self) {
        let total = bytes.len();
        assert(start + Self::spec_size() <= total);
        let slot = u64::read(bytes, start + 0);
        let proposer_index = u64::read(bytes, start + 8);
        let parent_root = <[u8; 32]>::read(bytes, start + 16);
        let state_root = <[u8; 32]>::read(bytes, start + 48);
        let body_root = <[u8; 32]>::read(bytes, start + 80);
        let value = Header { slot, proposer_index, parent_root, state_root, body_root };
        proof {
            assert(value.encoding() =~= bytes@.subrange(start as int, start + 112));
        }
        value
    }
}

impl FixedSize for SyncAggregate {
    open spec fn spec_size() -> nat {
        160
    }

    open spec fn encoding(&self) -> Seq<u8> {
        self.sync_committee_bits.encoding() + self.sync_committee_signature.encoding()
    }

    proof fn lemma_encoding_len(&self) {
        self.sync_committee_bits.lemma_encoding_len();
        self.sync_committee_signature.lemma_encoding_len();
    }

    proof fn lemma_encoding_injective(&self, other: &Self) {
        self.lemma_encoding_len();
        other.lemma_encoding_len();
        self.sync_committee_bits.lemma_encoding_len();
        other.sync_committee_bits.lemma_encoding_len();
        self.sync_committee_signature.lemma_encoding_len();
        other.sync_committee_signature.lemma_encoding_len();
        let a = self.encoding();
        let b = other.encoding();
        assert(self.sync_committee_bits.encoding() =~= a.subrange(0, 64));
        assert(other.sync_committee_bits.encoding() =~= b.subrange(0, 64));
        self.sync_committee_bits.lemma_encoding_injective(&other.sync_committee_bits);
        assert(self.sync_committee_signature.encoding() =~= a.subrange(64, 160));
        assert(other.sync_committee_signature.encoding() =~= b.subrange(64, 160));
        self.sync_committee_signature.lemma_encoding_injective(&other.sync_committee_signature);
    }

    fn size() -> (size: usize) {
        160
    }

    fn write(&self, out: &mut Vec<u8>) {
        self.sync_committee_bits.write(out);
        self.sync_committee_signature.write(out);
        proof {
            assert(out@ =~= old(out)@ + self.encoding());
        }
    }

    fn read(bytes: &[u8], start: usize) -> (value: Self) {
        let total = bytes.len();
        assert(start + Self::spec_size() <= total);
        let sync_committee_bits = <[u8; 64]>::read(bytes, start + 0);
        let sync_committee_signature = <[u8; 96]>::read(bytes, start + 64);
        let value = SyncAggregate { sync_committee_bits, sync_committee_signature };
        proof {
            assert(value.encoding() =~= bytes@.subrange(start as int, start + 160));
        }
        value
    }
}

impl FixedSize for ClientInfo {
    open spec fn spec_size() -> nat {
        34
    }

    open spec fn encoding(&self) -> Seq<u8> {
        self.last_client_id.encoding() + self.minimal_headers_count.encoding() + self.genesis_validators_root.encoding()
    }

    proof fn lemma_encoding_len(&self) {
        self.last_client_id.lemma_encoding_len();
        self.minimal_headers_count.lemma_encoding_len();
        self.genesis_validators_root.lemma_encoding_len();
    }

    proof fn lemma_encoding_injective(&self, other: &Self) {
        self.lemma_encoding_len();
        other.lemma_encoding_len();
        self.last_client_id.lemma_encoding_len();
        other.last_client_id.lemma_encoding_len();
        self.minimal_headers_count.lemma_encoding_len();
        other.minimal_headers_count.lemma_encoding_len();
        self.genesis_validators_root.lemma_encoding_len();
        other.genesis_validators_root.lemma_encoding_len();
        let a = self.encoding();
        let b = other.encoding();
        assert(self.last_client_id.encoding() =~= a.subrange(0, 1));
        assert(other.last_client_id.encoding() =~= b.subrange(0, 1));
        self.last_client_id.lemma_encoding_injective(&other.last_client_id);
        assert(self.minimal_headers_count.encoding() =~= a.subrange(1, 2));
        assert(other.minimal_headers_count.encoding() =~= b.subrange(1, 2));
        self.minimal_headers_count.lemma_encoding_injective(&other.minimal_headers_count);
        assert(self.genesis_validators_root.encoding() =~= a.subrange(2, 34));
        assert(other.genesis_validators_root.encoding() =~= b.subrange(2, 34));
        self.genesis_validators_root.lemma_encoding_injective(&other.genesis_validators_root);
    }

    fn size() -> (size: usize) {
        34
    }

    fn write(&self, out: &mut Vec<u8>) {
        self.last_client_id.write(out);
        self.minimal_headers_count.write(out);
        self.genesis_validators_root.write(out);
        proof {
            assert(out@ =~= old(out)@ + self.encoding());
        }
    }

    fn read(bytes: &[u8], start: usize) -> (value: Self) {
        let total = bytes.len();
        assert(start + Self::spec_size() <= total);
        let last_client_id = u8::read(bytes, start + 0);
        let minimal_headers_count = u8::read(bytes, start + 1);
        let genesis_validators_root = <[u8; 32]>::read(bytes, start + 2);
        let value = ClientInfo { last_client_id, minimal_headers_count, genesis_validators_root };
        proof {
            assert(value.encoding() =~= bytes@.subrange(start as int, start + 34));
        }
        value
    }
}

impl FixedSize for Client {
    open spec fn spec_size() -> nat {
        81
    }

    open spec fn encoding(&self) -> Seq<u8> {
        self.id.encoding()
            + self.minimal_slot.encoding()
            + self.maximal_slot.encoding()
            + self.tip_header_root.encoding()
            + self.headers_mmr_root.encoding()
    }

    proof fn lemma_encoding_len(&self) {
        self.id.lemma_encoding_len();
        self.minimal_slot.lemma_encoding_len();
        self.maximal_slot.lemma_encoding_len();
        self.tip_header_root.lemma_encoding_len();
        self.headers_mmr_root.lemma_encoding_len();
    }

    proof fn lemma_encoding_injective(&self, other: &Self) {
        self.lemma_encoding_len();
        other.lemma_encoding_len();
        self.id.lemma_encoding_len();
        other.id.lemma_encoding_len();
        self.minimal_slot.lemma_encoding_len();
        other.minimal_slot.lemma_encoding_len();
        self.maximal_slot.lemma_encoding_len();
        other.maximal_slot.lemma_encoding_len();
        self.tip_header_root.lemma_encoding_len();
        other.tip_header_root.lemma_encoding_len();
        self.headers_mmr_root.lemma_encoding_len();
        other.headers_mmr_root.lemma_encoding_len();
        let a = self.encoding();
        let b = other.encoding();
        assert(self.id.encoding() =~= a.subrange(0, 1));
        assert(other.id.encoding() =~= b.subrange(0, 1));
        self.id.lemma_encoding_injective(&other.id);
        assert(self.minimal_slot.encoding() =~= a.subrange(1, 9));
        assert(other.minimal_slot.encoding() =~= b.subrange(1, 9));
        self.minimal_slot.lemma_encoding_injective(&other.minimal_slot);
        assert(self.maximal_slot.encoding() =~= a.subrange(9, 17));
        assert(other.maximal_slot.encoding() =~= b.subrange(9, 17));
        self.maximal_slot.lemma_encoding_injective(&other.maximal_slot);
        assert(self.tip_header_root.encoding() =~= a.subrange(17, 49));
        assert(other.tip_header_root.encoding() =~= b.subrange(17, 49));
        self.tip_header_root.lemma_encoding_injective(&other.tip_header_root);
        assert(self.headers_mmr_root.encoding() =~= a.subrange(49, 81));
        assert(other.headers_mmr_root.encoding() =~= b.subrange(49, 81));
        self.headers_mmr_root.lemma_encoding_injective(&other.headers_mmr_root);
    }

    fn size() -> (size: usize) {
        81
    }

    fn write(&self, out: &mut Vec<u8>) {
        self.id.write(out);
        self.minimal_slot.write(out);
        self.maximal_slot.write(out);
        self.tip_header_root.write(out);
        self.headers_mmr_root.write(out);
        proof {
            assert(out@ =~= old(out)@ + self.encoding());
        }
    }

    fn read(bytes: &[u8], start: usize) -> (value: Self) {
        let total = bytes.len();
        assert(start + Self::spec_size() <= total);
        let id = u8::read(bytes, start + 0);
        let minimal_slot = u64::read(bytes, start + 1);
        let maximal_slot = u64::read(bytes, start + 9);
        let tip_header_root = <[u8; 32]>::read(bytes, start + 17);
        let headers_mmr_root = HeaderDigest::read(bytes, start + 49);
        let value = Client { id, minimal_slot, maximal_slot, tip_header_root, headers_mmr_root };
        proof {
            assert(value.encoding() =~= bytes@.subrange(start as int, start + 81));
        }
        value
    }
}

impl FixedSize for ClientTypeArgs {
    open spec fn spec_size() -> nat {
        33
    }

    open spec fn encoding(&self) -> Seq<u8> {
        self.type_id.encoding() + self.clients_count.encoding()
    }

    proof fn lemma_encoding_len(&self) {
        self.type_id.lemma_encoding_len();
        self.clients_count.lemma_encoding_len();
    }

    proof fn lemma_encoding_injective(&self, other: &Self) {
        self.lemma_encoding_len();
        other.lemma_encoding_len();
        self.type_id.lemma_encoding_len();
        other.type_id.lemma_encoding_len();
        self.clients_count.lemma_encoding_len();
        other.clients_count.lemma_encoding_len();
        let a = self.encoding();
        let b = other.encoding();
        assert(self.type_id.encoding() =~= a.subrange(0, 32));
        assert(other.type_id.encoding() =~= b.subrange(0, 32));
        self.type_id.lemma_encoding_injective(&other.type_id);
        assert(self.clients_count.encoding() =~= a.subrange(32, 33));
        assert(other.clients_count.encoding() =~= b.subrange(32, 33));
        self.clients_count.lemma_encoding_injective(&other.clients_count);
    }

    fn size() -> (size: usize) {
        33
    }

    fn write(&self, out: &mut Vec<u8>) {
        self.type_id.write(out);
        self.clients_count.write(out);
        proof {
            assert(out@ =~= old(out)@ + self.encoding());
        }
    }

    fn read(bytes: &[u8], start: usize) -> (value: Self) {
        let total = bytes.len();
        assert(start + Self::spec_size() <= total);
        let type_id = <[u8; 32]>::read(bytes, start + 0);
        let clients_count = u8::read(bytes, start + 32);
        let value = ClientTypeArgs { type_id, clients_count };
        proof {
            assert(value.encoding() =~= bytes@.subrange(start as int, start + 33));
        }
        value
    }
}

} // verus!
