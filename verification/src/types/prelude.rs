//! The two conversions between a record and its packed form.

use vstd::prelude::*;

verus! {

/// A record that has a packed form.
pub trait Pack: Sized {
    /// The packed form of the record.
    spec fn spec_pack(&self) -> Seq<u8>;

    /// Whether the record is small enough for its packed form, whose
    /// lengths and offsets are numbers of 32 bits.
    spec fn packable(&self) -> bool;

    /// Whether two records hold the same.
    spec fn same(&self, other: &Self) -> bool;

    /// Records with the same packed form hold the same.
    proof fn lemma_pack_injective(&self, other: &Self)
        requires
            self.packable(),
            other.packable(),
            self.spec_pack() == other.spec_pack(),
        ensures
            self.same(other),
    ;

    /// Packs the record.
    fn pack(&self) -> (packed: Vec<u8>)
        requires
            self.packable(),
        ensures
            packed@ == self.spec_pack(),
    ;

    /// Unpacks the record whose packed form is the bytes from `start` to
    /// `end`: the record that packs to just these bytes, and `None`
    /// where no record does.
    fn unpack_from(bytes: &[u8], start: usize, end: usize) -> (value: Option<Self>)
        requires
            start <= end <= bytes@.len(),
        ensures
            value matches Some(v) ==> v.packable() && v.spec_pack() == bytes@.subrange(start as int, end as int),
            value is None ==> forall|x: Self|
                x.packable() ==> #[trigger] x.spec_pack() != bytes@.subrange(start as int, end as int),
    ;
}

/// Bytes that may be the packed form of a record.
pub trait Unpack<T: Pack> {
    /// The bytes.
    spec fn packed_bytes(&self) -> Seq<u8>;

    /// Unpacks the record that the bytes are the packed form of; `None`
    /// where they are the packed form of no record.
    fn unpack(&self) -> (value: Option<T>)
        ensures
            value matches Some(v) ==> v.packable() && v.spec_pack() == self.packed_bytes(),
            value is None ==> forall|x: T| x.packable() ==> #[trigger] x.spec_pack() != self.packed_bytes(),
    ;
}

impl<T: Pack> Unpack<T> for [u8] {
    open spec fn packed_bytes(&self) -> Seq<u8> {
        self@
    }

    fn unpack(&self) -> (value: Option<T>) {
        proof {
            assert(self@.subrange(0, self@.len() as int) =~= self@);
        }
        T::unpack_from(self, 0, self.len())
    }
}

/// Unpacking what was packed gives the record back: whatever an
/// unpacking that keeps its contract returns for the packed form of `x`
/// is a record that holds the same as `x`.
pub proof fn lemma_unpack_of_pack<T: Pack>(x: T, unpacked: Option<T>)
    requires
        x.packable(),
        unpacked matches Some(v) ==> v.packable() && v.spec_pack() == x.spec_pack(),
        unpacked is None ==> forall|y: T| y.packable() ==> #[trigger] y.spec_pack() != x.spec_pack(),
    ensures
        unpacked is Some,
        unpacked.unwrap().same(&x),
{
    if unpacked is Some {
        unpacked.unwrap().lemma_pack_injective(&x);
    } else {
        let packed = x.spec_pack();
        assert(packed == x.spec_pack());
        assert(false);
    }
}

} // verus!
