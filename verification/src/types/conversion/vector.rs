//! Packed forms of fixed-size records and of vectors of them: a vector
//! is the number of its items in four bytes, then the items.

use vstd::prelude::*;

use crate::types::conversion::fixed::FixedSize;
use crate::types::prelude::Pack;
use crate::utilities::endian::{
    le_bytes,
    le_value,
    lemma_le_bytes_of_le_value,
    lemma_le_value_of_le_bytes,
    lemma_pow256_values,
    push_le,
    read_le,
};

verus! {

/// The largest length that the packed form can state, and one more.
pub const PACKED_LIMIT: u64 = 0x1_0000_0000;

impl<T: FixedSize> Pack for T {
    open spec fn spec_pack(&self) -> Seq<u8> {
        self.encoding()
    }

    open spec fn packable(&self) -> bool {
        true
    }

    open spec fn same(&self, other: &Self) -> bool {
        *self == *other
    }

    proof fn lemma_pack_injective(&self, other: &Self) {
        self.lemma_encoding_injective(other);
    }

    fn pack(&self) -> (packed: Vec<u8>) {
        let mut packed: Vec<u8> = Vec::new();
        self.write(&mut packed);
        proof {
            assert(packed@ =~= self.encoding());
        }
        packed
    }

    fn unpack_from(bytes: &[u8], start: usize, end: usize) -> (value: Option<Self>) {
        if end - start != T::size() {
            proof {
                let region = bytes@.subrange(start as int, end as int);
                assert forall|x: Self| x.packable() implies #[trigger] x.spec_pack() != region by {
                    x.lemma_encoding_len();
                }
            }
            return None;
        }
        Some(T::read(bytes, start))
    }
}

/// The packed forms of the items, one after the other.
pub open spec fn items_encoding<T: FixedSize>(items: Seq<T>) -> Seq<u8>
    decreases items.len(),
{
    if items.len() == 0 {
        Seq::empty()
    } else {
        items_encoding(items.drop_last()) + items.last().encoding()
    }
}

/// The packed items take their size each, and item `i` stands at `i`
/// times the size.
pub proof fn lemma_items_encoding<T: FixedSize>(items: Seq<T>)
    ensures
        items_encoding(items).len() == items.len() * T::spec_size(),
        forall|i: int|
            0 <= i < items.len() ==> (#[trigger] items[i]).encoding() == items_encoding(items).subrange(
                i * T::spec_size(),
                (i + 1) * T::spec_size(),
            ),
    decreases items.len(),
{
    let size = T::spec_size();
    if items.len() > 0 {
        let rest = items.drop_last();
        let last = items.last();
        lemma_items_encoding(rest);
        last.lemma_encoding_len();
        let whole = items_encoding(items);
        assert(rest.len() * size + size == items.len() * size) by (nonlinear_arith)
            requires
                rest.len() + 1 == items.len(),
        ;
        assert forall|i: int| 0 <= i < items.len() implies (#[trigger] items[i]).encoding() == whole.subrange(
            i * size,
            (i + 1) * size,
        ) by {
            assert((i + 1) * size == i * size + size) by (nonlinear_arith);
            if i < rest.len() {
                assert(items[i] == rest[i]);
                assert((i + 1) * size <= rest.len() * size) by (nonlinear_arith)
                    requires
                        i + 1 <= rest.len(),
                        size >= 0,
                ;
                assert(0 <= i * size) by (nonlinear_arith)
                    requires
                        0 <= i,
                        size >= 0,
                ;
                assert(whole.subrange(i * size, (i + 1) * size) =~= items_encoding(rest).subrange(
                    i * size,
                    (i + 1) * size,
                ));
            } else {
                assert(whole.subrange(i * size, (i + 1) * size) =~= last.encoding());
            }
        }
    } else {
        assert(items.len() * size == 0) by (nonlinear_arith)
            requires
                items.len() == 0,
        ;
    }
}

/// Items whose packed forms stand one after the other in `data` pack to
/// `data`.
pub proof fn lemma_items_encoding_of_parts<T: FixedSize>(items: Seq<T>, data: Seq<u8>)
    requires
        data.len() == items.len() * T::spec_size(),
        forall|i: int|
            0 <= i < items.len() ==> (#[trigger] items[i]).encoding() == data.subrange(
                i * T::spec_size(),
                (i + 1) * T::spec_size(),
            ),
    ensures
        items_encoding(items) == data,
    decreases items.len(),
{
    let size = T::spec_size();
    if items.len() > 0 {
        let rest = items.drop_last();
        let n = rest.len() as int;
        assert(n * size + size == items.len() * size) by (nonlinear_arith)
            requires
                n + 1 == items.len(),
        ;
        assert(0 <= n * size) by (nonlinear_arith)
            requires
                0 <= n,
                size >= 0,
        ;
        let front = data.subrange(0, n * size);
        assert forall|i: int| 0 <= i < rest.len() implies (#[trigger] rest[i]).encoding() == front.subrange(
            i * size,
            (i + 1) * size,
        ) by {
            assert(rest[i] == items[i]);
            assert((i + 1) * size <= n * size) by (nonlinear_arith)
                requires
                    i + 1 <= n,
                    size >= 0,
            ;
            assert(0 <= i * size) by (nonlinear_arith)
                requires
                    0 <= i,
                    size >= 0,
            ;
            assert(i * size <= (i + 1) * size) by (nonlinear_arith)
                requires
                    size >= 0,
            ;
            assert(front.subrange(i * size, (i + 1) * size) =~= data.subrange(i * size, (i + 1) * size));
        }
        lemma_items_encoding_of_parts(rest, front);
        assert(items[n] == items.last());
        assert((n + 1) * size == n * size + size) by (nonlinear_arith);
        assert(data =~= front + data.subrange(n * size, (n + 1) * size));
    } else {
        assert(items.len() * size == 0) by (nonlinear_arith)
            requires
                items.len() == 0,
        ;
        assert(data =~= Seq::<u8>::empty());
    }
}

/// The packed form of a vector of fixed-size items.
pub open spec fn vector_encoding<T: FixedSize>(items: Seq<T>) -> Seq<u8> {
    le_bytes(items.len(), 4) + items_encoding(items)
}

/// Vectors with the same packed form hold the same items.
pub proof fn lemma_vector_encoding_injective<T: FixedSize>(a: Seq<T>, b: Seq<T>)
    requires
        vector_encoding(a) == vector_encoding(b),
    ensures
        a == b,
{
    let size = T::spec_size();
    lemma_items_encoding(a);
    lemma_items_encoding(b);
    if a.len() > 0 {
        a[0].lemma_encoding_len();
    }
    if b.len() > 0 {
        b[0].lemma_encoding_len();
    }
    assert(vector_encoding(a).len() == 4 + a.len() * size);
    assert(vector_encoding(b).len() == 4 + b.len() * size);
    assert(a.len() == b.len()) by (nonlinear_arith)
        requires
            a.len() * size == b.len() * size,
            a.len() > 0 || b.len() > 0 ==> size > 0,
    ;
    assert(items_encoding(a) =~= vector_encoding(a).subrange(4, (4 + a.len() * size) as int));
    assert(items_encoding(b) =~= vector_encoding(b).subrange(4, (4 + b.len() * size) as int));
    assert forall|i: int| 0 <= i < a.len() implies a[i] == b[i] by {
        a[i].lemma_encoding_injective(&b[i]);
    }
    assert(a =~= b);
}

/// The packed form of a vector that can be packed states the number of
/// its items in its first four bytes and is as long as header and items.
pub proof fn lemma_vector_encoding_shape<T: FixedSize>(items: Seq<T>)
    requires
        4 + items.len() * T::spec_size() < PACKED_LIMIT,
    ensures
        vector_encoding(items).len() == 4 + items.len() * T::spec_size(),
        le_value(vector_encoding(items).subrange(0, 4)) == items.len(),
        items.len() < PACKED_LIMIT,
{
    lemma_pow256_values();
    lemma_items_encoding(items);
    if items.len() > 0 {
        items[0].lemma_encoding_len();
    }
    assert(items.len() < PACKED_LIMIT) by (nonlinear_arith)
        requires
            4 + items.len() * T::spec_size() < PACKED_LIMIT,
            items.len() > 0 ==> T::spec_size() > 0,
    ;
    assert(vector_encoding(items).subrange(0, 4) =~= le_bytes(items.len(), 4));
    lemma_le_value_of_le_bytes(items.len(), 4);
}

impl<T: FixedSize> Pack for Vec<T> {
    open spec fn spec_pack(&self) -> Seq<u8> {
        vector_encoding(self@)
    }

    open spec fn packable(&self) -> bool {
        4 + self@.len() * T::spec_size() < PACKED_LIMIT
    }

    open spec fn same(&self, other: &Self) -> bool {
        self@ == other@
    }

    proof fn lemma_pack_injective(&self, other: &Self) {
        lemma_vector_encoding_injective(self@, other@);
    }

    fn pack(&self) -> (packed: Vec<u8>) {
        let count = self.len();
        let mut packed: Vec<u8> = Vec::new();
        proof {
            if count > 0 {
                self@[0].lemma_encoding_len();
            }
            assert(count < PACKED_LIMIT) by (nonlinear_arith)
                requires
                    4 + count * T::spec_size() < PACKED_LIMIT,
                    count > 0 ==> T::spec_size() > 0,
            ;
        }
        push_le(&mut packed, count as u64, 4);
        let mut i: usize = 0;
        proof {
            assert(self@.take(0) =~= Seq::<T>::empty());
            assert(packed@ =~= le_bytes(count as nat, 4) + items_encoding(self@.take(0)));
        }
        while i < count
            invariant
                i <= count,
                count == self@.len(),
                packed@ == le_bytes(count as nat, 4) + items_encoding(self@.take(i as int)),
            decreases count - i,
        {
            self[i].write(&mut packed);
            proof {
                assert(self@.take(i + 1).drop_last() =~= self@.take(i as int));
                assert(self@.take(i + 1).last() == self@[i as int]);
                assert(packed@ =~= le_bytes(count as nat, 4) + items_encoding(self@.take(i + 1)));
            }
            i = i + 1;
        }
        proof {
            assert(self@.take(count as int) =~= self@);
        }
        packed
    }

    fn unpack_from(bytes: &[u8], start: usize, end: usize) -> (value: Option<Self>) {
        let ghost region = bytes@.subrange(start as int, end as int);
        let length = end - start;
        let total = bytes.len();
        let size = T::size();
        proof {
            lemma_pow256_values();
        }
        if length < 4 || length as u64 >= PACKED_LIMIT {
            proof {
                assert forall|x: Self| x.packable() implies #[trigger] x.spec_pack() != region by {
                    lemma_vector_encoding_shape(x@);
                }
            }
            return None;
        }
        let count = read_le(bytes, start, 4);
        proof {
            assert(region.subrange(0, 4) =~= bytes@.subrange(start as int, start + 4));
        }
        if (length as u64 - 4) % (size as u64) != 0 || (length as u64 - 4) / (size as u64) != count {
            proof {
                assert forall|x: Self| x.packable() implies #[trigger] x.spec_pack() != region by {
                    lemma_vector_encoding_shape(x@);
                    if x.spec_pack() == region {
                        assert(x@.len() == count);
                        assert(length - 4 == size * count + 0) by (nonlinear_arith)
                            requires
                                length == 4 + count * size,
                        ;
                        vstd::arithmetic::div_mod::lemma_fundamental_div_mod_converse(
                            (length - 4) as int,
                            size as int,
                            count as int,
                            0,
                        );
                    }
                }
            }
            return None;
        }
        proof {
            vstd::arithmetic::div_mod::lemma_fundamental_div_mod((length - 4) as int, size as int);
            assert(length - 4 == count * size) by (nonlinear_arith)
                requires
                    (length - 4) as int == size * ((length - 4) as int / size as int) + ((length - 4) as int
                        % size as int),
                    (length - 4) as int % size as int == 0,
                    (length - 4) as int / size as int == count,
            ;
            assert(count <= length - 4) by (nonlinear_arith)
                requires
                    length - 4 == count * size,
                    size > 0,
                    count >= 0,
            ;
        }
        let mut items: Vec<T> = Vec::new();
        let mut i: usize = 0;
        let ghost data = region.subrange(4, length as int);
        while i < count as usize
            invariant
                i <= count,
                start + 4 + count * size == end,
                end <= total,
                total == bytes@.len(),
                size == T::spec_size(),
                size > 0,
                region == bytes@.subrange(start as int, end as int),
                data == region.subrange(4, region.len() as int),
                items@.len() == i,
                forall|j: int|
                    0 <= j < i ==> (#[trigger] items@[j]).encoding() == data.subrange(j * size, (j + 1) * size),
            decreases count - i,
        {
            proof {
                assert((i + 1) * size <= count * size) by (nonlinear_arith)
                    requires
                        i + 1 <= count,
                        size >= 0,
                ;
                assert((i + 1) * size == i * size + size) by (nonlinear_arith);
                assert(0 <= i * size) by (nonlinear_arith)
                    requires
                        size >= 0,
                        i >= 0,
                ;
            }
            let item = T::read(bytes, start + 4 + i * size);
            proof {
                assert(data.subrange(i * size, (i + 1) * size) =~= bytes@.subrange(
                    start + 4 + i * size,
                    start + 4 + i * size + size,
                ));
            }
            items.push(item);
            i = i + 1;
        }
        proof {
            lemma_items_encoding_of_parts(items@, data);
            lemma_le_bytes_of_le_value(region.subrange(0, 4));
            assert(region =~= region.subrange(0, 4) + data);
            assert(items.spec_pack() =~= region);
        }
        Some(items)
    }
}

} // verus!
