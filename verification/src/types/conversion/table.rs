//! The frame of a table and of a vector of records that vary in size:
//! the whole length in four bytes, the offset of every part in four
//! bytes each, then the parts.

use vstd::prelude::*;

use crate::types::conversion::vector::PACKED_LIMIT;
use crate::utilities::endian::{
    le_bytes,
    le_value,
    lemma_le_bytes_of_le_value,
    lemma_le_value_of_le_bytes,
    lemma_pow256_values,
    push_le,
    read_le,
};
use crate::utilities::rlp_encoding::strings_view;

verus! {

/// The lengths of the parts, added up.
pub open spec fn parts_len(parts: Seq<Seq<u8>>) -> nat
    decreases parts.len(),
{
    if parts.len() == 0 {
        0
    } else {
        parts_len(parts.drop_last()) + parts.last().len()
    }
}

/// The parts, one after the other.
pub open spec fn parts_concat(parts: Seq<Seq<u8>>) -> Seq<u8>
    decreases parts.len(),
{
    if parts.len() == 0 {
        Seq::empty()
    } else {
        parts_concat(parts.drop_last()) + parts.last()
    }
}

/// The length of the header of a frame of `count` parts.
pub open spec fn header_len(count: nat) -> nat {
    4 + 4 * count
}

/// Where part `i` starts in the frame; for `i` the number of parts,
/// where the frame ends.
pub open spec fn part_offset(parts: Seq<Seq<u8>>, i: int) -> nat {
    header_len(parts.len()) + parts_len(parts.take(i))
}

/// The offsets of the first `n` parts, in four bytes each.
pub open spec fn offsets_encoding(parts: Seq<Seq<u8>>, n: nat) -> Seq<u8>
    decreases n,
{
    if n == 0 {
        Seq::empty()
    } else {
        offsets_encoding(parts, (n - 1) as nat) + le_bytes(part_offset(parts, n - 1), 4)
    }
}

/// The length of the frame of the parts.
pub open spec fn frame_len(parts: Seq<Seq<u8>>) -> nat {
    header_len(parts.len()) + parts_len(parts)
}

/// The frame of the parts.
pub open spec fn frame(parts: Seq<Seq<u8>>) -> Seq<u8> {
    le_bytes(frame_len(parts), 4) + offsets_encoding(parts, parts.len()) + parts_concat(parts)
}

/// Whether the frame of the parts is short enough for its lengths of 32
/// bits.
pub open spec fn framable(parts: Seq<Seq<u8>>) -> bool {
    frame_len(parts) < PACKED_LIMIT
}

/// The parts, one after the other, are as long as their lengths added
/// up; a prefix of the parts is no longer than the whole.
pub proof fn lemma_parts_len(parts: Seq<Seq<u8>>, i: int)
    requires
        0 <= i <= parts.len(),
    ensures
        parts_concat(parts).len() == parts_len(parts),
        parts_len(parts.take(i)) <= parts_len(parts),
        i < parts.len() ==> parts_len(parts.take(i + 1)) == parts_len(parts.take(i)) + parts[i].len(),
        i < parts.len() ==> parts_concat(parts).subrange(
            parts_len(parts.take(i)) as int,
            parts_len(parts.take(i + 1)) as int,
        ) == parts[i],
    decreases parts.len(),
{
    if parts.len() > 0 {
        let rest = parts.drop_last();
        if i < parts.len() {
            lemma_parts_len(rest, i);
            assert(rest.take(i) =~= parts.take(i));
            if i + 1 < parts.len() {
                lemma_parts_len(rest, i + 1);
                assert(rest.take(i + 1) =~= parts.take(i + 1));
                assert(rest[i] == parts[i]);
                assert(parts_concat(parts).subrange(
                    parts_len(parts.take(i)) as int,
                    parts_len(parts.take(i + 1)) as int,
                ) =~= parts_concat(rest).subrange(
                    parts_len(rest.take(i)) as int,
                    parts_len(rest.take(i + 1)) as int,
                ));
            } else {
                assert(parts.take(i + 1) =~= parts);
                assert(rest.take(i) =~= rest);
                assert(parts_concat(parts).subrange(
                    parts_len(parts.take(i)) as int,
                    parts_len(parts.take(i + 1)) as int,
                ) =~= parts.last());
            }
        } else {
            lemma_parts_len(rest, rest.len() as int);
            assert(parts.take(i) =~= parts);
        }
    } else {
        assert(parts.take(i) =~= parts);
    }
}

/// The offsets of the first `n` parts take four bytes each, and offset
/// `k` stands at four times `k`.
pub proof fn lemma_offsets_encoding(parts: Seq<Seq<u8>>, n: nat, k: int)
    requires
        0 <= k < n,
    ensures
        offsets_encoding(parts, n).len() == 4 * n,
        offsets_encoding(parts, n).subrange(4 * k, 4 * k + 4) == le_bytes(part_offset(parts, k), 4),
    decreases n,
{
    lemma_offsets_encoding_len(parts, n);
    lemma_offsets_encoding_len(parts, (n - 1) as nat);
    if k < n - 1 {
        lemma_offsets_encoding(parts, (n - 1) as nat, k);
        assert(offsets_encoding(parts, n).subrange(4 * k, 4 * k + 4) =~= offsets_encoding(
            parts,
            (n - 1) as nat,
        ).subrange(4 * k, 4 * k + 4));
    } else {
        assert(offsets_encoding(parts, n).subrange(4 * k, 4 * k + 4) =~= le_bytes(part_offset(parts, k), 4));
    }
}

/// The offsets of the first `n` parts take four bytes each.
pub proof fn lemma_offsets_encoding_len(parts: Seq<Seq<u8>>, n: nat)
    ensures
        offsets_encoding(parts, n).len() == 4 * n,
    decreases n,
{
    if n > 0 {
        lemma_offsets_encoding_len(parts, (n - 1) as nat);
    }
}

/// The shape of a frame: its length, the bytes that state it, the bytes
/// that state the offset of each part, and the parts where their
/// offsets say.
pub proof fn lemma_frame_shape(parts: Seq<Seq<u8>>)
    requires
        framable(parts),
    ensures
        frame(parts).len() == frame_len(parts),
        frame(parts).subrange(0, 4) == le_bytes(frame_len(parts), 4),
        le_value(frame(parts).subrange(0, 4)) == frame_len(parts),
        forall|k: int|
            0 <= k < parts.len() ==> #[trigger] frame(parts).subrange(4 + 4 * k, 8 + 4 * k) == le_bytes(
                part_offset(parts, k),
                4,
            ),
        forall|k: int|
            0 <= k < parts.len() ==> le_value(#[trigger] frame(parts).subrange(4 + 4 * k, 8 + 4 * k))
                == part_offset(parts, k),
        forall|k: int|
            0 <= k < parts.len() ==> #[trigger] parts[k] == frame(parts).subrange(
                part_offset(parts, k) as int,
                part_offset(parts, k + 1) as int,
            ),
        forall|k: int|
            0 <= k < parts.len() ==> part_offset(parts, k) <= #[trigger] part_offset(parts, k + 1) <= frame_len(
                parts,
            ),
        part_offset(parts, parts.len() as int) == frame_len(parts),
        part_offset(parts, 0) == header_len(parts.len()),
{
    let whole = frame(parts);
    let n = parts.len();
    lemma_pow256_values();
    lemma_offsets_encoding_len(parts, n);
    lemma_parts_len(parts, 0);
    assert(parts.take(n as int) =~= parts);
    assert(parts.take(0) =~= Seq::<Seq<u8>>::empty());
    assert(whole.subrange(0, 4) =~= le_bytes(frame_len(parts), 4));
    lemma_le_value_of_le_bytes(frame_len(parts), 4);
    assert forall|k: int| 0 <= k < n implies #[trigger] whole.subrange(4 + 4 * k, 8 + 4 * k) == le_bytes(
        part_offset(parts, k),
        4,
    ) by {
        lemma_frame_part(parts, k);
    }
    assert forall|k: int| 0 <= k < n implies le_value(#[trigger] whole.subrange(4 + 4 * k, 8 + 4 * k))
        == part_offset(parts, k) by {
        lemma_frame_part(parts, k);
    }
    assert forall|k: int| 0 <= k < n implies #[trigger] parts[k] == whole.subrange(
        part_offset(parts, k) as int,
        part_offset(parts, k + 1) as int,
    ) by {
        lemma_frame_part(parts, k);
    }
    assert forall|k: int| 0 <= k < n implies part_offset(parts, k) <= #[trigger] part_offset(parts, k + 1)
        <= frame_len(parts) by {
        lemma_frame_part(parts, k);
    }
}

/// Part `k` of a frame and the bytes that state its offset.
pub proof fn lemma_frame_part(parts: Seq<Seq<u8>>, k: int)
    requires
        framable(parts),
        0 <= k < parts.len(),
    ensures
        frame(parts).subrange(4 + 4 * k, 8 + 4 * k) == le_bytes(part_offset(parts, k), 4),
        le_value(frame(parts).subrange(4 + 4 * k, 8 + 4 * k)) == part_offset(parts, k),
        parts[k] == frame(parts).subrange(part_offset(parts, k) as int, part_offset(parts, k + 1) as int),
        part_offset(parts, k) <= part_offset(parts, k + 1) <= frame_len(parts),
{
    let whole = frame(parts);
    let n = parts.len();
    lemma_pow256_values();
    lemma_offsets_encoding_len(parts, n);
    lemma_offsets_encoding(parts, n, k);
    lemma_parts_len(parts, k);
    lemma_parts_len(parts, k + 1);
    assert(whole.subrange(4 + 4 * k, 8 + 4 * k) =~= offsets_encoding(parts, n).subrange(4 * k, 4 * k + 4));
    lemma_le_value_of_le_bytes(part_offset(parts, k), 4);
    assert(whole.subrange(part_offset(parts, k) as int, part_offset(parts, k + 1) as int) =~= parts_concat(
        parts,
    ).subrange(parts_len(parts.take(k)) as int, parts_len(parts.take(k + 1)) as int));
}

/// Parts with the same frame are the same parts.
pub proof fn lemma_frame_injective(a: Seq<Seq<u8>>, b: Seq<Seq<u8>>)
    requires
        framable(a),
        framable(b),
        frame(a) == frame(b),
    ensures
        a == b,
{
    lemma_frame_shape(a);
    lemma_frame_shape(b);
    lemma_pow256_values();
    if a.len() == 0 || b.len() == 0 {
        if a.len() > 0 {
            assert(le_value(frame(a).subrange(4 + 4 * 0int, 8 + 4 * 0int)) == part_offset(a, 0));
            assert(part_offset(a, 0) <= part_offset(a, 1));
        }
        if b.len() > 0 {
            assert(le_value(frame(b).subrange(4 + 4 * 0int, 8 + 4 * 0int)) == part_offset(b, 0));
            assert(part_offset(b, 0) <= part_offset(b, 1));
        }
        assert(a.len() == b.len());
        assert(a =~= b);
    } else {
        assert(le_value(frame(a).subrange(4 + 4 * 0int, 8 + 4 * 0int)) == part_offset(a, 0));
        assert(le_value(frame(b).subrange(4 + 4 * 0int, 8 + 4 * 0int)) == part_offset(b, 0));
        assert(a.len() == b.len());
        assert forall|k: int| 0 <= k <= a.len() implies part_offset(a, k) == part_offset(b, k) by {
            if k < a.len() {
                assert(le_value(frame(a).subrange(4 + 4 * k, 8 + 4 * k)) == part_offset(a, k));
                assert(le_value(frame(b).subrange(4 + 4 * k, 8 + 4 * k)) == part_offset(b, k));
            }
        }
        assert forall|k: int| 0 <= k < a.len() implies a[k] == b[k] by {
            assert(a[k] == frame(a).subrange(part_offset(a, k) as int, part_offset(a, k + 1) as int));
            assert(b[k] == frame(b).subrange(part_offset(b, k) as int, part_offset(b, k + 1) as int));
            assert(part_offset(a, k) == part_offset(b, k));
            assert(part_offset(a, k + 1) == part_offset(b, k + 1));
        }
        assert(a =~= b);
    }
}

/// Frames the parts.
pub fn frame_parts(parts: &Vec<Vec<u8>>) -> (framed: Vec<u8>)
    requires
        framable(strings_view(parts@)),
    ensures
        framed@ == frame(strings_view(parts@)),
{
    let ghost view = strings_view(parts@);
    let count = parts.len();
    let header: u64 = 4 + 4 * (count as u64);
    let mut total: u64 = header;
    let mut i: usize = 0;
    proof {
        assert(view.take(0) =~= Seq::<Seq<u8>>::empty());
        lemma_parts_len(view, 0);
    }
    while i < count
        invariant
            i <= count,
            count == parts@.len(),
            view == strings_view(parts@),
            framable(view),
            header == header_len(count as nat),
            total == header + parts_len(view.take(i as int)),
        decreases count - i,
    {
        proof {
            lemma_parts_len(view, i as int);
            lemma_parts_len(view, i + 1);
            assert(view[i as int] == parts@[i as int]@);
        }
        total = total + parts[i].len() as u64;
        i = i + 1;
    }
    proof {
        assert(view.take(count as int) =~= view);
    }
    let mut framed: Vec<u8> = Vec::new();
    push_le(&mut framed, total, 4);
    let mut offset: u64 = header;
    let mut i: usize = 0;
    proof {
        assert(framed@ =~= le_bytes(frame_len(view), 4) + offsets_encoding(view, 0));
    }
    while i < count
        invariant
            i <= count,
            count == parts@.len(),
            view == strings_view(parts@),
            framable(view),
            offset == part_offset(view, i as int),
            framed@ == le_bytes(frame_len(view), 4) + offsets_encoding(view, i as nat),
        decreases count - i,
    {
        proof {
            lemma_parts_len(view, i as int);
            lemma_parts_len(view, i + 1);
            assert(view[i as int] == parts@[i as int]@);
        }
        push_le(&mut framed, offset, 4);
        proof {
            assert(framed@ =~= le_bytes(frame_len(view), 4) + offsets_encoding(view, (i + 1) as nat));
        }
        offset = offset + parts[i].len() as u64;
        i = i + 1;
    }
    let mut i: usize = 0;
    let ghost head = framed@;
    proof {
        assert(framed@ =~= head + parts_concat(view.take(0)));
    }
    while i < count
        invariant
            i <= count,
            count == parts@.len(),
            view == strings_view(parts@),
            framed@ == head + parts_concat(view.take(i as int)),
        decreases count - i,
    {
        let part = &parts[i];
        let mut k: usize = 0;
        let ghost before = framed@;
        while k < part.len()
            invariant
                k <= part.len(),
                framed@ == before + part@.take(k as int),
            decreases part.len() - k,
        {
            framed.push(part[k]);
            proof {
                assert(framed@ =~= before + part@.take(k + 1));
            }
            k = k + 1;
        }
        proof {
            assert(part@.take(part@.len() as int) =~= part@);
            assert(view.take(i + 1).drop_last() =~= view.take(i as int));
            assert(view.take(i + 1).last() == part@);
            assert(framed@ =~= head + parts_concat(view.take(i + 1)));
        }
        i = i + 1;
    }
    proof {
        assert(view.take(count as int) =~= view);
    }
    framed
}

/// The parts of `bytes` that lie between neighbouring bounds.
pub open spec fn bounded_parts(bytes: Seq<u8>, bounds: Seq<usize>) -> Seq<Seq<u8>> {
    Seq::new((bounds.len() - 1) as nat, |i: int| bytes.subrange(bounds[i] as int, bounds[i + 1] as int))
}

/// Whether the bounds rise from the first to the last and stay in
/// `bytes`.
pub open spec fn bounds_rise(bytes: Seq<u8>, bounds: Seq<usize>) -> bool {
    &&& bounds.len() > 0
    &&& bounds[bounds.len() - 1] <= bytes.len()
    &&& forall|i: int| 0 <= i < bounds.len() - 1 ==> #[trigger] bounds[i] <= bounds[i + 1]
}

/// Between rising bounds the parts add up to the distance of the bounds,
/// and stand one after the other as the bytes do.
pub proof fn lemma_bounded_parts(bytes: Seq<u8>, bounds: Seq<usize>, i: int)
    requires
        bounds_rise(bytes, bounds),
        0 <= i < bounds.len(),
    ensures
        bounds[0] <= bounds[i] <= bounds[bounds.len() - 1],
        parts_len(bounded_parts(bytes, bounds).take(i)) == bounds[i] - bounds[0],
        parts_concat(bounded_parts(bytes, bounds).take(i)) == bytes.subrange(bounds[0] as int, bounds[i] as int),
    decreases i,
{
    let parts = bounded_parts(bytes, bounds);
    lemma_bounds_order(bytes, bounds, i, bounds.len() - 1);
    if i > 0 {
        lemma_bounded_parts(bytes, bounds, i - 1);
        assert(bounds[i - 1] <= bounds[i]);
        assert(parts.take(i).drop_last() =~= parts.take(i - 1));
        assert(parts.take(i).last() == bytes.subrange(bounds[i - 1] as int, bounds[i] as int));
        assert(parts_concat(parts.take(i)) =~= bytes.subrange(bounds[0] as int, bounds[i] as int));
    } else {
        assert(parts.take(0) =~= Seq::<Seq<u8>>::empty());
        assert(parts_concat(parts.take(0)) =~= bytes.subrange(bounds[0] as int, bounds[0] as int));
    }
}

/// Rising bounds are in order.
pub proof fn lemma_bounds_order(bytes: Seq<u8>, bounds: Seq<usize>, i: int, j: int)
    requires
        bounds_rise(bytes, bounds),
        0 <= i <= j < bounds.len(),
    ensures
        bounds[i] <= bounds[j],
    decreases j - i,
{
    if i < j {
        lemma_bounds_order(bytes, bounds, i, j - 1);
        assert(bounds[j - 1] <= bounds[j]);
    }
}

/// Offsets whose bytes stand four by four in `data` are the encoding of
/// the offsets.
pub proof fn lemma_offsets_from_chunks(parts: Seq<Seq<u8>>, n: nat, data: Seq<u8>)
    requires
        n <= parts.len(),
        data.len() >= 4 * n,
        forall|k: int|
            0 <= k < n ==> #[trigger] data.subrange(4 * k, 4 * k + 4) == le_bytes(part_offset(parts, k), 4),
    ensures
        offsets_encoding(parts, n) == data.subrange(0, (4 * n) as int),
    decreases n,
{
    if n > 0 {
        lemma_offsets_from_chunks(parts, (n - 1) as nat, data);
        let k = n - 1;
        assert(data.subrange(4 * k, 4 * k + 4) == le_bytes(part_offset(parts, k), 4));
        assert(offsets_encoding(parts, n) =~= data.subrange(0, (4 * n) as int));
    } else {
        assert(offsets_encoding(parts, 0) =~= data.subrange(0, 0));
    }
}

/// The offset that a frame states for part `k`.
pub open spec fn stated_offset(region: Seq<u8>, k: int) -> nat {
    le_value(region.subrange(4 + 4 * k, 8 + 4 * k))
}

/// What the first bytes of a frame say: its length, and with the first
/// offset the number of its parts.
pub proof fn lemma_frame_head(parts: Seq<Seq<u8>>)
    requires
        framable(parts),
    ensures
        4 <= frame(parts).len() < PACKED_LIMIT,
        le_value(frame(parts).subrange(0, 4)) == frame(parts).len(),
        parts.len() == 0 <==> frame(parts).len() == 4,
        parts.len() > 0 ==> frame(parts).len() >= 8 && stated_offset(frame(parts), 0) == 4 + 4 * parts.len(),
{
    lemma_frame_shape(parts);
    if parts.len() > 0 {
        lemma_frame_part(parts, 0);
    }
}

/// The offset that a frame states for part `k` is where the part
/// starts: inside the frame, and not after the next offset.
pub proof fn lemma_frame_offset(parts: Seq<Seq<u8>>, k: int)
    requires
        framable(parts),
        0 <= k < parts.len(),
    ensures
        stated_offset(frame(parts), k) == part_offset(parts, k),
        stated_offset(frame(parts), k) <= frame(parts).len(),
        k + 1 < parts.len() ==> stated_offset(frame(parts), k) <= stated_offset(frame(parts), k + 1),
{
    lemma_frame_shape(parts);
    lemma_frame_part(parts, k);
    if k + 1 < parts.len() {
        lemma_frame_part(parts, k + 1);
    }
}

/// Reads the bounds of the parts of a frame whose length is checked:
/// the offsets that the header states, and the end.
#[verifier::rlimit(40)]
fn read_bounds(bytes: &[u8], start: usize, end: usize) -> (split: Option<Vec<usize>>)
    requires
        start <= end <= bytes@.len(),
        8 <= end - start < PACKED_LIMIT,
    ensures
        split matches Some(bounds) ==> {
            let region = bytes@.subrange(start as int, end as int);
            &&& bounds_rise(bytes@, bounds@)
            &&& bounds@.len() >= 2
            &&& bounds@[bounds@.len() - 1] == end
            &&& stated_offset(region, 0) == 4 + 4 * (bounds@.len() - 1)
            &&& forall|k: int|
                0 <= k < bounds@.len() - 1 ==> #[trigger] bounds@[k] == start + stated_offset(region, k)
        },
        split is None ==> forall|parts: Seq<Seq<u8>>|
            framable(parts) ==> #[trigger] frame(parts) != bytes@.subrange(start as int, end as int),
{
    let ghost region = bytes@.subrange(start as int, end as int);
    let length = end - start;
    let whole = bytes.len();
    proof {
        lemma_pow256_values();
    }
    let first = read_le(bytes, start + 4, 4);
    proof {
        assert(region.subrange(4 + 4 * 0int, 8 + 4 * 0int) =~= bytes@.subrange(start + 4, start + 8));
        assert(first == stated_offset(region, 0));
    }
    if first % 4 != 0 || first < 8 || first > length as u64 {
        proof {
            assert forall|parts: Seq<Seq<u8>>| framable(parts) implies #[trigger] frame(parts) != region by {
                lemma_frame_head(parts);
                if frame(parts) == region {
                    lemma_frame_offset(parts, 0);
                }
            }
        }
        return None;
    }
    let count = (first / 4 - 1) as usize;
    let mut bounds: Vec<usize> = Vec::new();
    let mut previous: u64 = first;
    let mut i: usize = 0;
    while i < count
        invariant
            i <= count,
            count == first / 4 - 1,
            count >= 1,
            first % 4 == 0,
            8 <= first <= length,
            length < PACKED_LIMIT,
            length == end - start,
            start <= end <= whole,
            whole == bytes@.len(),
            region == bytes@.subrange(start as int, end as int),
            first == stated_offset(region, 0),
            bounds@.len() == i,
            previous <= length,
            i > 0 ==> previous == stated_offset(region, i - 1),
            forall|k: int| 0 <= k < i ==> #[trigger] bounds@[k] == start + stated_offset(region, k),
            forall|k: int| 0 <= k < i ==> #[trigger] stated_offset(region, k) <= length,
            forall|k: int| 0 <= k < i - 1 ==> #[trigger] stated_offset(region, k) <= stated_offset(region, k + 1),
        decreases count - i,
    {
        proof {
            assert(4 * (i + 1) + 4 <= first) by (nonlinear_arith)
                requires
                    i + 1 <= first / 4 - 1,
                    first % 4 == 0,
            ;
        }
        let offset = read_le(bytes, start + 4 + 4 * i, 4);
        proof {
            assert(region.subrange(4 + 4 * i, 8 + 4 * i) =~= bytes@.subrange(start + 4 + 4 * i, start + 8 + 4 * i));
            assert(offset == stated_offset(region, i as int));
        }
        if (i > 0 && offset < previous) || offset > length as u64 {
            proof {
                assert forall|parts: Seq<Seq<u8>>| framable(parts) implies #[trigger] frame(parts) != region by {
                    lemma_frame_head(parts);
                    if frame(parts) == region {
                        assert(parts.len() == count);
                        lemma_frame_offset(parts, i as int);
                        if i > 0 {
                            lemma_frame_offset(parts, i - 1);
                        }
                    }
                }
            }
            return None;
        }
        bounds.push(start + offset as usize);
        previous = offset;
        i = i + 1;
    }
    bounds.push(end);
    proof {
        assert forall|k: int| 0 <= k < bounds@.len() - 1 implies #[trigger] bounds@[k] <= bounds@[k + 1] by {
            if k < count - 1 {
                assert(stated_offset(region, k) <= stated_offset(region, k + 1));
                assert(bounds@[k + 1] == start + stated_offset(region, k + 1));
            } else {
                assert(stated_offset(region, k) <= length);
            }
        }
    }
    Some(bounds)
}

/// Where the header of some bytes states the bounds of their parts,
/// its offsets are the encoding of the offsets of those parts.
#[verifier::rlimit(40)]
pub proof fn lemma_bounds_offsets(bytes: Seq<u8>, start: int, end: int, bounds: Seq<usize>)
    requires
        0 <= start <= end <= bytes.len(),
        8 <= end - start < PACKED_LIMIT,
        bounds_rise(bytes, bounds),
        bounds.len() >= 2,
        bounds[bounds.len() - 1] == end,
        stated_offset(bytes.subrange(start, end), 0) == 4 + 4 * (bounds.len() - 1),
        forall|k: int|
            0 <= k < bounds.len() - 1 ==> #[trigger] bounds[k] == start + stated_offset(
                bytes.subrange(start, end),
                k,
            ),
    ensures
        offsets_encoding(bounded_parts(bytes, bounds), (bounds.len() - 1) as nat) == bytes.subrange(
            start,
            end,
        ).subrange(4, 4 + 4 * (bounds.len() - 1)),
{
    let region = bytes.subrange(start, end);
    let length = end - start;
    let parts = bounded_parts(bytes, bounds);
    let count = parts.len();
    let first = stated_offset(region, 0);
    lemma_pow256_values();
    assert(bounds[0] == start + first);
    lemma_bounded_parts(bytes, bounds, count as int);
    assert(first <= length);
    let data = region.subrange(4, length);
    assert forall|k: int| 0 <= k < count implies #[trigger] data.subrange(4 * k, 4 * k + 4) == le_bytes(
        part_offset(parts, k),
        4,
    ) by {
        lemma_bounded_parts(bytes, bounds, k);
        assert(data.subrange(4 * k, 4 * k + 4) =~= region.subrange(4 + 4 * k, 8 + 4 * k));
        assert(bounds[k] == start + stated_offset(region, k));
        assert(part_offset(parts, k) == stated_offset(region, k));
        lemma_le_bytes_of_le_value(region.subrange(4 + 4 * k, 8 + 4 * k));
    }
    lemma_offsets_from_chunks(parts, count, data);
    assert(data.subrange(0, (4 * count) as int) =~= region.subrange(4, (4 + 4 * count) as int));
}

/// Bytes whose header states their length and the bounds of their
/// parts are the frame of those parts.
#[verifier::rlimit(40)]
pub proof fn lemma_bounds_frame(bytes: Seq<u8>, start: int, end: int, bounds: Seq<usize>)
    requires
        0 <= start <= end <= bytes.len(),
        8 <= end - start < PACKED_LIMIT,
        bounds_rise(bytes, bounds),
        bounds.len() >= 2,
        bounds[bounds.len() - 1] == end,
        le_value(bytes.subrange(start, end).subrange(0, 4)) == end - start,
        stated_offset(bytes.subrange(start, end), 0) == 4 + 4 * (bounds.len() - 1),
        forall|k: int|
            0 <= k < bounds.len() - 1 ==> #[trigger] bounds[k] == start + stated_offset(
                bytes.subrange(start, end),
                k,
            ),
    ensures
        start <= bounds[0],
        framable(bounded_parts(bytes, bounds)),
        frame(bounded_parts(bytes, bounds)) == bytes.subrange(start, end),
{
    let region = bytes.subrange(start, end);
    let length = end - start;
    let parts = bounded_parts(bytes, bounds);
    let count = parts.len();
    let first = stated_offset(region, 0);
    lemma_pow256_values();
    assert(bounds[0] == start + first);
    lemma_bounded_parts(bytes, bounds, count as int);
    assert(parts.take(count as int) =~= parts);
    assert(parts_len(parts) == end - bounds[0]);
    assert(frame_len(parts) == length);
    lemma_bounds_offsets(bytes, start, end, bounds);
    lemma_le_bytes_of_le_value(region.subrange(0, 4));
    let a = le_bytes(frame_len(parts), 4);
    let b = offsets_encoding(parts, count);
    let c = parts_concat(parts);
    assert(a == region.subrange(0, 4));
    assert(b == region.subrange(4, first as int));
    assert(c =~= region.subrange(first as int, length)) by {
        assert(bytes.subrange(bounds[0] as int, end) =~= region.subrange(first as int, length));
    }
    assert(a + b + c =~= region);
}

/// Splits the frame that the bytes from `start` to `end` hold: the
/// bounds of its parts, one more than there are parts. `None` where the
/// bytes are no frame.
pub fn split_frame(bytes: &[u8], start: usize, end: usize) -> (split: Option<Vec<usize>>)
    requires
        start <= end <= bytes@.len(),
    ensures
        split matches Some(bounds) ==> {
            &&& bounds_rise(bytes@, bounds@)
            &&& start <= bounds@[0]
            &&& bounds@[bounds@.len() - 1] == end
            &&& framable(bounded_parts(bytes@, bounds@))
            &&& frame(bounded_parts(bytes@, bounds@)) == bytes@.subrange(start as int, end as int)
        },
        split is None ==> forall|parts: Seq<Seq<u8>>|
            framable(parts) ==> #[trigger] frame(parts) != bytes@.subrange(start as int, end as int),
{
    let ghost region = bytes@.subrange(start as int, end as int);
    let length = end - start;
    proof {
        lemma_pow256_values();
    }
    if length < 4 || length as u64 >= PACKED_LIMIT {
        proof {
            assert forall|parts: Seq<Seq<u8>>| framable(parts) implies #[trigger] frame(parts) != region by {
                lemma_frame_head(parts);
            }
        }
        return None;
    }
    let total = read_le(bytes, start, 4);
    proof {
        assert(region.subrange(0, 4) =~= bytes@.subrange(start as int, start + 4));
        lemma_le_bytes_of_le_value(region.subrange(0, 4));
    }
    if total != length as u64 {
        proof {
            assert forall|parts: Seq<Seq<u8>>| framable(parts) implies #[trigger] frame(parts) != region by {
                lemma_frame_head(parts);
            }
        }
        return None;
    }
    if length == 4 {
        let mut bounds: Vec<usize> = Vec::new();
        bounds.push(end);
        proof {
            let parts = bounded_parts(bytes@, bounds@);
            assert(parts =~= Seq::<Seq<u8>>::empty());
            assert(offsets_encoding(parts, 0) =~= Seq::<u8>::empty());
            assert(frame(parts) =~= region);
        }
        return Some(bounds);
    }
    if length < 8 {
        proof {
            assert forall|parts: Seq<Seq<u8>>| framable(parts) implies #[trigger] frame(parts) != region by {
                lemma_frame_head(parts);
            }
        }
        return None;
    }
    let bounds = match read_bounds(bytes, start, end) {
        Some(bounds) => bounds,
        None => {
            return None;
        },
    };
    proof {
        lemma_bounds_frame(bytes@, start as int, end as int, bounds@);
    }
    Some(bounds)
}

} // verus!
