use vstd::prelude::*;

use vstd::seq_lib::lemma_flatten_concat;

verus! {

/// Number of bytes that the first `i` segments contribute to the
/// flattened view: the position in the flat address space at which
/// segment `i` begins.
pub open spec fn flat_pos(segs: Seq<Seq<u8>>, i: int) -> int {
    segs.take(i).flatten().len() as int
}

/// The flattened view splits at any segment boundary.
pub proof fn lemma_flatten_split_at(segs: Seq<Seq<u8>>, i: int)
    requires
        0 <= i <= segs.len(),
    ensures
        segs.flatten() == segs.take(i).flatten() + segs.skip(i).flatten(),
{
    assert(segs =~= segs.take(i) + segs.skip(i));
    lemma_flatten_concat(segs.take(i), segs.skip(i));
}

/// The flattened view splits around any single segment.
pub proof fn lemma_flatten_decompose(segs: Seq<Seq<u8>>, i: int)
    requires
        0 <= i < segs.len(),
    ensures
        segs.flatten() == segs.take(i).flatten() + segs[i] + segs.skip(i + 1).flatten(),
{
    lemma_flatten_split_at(segs, i);
    assert(segs.skip(i).drop_first() =~= segs.skip(i + 1));
    assert(segs.skip(i).flatten() == segs[i] + segs.skip(i + 1).flatten());
}

/// Each segment advances the flat position by exactly its length.
pub proof fn lemma_flat_pos_step(segs: Seq<Seq<u8>>, i: int)
    requires
        0 <= i < segs.len(),
    ensures
        flat_pos(segs, i + 1) == flat_pos(segs, i) + segs[i].len(),
{
    assert(segs.take(i + 1) =~= segs.take(i).push(segs[i]));
    segs.take(i).lemma_flatten_push(segs[i]);
}

/// The flat position of any segment lies within the flattened view, with
/// the whole segment after it.
pub proof fn lemma_flat_pos_bounds(segs: Seq<Seq<u8>>, i: int)
    requires
        0 <= i <= segs.len(),
    ensures
        0 <= flat_pos(segs, i) <= segs.flatten().len(),
        i < segs.len() ==> flat_pos(segs, i) + segs[i].len() <= segs.flatten().len(),
        i == segs.len() ==> flat_pos(segs, i) == segs.flatten().len(),
{
    lemma_flatten_split_at(segs, i);
    if i < segs.len() {
        lemma_flatten_decompose(segs, i);
    }
    if i == segs.len() {
        assert(segs.take(i) =~= segs);
    }
}

/// Within the flattened view, the byte range of segment `i` between
/// in-segment positions `a` and `b` reads back the segment's own bytes.
pub proof fn lemma_flat_seg_bytes(segs: Seq<Seq<u8>>, i: int, a: int, b: int)
    requires
        0 <= i < segs.len(),
        0 <= a <= b <= segs[i].len(),
    ensures
        flat_pos(segs, i) + b <= segs.flatten().len(),
        segs.flatten().subrange(flat_pos(segs, i) + a, flat_pos(segs, i) + b) == segs[i].subrange(
            a,
            b,
        ),
{
    lemma_flat_pos_bounds(segs, i);
    lemma_flatten_decompose(segs, i);
    assert(segs.flatten().subrange(flat_pos(segs, i) + a, flat_pos(segs, i) + b) =~= segs[
        i
    ].subrange(a, b));
}

/// Replacing one segment splices its bytes into the flattened view in
/// place, leaving everything before and after unchanged.
pub proof fn lemma_flatten_update(segs: Seq<Seq<u8>>, i: int, s2: Seq<u8>)
    requires
        0 <= i < segs.len(),
    ensures
        segs.update(i, s2).flatten() == segs.take(i).flatten() + s2 + segs.skip(i + 1).flatten(),
{
    lemma_flatten_decompose(segs.update(i, s2), i);
    assert(segs.update(i, s2).take(i) =~= segs.take(i));
    assert(segs.update(i, s2).skip(i + 1) =~= segs.skip(i + 1));
}

/// Writing `bytes` into segment `i` at in-segment position `pos` splices
/// those bytes into the flattened view at flat position
/// `flat_pos(segs, i) + pos`, leaving all other bytes in place.
pub proof fn lemma_splice_step(cur: Seq<Seq<u8>>, i: int, pos: int, bytes: Seq<u8>, new_seg: Seq<u8>)
    requires
        0 <= i < cur.len(),
        0 <= pos,
        pos + bytes.len() <= cur[i].len(),
        new_seg == cur[i].subrange(0, pos) + bytes + cur[i].subrange(
            pos + bytes.len(),
            cur[i].len() as int,
        ),
    ensures
        flat_pos(cur, i) + pos + bytes.len() <= cur.flatten().len(),
        cur.update(i, new_seg).flatten() == cur.flatten().subrange(0, flat_pos(cur, i) + pos)
            + bytes + cur.flatten().skip(flat_pos(cur, i) + pos + bytes.len()),
        cur.update(i, new_seg).flatten().len() == cur.flatten().len(),
{
    lemma_flat_pos_bounds(cur, i);
    lemma_flatten_decompose(cur, i);
    lemma_flatten_update(cur, i, new_seg);
    let p = flat_pos(cur, i);
    assert(cur.flatten().subrange(0, p + pos) =~= cur.take(i).flatten() + cur[i].subrange(0, pos));
    assert(cur.flatten().skip(p + pos + bytes.len()) =~= cur[i].subrange(
        pos + bytes.len(),
        cur[i].len() as int,
    ) + cur.skip(i + 1).flatten());
    assert(cur.update(i, new_seg).flatten() =~= cur.flatten().subrange(0, p + pos) + bytes
        + cur.flatten().skip(p + pos + bytes.len()));
}

/// Flat positions depend only on the segments' lengths: two segment lists
/// whose first `i` segments have equal lengths agree on where segment `i`
/// begins.
pub proof fn lemma_flat_pos_congruent(s1: Seq<Seq<u8>>, s2: Seq<Seq<u8>>, i: int)
    requires
        0 <= i <= s1.len(),
        i <= s2.len(),
        forall|k: int| 0 <= k < i ==> #[trigger] s1[k].len() == s2[k].len(),
    ensures
        flat_pos(s1, i) == flat_pos(s2, i),
    decreases i,
{
    if i > 0 {
        lemma_flat_pos_congruent(s1, s2, i - 1);
        lemma_flat_pos_step(s1, i - 1);
        lemma_flat_pos_step(s2, i - 1);
    } else {
        assert(s1.take(0) =~= Seq::<Seq<u8>>::empty());
        assert(s2.take(0) =~= Seq::<Seq<u8>>::empty());
        vstd::seq_lib::lemma_flatten_concat(Seq::<Seq<u8>>::empty(), Seq::<Seq<u8>>::empty());
        assert(Seq::<Seq<u8>>::empty().flatten() =~= Seq::<u8>::empty());
    }
}

} // verus!
