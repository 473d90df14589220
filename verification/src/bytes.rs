//! What a gathered write stands for: the sequence of bytes that a list of segments,
//! the last of them repeated, spells out.

use vstd::prelude::*;

verus! {

/// The contents of each segment.
pub open spec fn views(data: Seq<&[u8]>) -> Seq<Seq<u8>> {
    Seq::new(data.len(), |i: int| data[i]@)
}

/// The parts, one after the other.
pub open spec fn joined(parts: Seq<Seq<u8>>) -> Seq<u8>
    decreases parts.len(),
{
    if parts.len() == 0 {
        Seq::empty()
    } else {
        joined(parts.drop_last()) + parts.last()
    }
}

/// `count` copies of `unit`, one after the other.
pub open spec fn repeated(unit: Seq<u8>, count: nat) -> Seq<u8>
    decreases count,
{
    if count == 0 {
        Seq::empty()
    } else {
        repeated(unit, (count - 1) as nat) + unit
    }
}

/// The segments that are written once: all but the last.
pub open spec fn heads(data: Seq<Seq<u8>>) -> Seq<Seq<u8>> {
    if data.len() == 0 {
        Seq::empty()
    } else {
        data.drop_last()
    }
}

/// The segment that is written `splat` times: the last.
pub open spec fn pattern(data: Seq<Seq<u8>>) -> Seq<u8> {
    if data.len() == 0 {
        Seq::empty()
    } else {
        data.last()
    }
}

/// The bytes that a gathered write asks for: every segment but the last once, then
/// the last one `splat` times.
pub open spec fn payload(data: Seq<Seq<u8>>, splat: nat) -> Seq<u8> {
    joined(heads(data)) + repeated(pattern(data), splat)
}

/// Whether the lengths of the segments that are written once add up to a `usize`.
pub open spec fn heads_fit(data: Seq<Seq<u8>>) -> bool {
    joined(heads(data)).len() <= usize::MAX
}

/// The parts that hold at least one byte, in their order.
pub open spec fn nonempty(parts: Seq<Seq<u8>>) -> Seq<Seq<u8>>
    decreases parts.len(),
{
    if parts.len() == 0 {
        Seq::empty()
    } else if parts.last().len() == 0 {
        nonempty(parts.drop_last())
    } else {
        nonempty(parts.drop_last()).push(parts.last())
    }
}

/// Whether `part` is the first of the parts that hold at least one byte, or empty if none
/// of them does.
pub open spec fn foremost(parts: Seq<Seq<u8>>, part: Seq<u8>) -> bool {
    if part.len() == 0 {
        forall|i: int| 0 <= i < parts.len() ==> (#[trigger] parts[i]).len() == 0
    } else {
        exists|i: int|
            {
                &&& 0 <= i < parts.len()
                &&& #[trigger] parts[i] == part
                &&& forall|j: int| 0 <= j < i ==> (#[trigger] parts[j]).len() == 0
            }
    }
}

/// `count` entries, each of them `unit`.
pub open spec fn copies(unit: Seq<u8>, count: nat) -> Seq<Seq<u8>> {
    Seq::new(count, |i: int| unit)
}

/// The slices that one vectored write is given: the staged bytes, the segments that
/// are written once, both without the empty ones, then the pattern `splat` times.
pub open spec fn gathered(staged: Seq<u8>, data: Seq<Seq<u8>>, splat: nat) -> Seq<Seq<u8>> {
    nonempty(seq![staged]) + nonempty(heads(data)) + copies(pattern(data), splat)
}

pub proof fn lemma_joined_push(parts: Seq<Seq<u8>>, part: Seq<u8>)
    ensures
        joined(parts.push(part)) == joined(parts) + part,
{
    assert(parts.push(part).drop_last() =~= parts);
}

pub proof fn lemma_joined_add(a: Seq<Seq<u8>>, b: Seq<Seq<u8>>)
    ensures
        joined(a + b) == joined(a) + joined(b),
    decreases b.len(),
{
    if b.len() > 0 {
        lemma_joined_add(a, b.drop_last());
        assert((a + b).drop_last() =~= a + b.drop_last());
    }
}

/// A part is no longer than what it is a part of, and what comes before it is a
/// prefix of the whole.
pub proof fn lemma_joined_take(parts: Seq<Seq<u8>>, i: int)
    requires
        0 <= i < parts.len(),
    ensures
        joined(parts.take(i + 1)) == joined(parts.take(i)) + parts[i],
        joined(parts.take(i + 1)).is_prefix_of(joined(parts)),
{
    assert(parts.take(i + 1) =~= parts.take(i).push(parts[i]));
    lemma_joined_push(parts.take(i), parts[i]);
    lemma_joined_add(parts.take(i + 1), parts.skip(i + 1));
    assert(parts.take(i + 1) + parts.skip(i + 1) =~= parts);
}

pub proof fn lemma_joined_nonempty(parts: Seq<Seq<u8>>)
    ensures
        joined(nonempty(parts)) == joined(parts),
    decreases parts.len(),
{
    if parts.len() > 0 {
        lemma_joined_nonempty(parts.drop_last());
        if parts.last().len() > 0 {
            lemma_joined_push(nonempty(parts.drop_last()), parts.last());
        }
    }
}

pub proof fn lemma_joined_copies(unit: Seq<u8>, count: nat)
    ensures
        joined(copies(unit, count)) == repeated(unit, count),
    decreases count,
{
    if count > 0 {
        lemma_joined_copies(unit, (count - 1) as nat);
        assert(copies(unit, count).drop_last() =~= copies(unit, (count - 1) as nat));
    }
}

/// A vectored write is given the staged bytes and then the payload, nothing else.
pub proof fn lemma_joined_gathered(staged: Seq<u8>, data: Seq<Seq<u8>>, splat: nat)
    ensures
        joined(gathered(staged, data, splat)) == staged + payload(data, splat),
{
    let a = nonempty(seq![staged]);
    let b = nonempty(heads(data));
    let c = copies(pattern(data), splat);
    lemma_joined_add(a + b, c);
    lemma_joined_add(a, b);
    lemma_joined_nonempty(seq![staged]);
    lemma_joined_nonempty(heads(data));
    lemma_joined_copies(pattern(data), splat);
    lemma_joined_push(Seq::<Seq<u8>>::empty(), staged);
}

/// Staged bytes alone are offered as one slice.
pub proof fn lemma_gathered_staged(staged: Seq<u8>)
    requires
        staged.len() > 0,
    ensures
        gathered(staged, seq![Seq::<u8>::empty()], 0) == seq![staged],
{
    let one = seq![staged];
    assert(nonempty(one.drop_last()) =~= Seq::<Seq<u8>>::empty());
}

pub proof fn lemma_repeated_len(unit: Seq<u8>, count: nat)
    ensures
        repeated(unit, count).len() == unit.len() * count,
    decreases count,
{
    if count > 0 {
        let less = (count - 1) as nat;
        lemma_repeated_len(unit, less);
        assert(unit.len() * less + unit.len() == unit.len() * count) by (nonlinear_arith)
            requires
                less + 1 == count,
        ;
    } else {
        assert(unit.len() * count == 0) by (nonlinear_arith)
            requires
                count == 0,
        ;
    }
}

/// Copies of a unit are a run of copies followed by the rest of them.
pub proof fn lemma_repeated_add(unit: Seq<u8>, a: nat, b: nat)
    ensures
        repeated(unit, a + b) == repeated(unit, a) + repeated(unit, b),
    decreases b,
{
    if b > 0 {
        lemma_repeated_add(unit, a, (b - 1) as nat);
    }
}

/// No segments ask for nothing, however often the last of them is to be written.
pub proof fn lemma_payload_none(splat: nat)
    ensures
        payload(Seq::<Seq<u8>>::empty(), splat) == Seq::<u8>::empty(),
{
    let none = Seq::<u8>::empty();
    lemma_repeated_len(none, splat);
    assert(none.len() * splat == 0) by (nonlinear_arith)
        requires
            none.len() == 0,
    ;
}

/// A single segment written once stands for itself.
pub proof fn lemma_payload_single(bytes: Seq<u8>)
    ensures
        payload(seq![bytes], 1) == bytes,
        heads_fit(seq![bytes]),
{
    lemma_payload_splat(bytes, 1);
    assert(repeated(bytes, 1) == repeated(bytes, 0) + bytes);
}

/// A single segment is the pattern, and nothing comes before it.
pub proof fn lemma_payload_splat(unit: Seq<u8>, count: nat)
    ensures
        payload(seq![unit], count) == repeated(unit, count),
        heads_fit(seq![unit]),
{
    let data = seq![unit];
}

} // verus!
