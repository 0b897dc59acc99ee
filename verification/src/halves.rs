//! Summing a slice of integers in two halves: the split, the sum of one
//! half, and the law that the halves add up to the whole.

use vstd::prelude::*;

verus! {

/// The mathematical sum of a sequence of integers.
pub open spec fn seq_sum(s: Seq<i32>) -> int
    decreases s.len(),
{
    if s.len() == 0 {
        0
    } else {
        seq_sum(s.drop_last()) + s.last()
    }
}

/// Whether a value fits in an `i32`.
pub open spec fn fits_i32(x: int) -> bool {
    i32::MIN <= x <= i32::MAX
}

/// Whether every running total of `s`, from the left, fits in an `i32`: the
/// condition under which adding up `s` one item at a time never overflows.
pub open spec fn running_sums_fit(s: Seq<i32>) -> bool {
    forall|k: int| 0 <= k <= s.len() ==> fits_i32(#[trigger] seq_sum(s.take(k)))
}

/// Where a slice of length `len` is split: the left half gets `len / 2`
/// items, the right half the rest.
pub open spec fn split_point(len: nat) -> nat {
    len / 2
}

/// Whether summing the two halves of `s` one item at a time, then adding the
/// two totals, never overflows.
pub open spec fn halves_fit(s: Seq<i32>) -> bool {
    let mid = split_point(s.len()) as int;
    &&& running_sums_fit(s.take(mid))
    &&& running_sums_fit(s.skip(mid))
    &&& fits_i32(seq_sum(s))
}

/// The sum of a concatenation is the sum of its parts.
pub proof fn lemma_sum_concat(a: Seq<i32>, b: Seq<i32>)
    ensures
        seq_sum(a + b) == seq_sum(a) + seq_sum(b),
    decreases b.len(),
{
    if b.len() == 0 {
        assert(a + b =~= a);
    } else {
        lemma_sum_concat(a, b.drop_last());
        assert((a + b).drop_last() =~= a + b.drop_last());
    }
}

/// The sum of nothing is zero, and the sum of one item is that item; with
/// the law of concatenation, the sum is the total of the items.
pub proof fn lemma_sum_of_few(x: i32)
    ensures
        seq_sum(Seq::<i32>::empty()) == 0,
        seq_sum(seq![x]) == x,
{
    assert(seq![x].drop_last() =~= Seq::<i32>::empty());
}

/// Splitting a sequence anywhere, the two parts add up to the whole.
pub proof fn lemma_halves_add_up(s: Seq<i32>, mid: int)
    requires
        0 <= mid <= s.len(),
    ensures
        seq_sum(s.take(mid)) + seq_sum(s.skip(mid)) == seq_sum(s),
{
    lemma_sum_concat(s.take(mid), s.skip(mid));
    assert(s.take(mid) + s.skip(mid) =~= s);
}

/// Adds up the items of a slice, left to right.
pub fn slice_sum(slice: &[i32]) -> (res: i32)
    requires
        running_sums_fit(slice@),
    ensures
        res == seq_sum(slice@),
{
    let mut total: i32 = 0;
    let mut i: usize = 0;
    assert(slice@.take(0) =~= Seq::<i32>::empty());
    while i < slice.len()
        invariant
            i <= slice@.len(),
            running_sums_fit(slice@),
            total == seq_sum(slice@.take(i as int)),
        decreases slice@.len() - i,
    {
        assert(slice@.take(i + 1).drop_last() =~= slice@.take(i as int));
        assert(fits_i32(seq_sum(slice@.take(i + 1))));
        total = total + slice[i];
        i = i + 1;
    }
    assert(slice@.take(slice@.len() as int) =~= slice@);
    total
}

/// Adds up the items of a slice, left to right, as long as every running
/// total fits in an `i32`; `None` as soon as one does not.
pub fn checked_slice_sum(slice: &[i32]) -> (res: Option<i32>)
    ensures
        res is Some <==> running_sums_fit(slice@),
        res matches Some(v) ==> v == seq_sum(slice@),
{
    let mut total: i32 = 0;
    let mut i: usize = 0;
    assert(slice@.take(0) =~= Seq::<i32>::empty());
    while i < slice.len()
        invariant
            i <= slice@.len(),
            total == seq_sum(slice@.take(i as int)),
            forall|k: int| 0 <= k <= i ==> fits_i32(#[trigger] seq_sum(slice@.take(k))),
        decreases slice@.len() - i,
    {
        assert(slice@.take(i + 1).drop_last() =~= slice@.take(i as int));
        match total.checked_add(slice[i]) {
            None => {
                assert(!fits_i32(seq_sum(slice@.take(i + 1))));
                return None;
            },
            Some(t) => {
                total = t;
            },
        }
        i = i + 1;
    }
    assert(slice@.take(slice@.len() as int) =~= slice@);
    Some(total)
}

/// The two halves of a slice: the left one has `len / 2` items, the right
/// one the rest.
pub fn split_halves<'a>(slice: &'a [i32]) -> (res: (&'a [i32], &'a [i32]))
    ensures
        res.0@ == slice@.take(split_point(slice@.len()) as int),
        res.1@ == slice@.skip(split_point(slice@.len()) as int),
{
    let mid = slice.len() / 2;
    let (left, right) = slice.split_at(mid);
    assert(left@ =~= slice@.take(mid as int));
    assert(right@ =~= slice@.skip(mid as int));
    (left, right)
}

/// Adds the totals of the two halves: `None` when the sum does not fit in
/// an `i32`.
pub fn add_half_sums(left: i32, right: i32) -> (res: Option<i32>)
    ensures
        match res {
            Some(v) => v == left + right,
            None => !fits_i32(left + right),
        },
{
    left.checked_add(right)
}

/// Sums a slice as two halves, split at `len / 2`, and adds the two totals.
pub fn sum_of_halves(slice: &[i32]) -> (res: i32)
    requires
        halves_fit(slice@),
    ensures
        res == seq_sum(slice@),
{
    let (left, right) = split_halves(slice);
    let l = slice_sum(left);
    let r = slice_sum(right);
    proof {
        lemma_halves_add_up(slice@, split_point(slice@.len()) as int);
    }
    l + r
}

} // verus!
