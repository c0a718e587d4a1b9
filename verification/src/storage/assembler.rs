//! A bounded set of byte offsets, kept as disjoint ranges.
use vstd::prelude::*;

use crate::config::ASSEMBLER_MAX_SEGMENT_COUNT;

verus! {

/// The offsets from the first number up to, but not including, the second.
pub type Range = (usize, usize);

/// The offsets would take more ranges than the assembler can hold.
#[derive(Debug, Clone, Copy, PartialEq, Eq, Structural)]
pub struct TooManyHolesError;

/// A set of offsets. Its view is the list of its maximal ranges, in ascending order.
pub struct Assembler {
    ranges: Vec<Range>,
}

/// Whether `ranges` are non-empty, in ascending order, and apart from each other.
pub open spec fn separated(ranges: Seq<Range>) -> bool {
    &&& forall|i: int| 0 <= i < ranges.len() ==> (#[trigger] ranges[i]).0 < ranges[i].1
    &&& forall|i: int, j: int|
        0 <= i < j < ranges.len() ==> (#[trigger] ranges[i]).1 < (#[trigger] ranges[j]).0
}

/// Whether `offset` lies in one of `ranges`.
pub open spec fn covers(ranges: Seq<Range>, offset: int) -> bool {
    exists|i: int| 0 <= i < ranges.len() && (#[trigger] ranges[i]).0 <= offset < ranges[i].1
}

/// The ranges with the offsets from `start` to `end` put in, ranges that meet being joined.
pub open spec fn merged(ranges: Seq<Range>, start: usize, end: usize) -> Seq<Range>
    decreases ranges.len(),
{
    if ranges.len() == 0 {
        seq![(start, end)]
    } else {
        let (a, b) = ranges.first();
        if b < start {
            seq![(a, b)] + merged(ranges.drop_first(), start, end)
        } else if end < a {
            seq![(start, end)] + ranges
        } else {
            merged(
                ranges.drop_first(),
                if a < start {
                    a
                } else {
                    start
                },
                if b > end {
                    b
                } else {
                    end
                },
            )
        }
    }
}

/// The ranges once the `size` offsets from `start` are put in: `None` where they would be
/// too many.
pub open spec fn with_added(ranges: Seq<Range>, start: usize, size: usize) -> Option<Seq<Range>> {
    if size == 0 {
        Some(ranges)
    } else {
        let all = merged(ranges, start, (start + size) as usize);
        if all.len() <= ASSEMBLER_MAX_SEGMENT_COUNT {
            Some(all)
        } else {
            None
        }
    }
}

/// The ranges once the first `len` offsets are dropped and the others counted from there.
pub open spec fn shifted(ranges: Seq<Range>, len: usize) -> Seq<Range>
    decreases ranges.len(),
{
    if ranges.len() == 0 {
        seq![]
    } else {
        let rest = shifted(ranges.drop_last(), len);
        let (a, b) = ranges.last();
        if b <= len {
            rest
        } else {
            rest.push(
                (
                    if a <= len {
                        0
                    } else {
                        (a - len) as usize
                    },
                    (b - len) as usize,
                ),
            )
        }
    }
}

impl View for Assembler {
    type V = Seq<Range>;

    closed spec fn view(&self) -> Seq<Range> {
        self.ranges@
    }
}

impl Assembler {
    /// The ranges are apart, and no more than the assembler can hold.
    pub open spec fn wf(&self) -> bool {
        separated(self@) && self@.len() <= ASSEMBLER_MAX_SEGMENT_COUNT
    }

    /// An empty set.
    pub fn new() -> (assembler: Assembler)
        ensures
            assembler.wf(),
            assembler@ == Seq::<Range>::empty(),
    {
        Assembler { ranges: Vec::new() }
    }

    /// Whether the set is empty.
    pub fn is_empty(&self) -> (empty: bool)
        ensures
            empty == (self@.len() == 0),
    {
        self.ranges.len() == 0
    }

    /// Empties the set.
    pub fn clear(&mut self)
        ensures
            final(self).wf(),
            final(self)@ == Seq::<Range>::empty(),
    {
        self.ranges = Vec::new();
    }

    /// How many ranges the set has.
    pub fn count(&self) -> (count: usize)
        ensures
            count == self@.len(),
    {
        self.ranges.len()
    }

    /// The range at `index`.
    pub fn range(&self, index: usize) -> (range: Range)
        requires
            index < self@.len(),
        ensures
            range == self@[index as int],
    {
        self.ranges[index]
    }

    /// The ranges, in ascending order.
    pub fn iter_data(&self) -> (ranges: Vec<Range>)
        ensures
            ranges@ == self@,
    {
        let mut out: Vec<Range> = Vec::new();
        let mut index: usize = 0;
        while index < self.ranges.len()
            invariant
                index <= self.ranges@.len(),
                out@ == self.ranges@.take(index as int),
            decreases self.ranges.len() - index,
        {
            out.push(self.ranges[index]);
            index = index + 1;
        }
        assert(out@ =~= self.ranges@);
        out
    }

    /// Puts the `size` offsets from `offset` into the set.
    pub fn add(&mut self, offset: usize, size: usize) -> (r: Result<(), TooManyHolesError>)
        requires
            old(self).wf(),
            offset + size <= usize::MAX,
        ensures
            final(self).wf(),
            match with_added(old(self)@, offset, size) {
                Some(ranges) => r is Ok && final(self)@ == ranges,
                None => r is Err && final(self)@ == old(self)@,
            },
    {
        if size == 0 {
            return Ok(());
        }
        let mut start: usize = offset;
        let mut end: usize = offset + size;
        let ghost ranges = self.ranges@;
        let ghost result = merged(ranges, start, end);
        let mut out: Vec<Range> = Vec::new();
        let mut index: usize = 0;
        assert(ranges.skip(0) =~= ranges);
        while index < self.ranges.len() && self.ranges[index].0 <= end
            invariant
                ranges == self.ranges@,
                index <= ranges.len(),
                start < end,
                result == out@ + merged(ranges.skip(index as int), start, end),
            decreases ranges.len() - index,
        {
            let ghost rest = ranges.skip(index as int);
            assert(rest.drop_first() =~= ranges.skip(index + 1));
            let (a, b) = self.ranges[index];
            if b < start {
                out.push((a, b));
                assert(out@ + merged(rest.drop_first(), start, end) =~= result);
            } else {
                if a < start {
                    start = a;
                }
                if b > end {
                    end = b;
                }
            }
            index = index + 1;
        }
        out.push((start, end));
        let ghost tail = ranges.skip(index as int);
        assert(out@ + tail =~= result);
        while index < self.ranges.len()
            invariant
                ranges == self.ranges@,
                index <= ranges.len(),
                out@ + ranges.skip(index as int) == result,
            decreases ranges.len() - index,
        {
            out.push(self.ranges[index]);
            index = index + 1;
            assert(out@ + ranges.skip(index as int) =~= result);
        }
        assert(out@ =~= result);
        proof {
            lemma_merged(ranges, offset, (offset + size) as usize);
        }
        if out.len() <= ASSEMBLER_MAX_SEGMENT_COUNT {
            self.ranges = out;
            Ok(())
        } else {
            Err(TooManyHolesError)
        }
    }

    /// Drops the first `len` offsets, and counts the others from there.
    pub fn shift_front(&mut self, len: usize)
        requires
            old(self).wf(),
        ensures
            final(self).wf(),
            final(self)@ == shifted(old(self)@, len),
    {
        let ghost ranges = self.ranges@;
        let mut out: Vec<Range> = Vec::new();
        let mut index: usize = 0;
        while index < self.ranges.len()
            invariant
                ranges == self.ranges@,
                index <= ranges.len(),
                out@ == shifted(ranges.take(index as int), len),
            decreases ranges.len() - index,
        {
            assert(ranges.take(index + 1).drop_last() =~= ranges.take(index as int));
            let (a, b) = self.ranges[index];
            if b > len {
                out.push((a.saturating_sub(len), b - len));
            }
            index = index + 1;
        }
        assert(ranges.take(ranges.len() as int) =~= ranges);
        proof {
            lemma_shifted(ranges, len);
        }
        self.ranges = out;
    }
}

/// A range in front of others covers its own offsets and theirs.
proof fn lemma_front_covers(range: Range, rest: Seq<Range>, o: int)
    ensures
        covers(seq![range] + rest, o) <==> range.0 <= o < range.1 || covers(rest, o),
{
    let all = seq![range] + rest;
    if covers(all, o) {
        let i = choose|i: int| 0 <= i < all.len() && (#[trigger] all[i]).0 <= o < all[i].1;
        if i > 0 {
            assert(all[i] == rest[i - 1]);
        }
    }
    if range.0 <= o < range.1 {
        assert(all[0] == range);
    }
    if covers(rest, o) {
        let i = choose|i: int| 0 <= i < rest.len() && (#[trigger] rest[i]).0 <= o < rest[i].1;
        assert(all[i + 1] == rest[i]);
    }
}

/// A range that ends before others start can stand in front of them.
proof fn lemma_front_separated(range: Range, rest: Seq<Range>)
    requires
        separated(rest),
        range.0 < range.1,
        rest.len() > 0 ==> range.1 < rest.first().0,
    ensures
        separated(seq![range] + rest),
{
    let all = seq![range] + rest;
    assert forall|i: int| 0 <= i < all.len() implies (#[trigger] all[i]).0 < all[i].1 by {
        if i > 0 {
            assert(all[i] == rest[i - 1]);
        }
    }
    assert forall|i: int, j: int| 0 <= i < j < all.len() implies (#[trigger] all[i]).1 < (
    #[trigger] all[j]).0 by {
        assert(all[j] == rest[j - 1]);
        if i > 0 {
            assert(all[i] == rest[i - 1]);
        } else if j > 1 {
            assert(rest[0].0 < rest[0].1);
            assert(rest[0].1 < rest[j - 1].0);
        }
    }
}

/// Putting a range in keeps the ranges apart, and adds its offsets and no others.
pub proof fn lemma_merged(ranges: Seq<Range>, start: usize, end: usize)
    requires
        separated(ranges),
        start < end,
    ensures
        separated(merged(ranges, start, end)),
        forall|o: int| #[trigger]
            covers(merged(ranges, start, end), o) <==> covers(ranges, o) || start <= o < end,
        merged(ranges, start, end).len() > 0,
        merged(ranges, start, end).first().0 == if ranges.len() > 0 && ranges.first().0 < start {
            ranges.first().0
        } else {
            start
        },
    decreases ranges.len(),
{
    let all = merged(ranges, start, end);
    if ranges.len() == 0 {
        assert forall|o: int| #[trigger]
            covers(all, o) <==> covers(ranges, o) || start <= o < end by {
            assert(all =~= seq![(start, end)] + ranges);
            lemma_front_covers((start, end), ranges, o);
        }
    } else {
        let (a, b) = ranges.first();
        let rest = ranges.drop_first();
        assert(ranges =~= seq![(a, b)] + rest);
        lemma_rest_separated(ranges);
        assert(a < b) by {
            assert(ranges[0].0 < ranges[0].1);
        }
        assert(rest.len() > 0 ==> b < rest.first().0) by {
            if rest.len() > 0 {
                assert(ranges[0].1 < ranges[1].0);
            }
        }
        if b < start {
            lemma_merged(rest, start, end);
            lemma_front_separated((a, b), merged(rest, start, end));
            assert forall|o: int| #[trigger]
                covers(all, o) <==> covers(ranges, o) || start <= o < end by {
                lemma_front_covers((a, b), rest, o);
                lemma_front_covers((a, b), merged(rest, start, end), o);
            }
        } else if end < a {
            lemma_front_separated((start, end), ranges);
            assert forall|o: int| #[trigger]
                covers(all, o) <==> covers(ranges, o) || start <= o < end by {
                lemma_front_covers((start, end), ranges, o);
            }
        } else {
            let low = if a < start {
                a
            } else {
                start
            };
            let high = if b > end {
                b
            } else {
                end
            };
            lemma_merged(rest, low, high);
            assert forall|o: int| #[trigger]
                covers(all, o) <==> covers(ranges, o) || start <= o < end by {
                lemma_front_covers((a, b), rest, o);
            }
        }
    }
}

/// Putting a range in adds one range at most.
pub proof fn lemma_merged_len(ranges: Seq<Range>, start: usize, end: usize)
    ensures
        merged(ranges, start, end).len() <= ranges.len() + 1,
    decreases ranges.len(),
{
    if ranges.len() > 0 {
        let (a, b) = ranges.first();
        lemma_merged_len(ranges.drop_first(), start, end);
        lemma_merged_len(
            ranges.drop_first(),
            if a < start {
                a
            } else {
                start
            },
            if b > end {
                b
            } else {
                end
            },
        );
    }
}

/// Putting offsets in gives the ranges that cover what was covered and these, and nothing else.
/// It fails exactly where more ranges would be needed for that than can be held, however they
/// are listed.
pub proof fn law_adding_is_union(ranges: Seq<Range>, start: usize, size: usize, other: Seq<Range>)
    requires
        separated(ranges),
        ranges.len() <= ASSEMBLER_MAX_SEGMENT_COUNT,
        start + size <= usize::MAX,
    ensures
        with_added(ranges, start, size) matches Some(after) ==> {
            &&& separated(after)
            &&& after.len() <= ASSEMBLER_MAX_SEGMENT_COUNT
            &&& forall|o: int| #[trigger]
                covers(after, o) <==> covers(ranges, o) || start <= o < start + size
        },
        with_added(ranges, start, size) is None && separated(other) && (forall|o: int| #[trigger]
            covers(other, o) <==> covers(ranges, o) || start <= o < start + size) ==> other.len()
            > ASSEMBLER_MAX_SEGMENT_COUNT,
{
    if size > 0 {
        let end = (start + size) as usize;
        lemma_merged(ranges, start, end);
        let all = merged(ranges, start, end);
        if separated(other) && (forall|o: int| #[trigger]
            covers(other, o) <==> covers(ranges, o) || start <= o < start + size) {
            assert forall|o: int| covers(all, o) <==> #[trigger] covers(other, o) by {
                assert(covers(all, o) <==> covers(ranges, o) || start <= o < end);
            }
            law_ranges_are_canonical(all, other);
        }
    }
}

/// Dropping offsets from the front keeps all that lie behind them, counted from there, and
/// nothing else.
pub proof fn law_shifting_drops_the_front(ranges: Seq<Range>, len: usize)
    requires
        separated(ranges),
    ensures
        separated(shifted(ranges, len)),
        shifted(ranges, len).len() <= ranges.len(),
        forall|o: int| #[trigger]
            covers(shifted(ranges, len), o) <==> 0 <= o && covers(ranges, o + len),
{
    lemma_shifted(ranges, len);
    lemma_shifted_len(ranges, len);
    let after = shifted(ranges, len);
    assert forall|o: int| #[trigger]
        covers(after, o) <==> 0 <= o && covers(ranges, o + len) by {
        if covers(after, o) {
            let i = choose|i: int| 0 <= i < after.len() && (#[trigger] after[i]).0 <= o < after[i].1;
            assert(after[i].0 >= 0);
        }
    }
}

/// Dropping offsets adds no range.
proof fn lemma_shifted_len(ranges: Seq<Range>, len: usize)
    ensures
        shifted(ranges, len).len() <= ranges.len(),
    decreases ranges.len(),
{
    if ranges.len() > 0 {
        lemma_shifted_len(ranges.drop_last(), len);
    }
}

/// A set of offsets has only one list of ranges: two lists that are apart and cover the same
/// offsets are the same.
pub proof fn law_ranges_are_canonical(left: Seq<Range>, right: Seq<Range>)
    requires
        separated(left),
        separated(right),
        forall|o: int| covers(left, o) <==> #[trigger] covers(right, o),
    ensures
        left == right,
    decreases left.len(),
{
    if left.len() == 0 {
        if right.len() > 0 {
            assert(right[0].0 < right[0].1);
            assert(covers(right, right[0].0 as int));
        }
    } else {
        assert(left[0].0 < left[0].1);
        assert(covers(left, left[0].0 as int));
        assert(covers(right, left[0].0 as int));
        assert(right.len() > 0);
        assert(right[0].0 < right[0].1);
        assert(covers(right, right[0].0 as int));
        lemma_least_is_first(left, right[0].0 as int);
        lemma_least_is_first(right, left[0].0 as int);
        lemma_end_not_covered(left);
        lemma_end_not_covered(right);
        if left[0].1 < right[0].1 {
            assert(covers(right, left[0].1 as int));
        }
        if right[0].1 < left[0].1 {
            assert(covers(left, right[0].1 as int));
            assert(covers(right, right[0].1 as int));
        }
        let left_rest = left.drop_first();
        let right_rest = right.drop_first();
        assert(left =~= seq![left[0]] + left_rest);
        assert(right =~= seq![right[0]] + right_rest);
        lemma_rest_separated(left);
        lemma_rest_separated(right);
        assert forall|o: int| covers(left_rest, o) <==> #[trigger] covers(right_rest, o) by {
            lemma_front_covers(left[0], left_rest, o);
            lemma_front_covers(right[0], right_rest, o);
            lemma_rest_beyond(left, o);
            lemma_rest_beyond(right, o);
            assert(covers(left, o) <==> covers(right, o));
        }
        law_ranges_are_canonical(left_rest, right_rest);
        assert(left =~= right);
    }
}

/// No offset below the first range is covered.
proof fn lemma_least_is_first(ranges: Seq<Range>, o: int)
    requires
        separated(ranges),
        covers(ranges, o),
    ensures
        ranges[0].0 <= o,
{
    let i = choose|i: int| 0 <= i < ranges.len() && (#[trigger] ranges[i]).0 <= o < ranges[i].1;
    if i > 0 {
        assert(ranges[0].1 < ranges[i].0);
        assert(ranges[0].0 < ranges[0].1);
    }
}

/// The offset at which the first range ends is not covered.
proof fn lemma_end_not_covered(ranges: Seq<Range>)
    requires
        separated(ranges),
        ranges.len() > 0,
    ensures
        !covers(ranges, ranges[0].1 as int),
{
    assert forall|i: int| 0 <= i < ranges.len() implies !((#[trigger] ranges[i]).0 <= ranges[0].1
        < ranges[i].1) by {
        if i > 0 {
            assert(ranges[0].1 < ranges[i].0);
        }
    }
}

/// The ranges after the first are apart.
proof fn lemma_rest_separated(ranges: Seq<Range>)
    requires
        separated(ranges),
        ranges.len() > 0,
    ensures
        separated(ranges.drop_first()),
{
    let rest = ranges.drop_first();
    assert forall|i: int| 0 <= i < rest.len() implies (#[trigger] rest[i]).0 < rest[i].1 by {
        assert(rest[i] == ranges[i + 1]);
    }
    assert forall|i: int, j: int| 0 <= i < j < rest.len() implies (#[trigger] rest[i]).1 < (
    #[trigger] rest[j]).0 by {
        assert(rest[i] == ranges[i + 1] && rest[j] == ranges[j + 1]);
    }
}

/// The ranges after the first cover nothing up to its end.
proof fn lemma_rest_beyond(ranges: Seq<Range>, o: int)
    requires
        separated(ranges),
        ranges.len() > 0,
    ensures
        covers(ranges.drop_first(), o) ==> o > ranges[0].1,
{
    let rest = ranges.drop_first();
    if covers(rest, o) {
        let i = choose|i: int| 0 <= i < rest.len() && (#[trigger] rest[i]).0 <= o < rest[i].1;
        assert(rest[i] == ranges[i + 1]);
        assert(ranges[0].1 < ranges[i + 1].0);
    }
}

/// Dropping offsets from the front keeps the ranges apart, and moves each offset that is
/// left.
pub proof fn lemma_shifted(ranges: Seq<Range>, len: usize)
    requires
        separated(ranges),
    ensures
        separated(shifted(ranges, len)),
        shifted(ranges, len).len() <= ranges.len(),
        shifted(ranges, len).len() > 0 ==> shifted(ranges, len).last().1 + len
            == ranges.last().1,
        forall|o: int|
            o >= 0 ==> (#[trigger] covers(shifted(ranges, len), o) <==> covers(ranges, o + len)),
    decreases ranges.len(),
{
    let all = shifted(ranges, len);
    if ranges.len() > 0 {
        let rest = ranges.drop_last();
        let (a, b) = ranges.last();
        let last = ranges.len() - 1;
        assert(ranges[last] == (a, b));
        assert(separated(rest));
        lemma_shifted(rest, len);
        let moved = shifted(rest, len);
        if b > len {
            let front: usize = if a <= len {
                0
            } else {
                (a - len) as usize
            };
            let back = (b - len) as usize;
            assert(all =~= moved.push((front, back)));
            if moved.len() > 0 {
                assert(ranges[last - 1].1 < ranges[last].0);
            }
            assert forall|i: int, j: int| 0 <= i < j < all.len() implies (#[trigger] all[i]).1 < (
            #[trigger] all[j]).0 by {
                assert(all[i] == moved[i]);
                if j < moved.len() {
                    assert(all[j] == moved[j]);
                } else if i < moved.len() - 1 {
                    assert(moved[i].1 < moved[moved.len() - 1].0);
                }
            }
        }
        assert forall|o: int| o >= 0 implies (#[trigger] covers(all, o) <==> covers(
            ranges,
            o + len,
        )) by {
            assert(covers(moved, o) <==> covers(rest, o + len));
            if covers(all, o) {
                let i = choose|i: int|
                    0 <= i < all.len() && (#[trigger] all[i]).0 <= o < all[i].1;
                if i < moved.len() {
                    assert(all[i] == moved[i]);
                    assert(covers(moved, o));
                    let k = choose|k: int|
                        0 <= k < rest.len() && (#[trigger] rest[k]).0 <= o + len < rest[k].1;
                    assert(ranges[k] == rest[k]);
                } else {
                    assert(ranges[last].0 <= o + len < ranges[last].1);
                }
            }
            if covers(ranges, o + len) {
                let i = choose|i: int|
                    0 <= i < ranges.len() && (#[trigger] ranges[i]).0 <= o + len < ranges[i].1;
                if i < last {
                    assert(rest[i] == ranges[i]);
                    assert(covers(moved, o));
                    let k = choose|k: int|
                        0 <= k < moved.len() && (#[trigger] moved[k]).0 <= o < moved[k].1;
                    assert(all[k] == moved[k]);
                } else {
                    assert(all[moved.len() as int].0 <= o < all[moved.len() as int].1);
                }
            }
        }
    }
}

} // verus!
