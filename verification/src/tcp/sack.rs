//! What a TCP sender knows of the bytes that its peer has selectively acknowledged.
use vstd::prelude::*;

use crate::config::ASSEMBLER_MAX_SEGMENT_COUNT;
use crate::storage::assembler::{self, Assembler, Range};
use crate::wire::tcp::{self, TcpSeqNumber};

verus! {

/// The ranges that were selectively acknowledged, as offsets from the first byte that is
/// not cumulatively acknowledged.
pub struct SackScoreboard {
    ranges: Assembler,
}

/// One SACK option: up to three blocks, each from its first sequence number up to, but not
/// including, its second.
pub type SackBlocks = [Option<(u32, u32)>; 3];

/// The sequence number in an option field.
pub open spec fn block_edge(edge: u32) -> TcpSeqNumber {
    TcpSeqNumber(
        if edge <= i32::MAX {
            edge as i32
        } else {
            (edge - 0x1_0000_0000) as i32
        },
    )
}

/// The offset and length of the part of a block that lies in the transmitted data, from
/// `snd_una` up to `snd_nxt` and no further than the `tx_len` buffered bytes. `None` where
/// the block is malformed, or has no such part.
pub open spec fn block_extent(
    block: (u32, u32),
    snd_una: TcpSeqNumber,
    snd_nxt: TcpSeqNumber,
    tx_len: usize,
) -> Option<(usize, usize)> {
    let left = block_edge(block.0);
    let right = block_edge(block.1);
    if tcp::seq_distance(right, left) <= 0 || tcp::seq_distance(right, snd_una) <= 0
        || tcp::seq_distance(left, snd_nxt) >= 0 {
        None
    } else {
        let last = if tcp::seq_distance(right, snd_nxt) < 0 {
            right
        } else {
            snd_nxt
        };
        let first = if tcp::seq_distance(left, snd_una) > 0 {
            left
        } else {
            snd_una
        };
        let offset = tcp::seq_distance(first, snd_una);
        let len = tcp::seq_distance(last, first);
        if offset >= tx_len || len <= 0 {
            None
        } else if len <= tx_len - offset {
            Some((offset as usize, len as usize))
        } else {
            Some((offset as usize, (tx_len - offset) as usize))
        }
    }
}

/// The ranges once one block has been taken in. A block that would take more ranges than
/// can be kept is passed over.
pub open spec fn with_block(
    ranges: Seq<Range>,
    block: Option<(u32, u32)>,
    snd_una: TcpSeqNumber,
    snd_nxt: TcpSeqNumber,
    tx_len: usize,
) -> Seq<Range> {
    match block {
        Some(block) => match block_extent(block, snd_una, snd_nxt, tx_len) {
            Some((offset, len)) => match assembler::with_added(ranges, offset, len) {
                Some(after) => after,
                None => ranges,
            },
            None => ranges,
        },
        None => ranges,
    }
}

/// The ranges once the blocks have been taken in, in order.
pub open spec fn with_blocks(
    ranges: Seq<Range>,
    blocks: Seq<Option<(u32, u32)>>,
    snd_una: TcpSeqNumber,
    snd_nxt: TcpSeqNumber,
    tx_len: usize,
) -> Seq<Range>
    decreases blocks.len(),
{
    if blocks.len() == 0 {
        ranges
    } else {
        with_block(
            with_blocks(ranges, blocks.drop_last(), snd_una, snd_nxt, tx_len),
            blocks.last(),
            snd_una,
            snd_nxt,
            tx_len,
        )
    }
}

/// How many of the offsets below `limit` are covered.
pub open spec fn covered_below(ranges: Seq<Range>, limit: nat) -> nat
    decreases limit,
{
    if limit == 0 {
        0
    } else {
        covered_below(ranges, (limit - 1) as nat) + if assembler::covers(ranges, limit - 1) {
            1nat
        } else {
            0nat
        }
    }
}

impl View for SackScoreboard {
    type V = Seq<Range>;

    closed spec fn view(&self) -> Seq<Range> {
        self.ranges@
    }
}

impl SackScoreboard {
    /// The ranges are apart, and no more than can be kept.
    pub open spec fn wf(&self) -> bool {
        assembler::separated(self@) && self@.len() <= ASSEMBLER_MAX_SEGMENT_COUNT
    }

    /// Nothing was acknowledged.
    pub fn new() -> (scoreboard: SackScoreboard)
        ensures
            scoreboard.wf(),
            scoreboard@ == Seq::<Range>::empty(),
    {
        SackScoreboard { ranges: Assembler::new() }
    }

    /// Whether nothing was acknowledged.
    pub fn is_empty(&self) -> (empty: bool)
        ensures
            empty == (self@.len() == 0),
    {
        self.ranges.is_empty()
    }

    /// Forgets everything.
    pub fn clear(&mut self)
        ensures
            final(self).wf(),
            final(self)@ == Seq::<Range>::empty(),
    {
        self.ranges.clear();
    }

    /// Drops `len` cumulatively acknowledged bytes, and counts the others from there.
    pub fn discard_acked(&mut self, len: usize)
        requires
            old(self).wf(),
        ensures
            final(self).wf(),
            final(self)@ == assembler::shifted(old(self)@, len),
    {
        self.ranges.shift_front(len);
    }

    /// Takes in the blocks of a SACK option, as far as they lie in the data that was
    /// transmitted and is still buffered.
    pub fn ingest(
        &mut self,
        blocks: &SackBlocks,
        snd_una: TcpSeqNumber,
        snd_nxt: TcpSeqNumber,
        tx_len: usize,
    )
        requires
            old(self).wf(),
        ensures
            final(self).wf(),
            final(self)@ == with_blocks(old(self)@, blocks@, snd_una, snd_nxt, tx_len),
            forall|i: int, o: int|
                0 <= i < 3 && old(self)@.len() + 3 <= ASSEMBLER_MAX_SEGMENT_COUNT
                    && #[trigger] in_extent(blocks@[i], snd_una, snd_nxt, tx_len, o)
                    ==> assembler::covers(final(self)@, o),
    {
        let mut index: usize = 0;
        while index < 3
            invariant
                self.wf(),
                index <= 3,
                blocks@.len() == 3,
                self@ == with_blocks(
                    old(self)@,
                    blocks@.take(index as int),
                    snd_una,
                    snd_nxt,
                    tx_len,
                ),
            decreases 3 - index,
        {
            assert(blocks@.take(index + 1).drop_last() =~= blocks@.take(index as int));
            if let Some(block) = blocks[index] {
                if let Some((offset, len)) = Self::extent(block, snd_una, snd_nxt, tx_len) {
                    let _ = self.ranges.add(offset, len);
                }
            }
            index = index + 1;
        }
        assert(blocks@.take(3) =~= blocks@);
        assert forall|i: int, o: int|
            0 <= i < 3 && old(self)@.len() + 3 <= ASSEMBLER_MAX_SEGMENT_COUNT && #[trigger] in_extent(
                blocks@[i],
                snd_una,
                snd_nxt,
                tx_len,
                o,
            ) implies assembler::covers(self@, o) by {
            law_ingest_records_every_block(old(self)@, blocks@, snd_una, snd_nxt, tx_len, i, o);
        }
    }

    /// The offset and length of the part of a block that counts.
    fn extent(
        block: (u32, u32),
        snd_una: TcpSeqNumber,
        snd_nxt: TcpSeqNumber,
        tx_len: usize,
    ) -> (extent: Option<(usize, usize)>)
        ensures
            extent == block_extent(block, snd_una, snd_nxt, tx_len),
            extent matches Some((offset, len)) ==> 0 < len && offset + len <= tx_len,
    {
        let left = Self::edge(block.0);
        let right = Self::edge(block.1);
        if right.distance(left) <= 0 || right.distance(snd_una) <= 0 || left.distance(snd_nxt)
            >= 0 {
            return None;
        }
        let last = right.min(snd_nxt);
        let first = left.max(snd_una);
        let offset: usize = first.distance(snd_una) as usize;
        let len: i32 = last.distance(first);
        if offset >= tx_len || len <= 0 {
            return None;
        }
        let room: usize = tx_len - offset;
        if (len as usize) <= room {
            Some((offset, len as usize))
        } else {
            Some((offset, room))
        }
    }

    /// The sequence number in an option field.
    fn edge(edge: u32) -> (number: TcpSeqNumber)
        ensures
            number == block_edge(edge),
    {
        assert(edge <= 0x7fff_ffff ==> edge as i32 == edge) by (bit_vector);
        assert(edge > 0x7fff_ffff ==> edge as i32 == edge - 0x1_0000_0000) by (bit_vector);
        #[verifier::truncate]
        let number: i32 = edge as i32;
        TcpSeqNumber(number)
    }

    /// Moves a transmit cursor out of an acknowledged range, to its end.
    pub fn advance_cursor(&self, cursor: usize) -> (next: usize)
        requires
            self.wf(),
        ensures
            forall|i: int|
                0 <= i < self@.len() && (#[trigger] self@[i]).0 <= cursor < self@[i].1 ==> next
                    == self@[i].1,
            !assembler::covers(self@, cursor as int) ==> next == cursor,
            cursor <= next,
            !assembler::covers(self@, next as int),
    {
        let ghost ranges = self@;
        let count: usize = self.ranges.count();
        let mut index: usize = 0;
        while index < count
            invariant
                self.wf(),
                ranges == self@,
                index <= count == ranges.len(),
                forall|j: int| 0 <= j < index ==> (#[trigger] ranges[j]).1 <= cursor,
            decreases count - index,
        {
            let (start, end) = self.ranges.range(index);
            if cursor < start {
                assert forall|j: int| index <= j < ranges.len() implies cursor < (
                #[trigger] ranges[j]).0 by {
                    if index < j {
                        assert(ranges[index as int].1 < ranges[j].0);
                    }
                }
                return cursor;
            }
            if cursor < end {
                assert(ranges[index as int].0 <= cursor < ranges[index as int].1);
                assert(!assembler::covers(ranges, end as int));
                return end;
            }
            index = index + 1;
        }
        cursor
    }

    /// Cuts a segment of `size` bytes at `cursor` off where the next acknowledged range
    /// starts.
    pub fn clamp_segment(&self, cursor: usize, size: usize) -> (len: usize)
        requires
            self.wf(),
        ensures
            len <= size,
            forall|i: int|
                0 <= i < self@.len() && (#[trigger] self@[i]).0 > cursor ==> cursor + len
                    <= self@[i].0,
            len == size || exists|i: int|
                0 <= i < self@.len() && (#[trigger] self@[i]).0 > cursor && cursor + len
                    == self@[i].0,
            !assembler::covers(self@, cursor as int) ==> forall|o: int|
                cursor <= o < cursor + len ==> !#[trigger] assembler::covers(self@, o),
    {
        let ghost ranges = self@;
        let count: usize = self.ranges.count();
        let mut index: usize = 0;
        while index < count
            invariant
                self.wf(),
                ranges == self@,
                index <= count == ranges.len(),
                forall|j: int| 0 <= j < index ==> (#[trigger] ranges[j]).0 <= cursor,
            decreases count - index,
        {
            let (start, _) = self.ranges.range(index);
            if start > cursor {
                let gap: usize = start - cursor;
                assert(ranges[index as int].0 == start);
                assert forall|j: int|
                    0 <= j < ranges.len() && (#[trigger] ranges[j]).0 > cursor implies start
                    <= ranges[j].0 by {
                    if j > index {
                        assert(ranges[index as int].1 < ranges[j].0);
                    }
                }
                proof {
                    lemma_free_up_to(ranges, cursor as int, start as int);
                }
                return if size <= gap {
                    size
                } else {
                    gap
                };
            }
            index = index + 1;
        }
        proof {
            lemma_free_up_to(ranges, cursor as int, cursor + size);
        }
        size
    }

    /// How many acknowledged bytes lie below a transmit cursor.
    pub fn sacked_bytes_before(&self, cursor: usize) -> (sacked: usize)
        requires
            self.wf(),
        ensures
            sacked == covered_below(self@, cursor as nat),
    {
        let ghost ranges = self@;
        let count: usize = self.ranges.count();
        let mut sacked: usize = 0;
        let mut index: usize = 0;
        let ghost mut reached: int = 0;
        while index < count && self.ranges.range(index).0 < cursor
            invariant
                self.wf(),
                ranges == self@,
                index <= count == ranges.len(),
                0 <= reached <= cursor,
                sacked == covered_below(ranges, reached as nat),
                sacked <= reached,
                index > 0 ==> reached == if ranges[index - 1].1 <= cursor {
                    ranges[index - 1].1 as int
                } else {
                    cursor as int
                },
                index == 0 ==> reached == 0,
            decreases count - index,
        {
            let (start, end) = self.ranges.range(index);
            let upto: usize = if end <= cursor {
                end
            } else {
                cursor
            };
            proof {
                lemma_gap_uncovered(ranges, reached, start as int, index as int);
                lemma_range_covered(ranges, index as int, upto as int);
            }
            sacked = sacked + (upto - start);
            proof {
                reached = upto as int;
            }
            index = index + 1;
        }
        proof {
            lemma_gap_uncovered(ranges, reached, cursor as int, index as int);
        }
        sacked
    }

    /// Records `len` acknowledged bytes at `offset`, unless that would take more ranges than
    /// can be kept.
    pub fn insert(&mut self, offset: usize, len: usize)
        requires
            old(self).wf(),
            offset + len <= usize::MAX,
        ensures
            final(self).wf(),
            final(self)@ == match assembler::with_added(old(self)@, offset, len) {
                Some(ranges) => ranges,
                None => old(self)@,
            },
    {
        let _ = self.ranges.add(offset, len);
    }

    /// The acknowledged ranges, in ascending order.
    pub fn ranges(&self) -> (ranges: Vec<Range>)
        ensures
            ranges@ == self@,
    {
        self.ranges.iter_data()
    }
}

/// Between the end of a range and the start of the next, nothing is covered.
proof fn lemma_gap_uncovered(ranges: Seq<Range>, from: int, to: int, next: int)
    requires
        assembler::separated(ranges),
        0 <= from <= to,
        0 <= next <= ranges.len(),
        next > 0 ==> ranges[next - 1].1 <= from || from == to,
        next < ranges.len() ==> to <= ranges[next].0,
    ensures
        covered_below(ranges, to as nat) == covered_below(ranges, from as nat),
    decreases to - from,
{
    if from < to {
        lemma_gap_uncovered(ranges, from, to - 1, next);
        assert forall|i: int| 0 <= i < ranges.len() implies !((#[trigger] ranges[i]).0 <= to - 1
            < ranges[i].1) by {
            if i < next {
                if i < next - 1 {
                    assert(ranges[i].1 < ranges[next - 1].0);
                    assert(ranges[next - 1].0 < ranges[next - 1].1);
                }
            } else if i > next {
                assert(ranges[next].1 < ranges[i].0);
                assert(ranges[next].0 < ranges[next].1);
            }
        }
        assert(!assembler::covers(ranges, to - 1));
    }
}

/// Within a range, everything is covered.
proof fn lemma_range_covered(ranges: Seq<Range>, index: int, upto: int)
    requires
        0 <= index < ranges.len(),
        ranges[index].0 <= upto <= ranges[index].1,
    ensures
        covered_below(ranges, upto as nat) == covered_below(ranges, ranges[index].0 as nat) + (upto
            - ranges[index].0),
    decreases upto - ranges[index].0,
{
    if ranges[index].0 < upto {
        lemma_range_covered(ranges, index, upto - 1);
        assert(ranges[index].0 <= upto - 1 < ranges[index].1);
    }
}

/// From an offset that is not covered up to where the next range starts, nothing is covered.
proof fn lemma_free_up_to(ranges: Seq<Range>, cursor: int, limit: int)
    requires
        assembler::separated(ranges),
        forall|i: int|
            0 <= i < ranges.len() && (#[trigger] ranges[i]).0 > cursor ==> limit <= ranges[i].0,
    ensures
        !assembler::covers(ranges, cursor) ==> forall|o: int|
            cursor <= o < limit ==> !#[trigger] assembler::covers(ranges, o),
{
    if !assembler::covers(ranges, cursor) {
        assert forall|o: int| cursor <= o < limit implies !#[trigger] assembler::covers(
            ranges,
            o,
        ) by {
            if assembler::covers(ranges, o) {
                let i = choose|i: int|
                    0 <= i < ranges.len() && (#[trigger] ranges[i]).0 <= o < ranges[i].1;
                assert(ranges[i].0 <= cursor < ranges[i].1);
            }
        }
    }
}

/// What counts of a block lies in the transmitted and in the buffered data.
pub proof fn law_block_extent_is_bounded(
    block: (u32, u32),
    snd_una: TcpSeqNumber,
    snd_nxt: TcpSeqNumber,
    tx_len: usize,
)
    requires
        tcp::seq_distance(snd_nxt, snd_una) >= 0,
    ensures
        block_extent(block, snd_una, snd_nxt, tx_len) matches Some((offset, len)) ==> len > 0
            && offset + len <= tx_len && offset + len <= tcp::seq_distance(snd_nxt, snd_una),
{
}

/// Taking in blocks forgets nothing, adds nothing outside the transmitted and buffered data,
/// and keeps the ranges apart.
pub proof fn law_ingest_is_bounded_evidence(
    ranges: Seq<Range>,
    blocks: Seq<Option<(u32, u32)>>,
    snd_una: TcpSeqNumber,
    snd_nxt: TcpSeqNumber,
    tx_len: usize,
    o: int,
)
    requires
        assembler::separated(ranges),
        tcp::seq_distance(snd_nxt, snd_una) >= 0,
    ensures
        ({
            let after = with_blocks(ranges, blocks, snd_una, snd_nxt, tx_len);
            &&& assembler::separated(after)
            &&& assembler::covers(ranges, o) ==> assembler::covers(after, o)
            &&& assembler::covers(after, o) && !assembler::covers(ranges, o) ==> 0 <= o < tx_len
                && o < tcp::seq_distance(snd_nxt, snd_una)
        }),
    decreases blocks.len(),
{
    if blocks.len() > 0 {
        let rest = blocks.drop_last();
        law_ingest_is_bounded_evidence(ranges, rest, snd_una, snd_nxt, tx_len, o);
        let before = with_blocks(ranges, rest, snd_una, snd_nxt, tx_len);
        if let Some(block) = blocks.last() {
            law_block_extent_is_bounded(block, snd_una, snd_nxt, tx_len);
            if let Some((offset, len)) = block_extent(block, snd_una, snd_nxt, tx_len) {
                assembler::lemma_merged(before, offset, (offset + len) as usize);
                let after = with_block(before, blocks.last(), snd_una, snd_nxt, tx_len);
                assert(after == before || after == assembler::merged(
                    before,
                    offset,
                    (offset + len) as usize,
                ));
            }
        }
    }
}

/// A block inside the transmitted and buffered data is recorded whole, as long as there is
/// room for its range.
pub proof fn law_block_in_window_is_recorded(
    ranges: Seq<Range>,
    snd_una: TcpSeqNumber,
    snd_nxt: TcpSeqNumber,
    tx_len: usize,
    block: (u32, u32),
    o: int,
)
    requires
        assembler::separated(ranges),
        ranges.len() < ASSEMBLER_MAX_SEGMENT_COUNT,
        0 <= tcp::seq_distance(block_edge(block.0), snd_una) < tcp::seq_distance(
            block_edge(block.1),
            snd_una,
        ) <= tcp::seq_distance(snd_nxt, snd_una),
        tcp::seq_distance(block_edge(block.1), snd_una) <= tx_len,
        tcp::seq_distance(block_edge(block.0), snd_una) <= o < tcp::seq_distance(
            block_edge(block.1),
            snd_una,
        ),
    ensures
        assembler::covers(with_block(ranges, Some(block), snd_una, snd_nxt, tx_len), o),
{
    let (offset, len) = block_extent(block, snd_una, snd_nxt, tx_len)->0;
    assembler::lemma_merged(ranges, offset, (offset + len) as usize);
    assembler::lemma_merged_len(ranges, offset, (offset + len) as usize);
    assert(assembler::covers(assembler::merged(ranges, offset, (offset + len) as usize), o));
}

/// Whether `o` is one of the offsets of a block that count.
pub open spec fn in_extent(
    block: Option<(u32, u32)>,
    snd_una: TcpSeqNumber,
    snd_nxt: TcpSeqNumber,
    tx_len: usize,
    o: int,
) -> bool {
    block matches Some(edges) && block_extent(edges, snd_una, snd_nxt, tx_len) matches Some(
        (offset, len),
    ) && offset <= o < offset + len
}

/// What counts of a block is its overlap with the data: the offsets, from the first byte that is
/// not acknowledged, that lie between its edges, that were transmitted, and that are still
/// buffered. Edges and window are no farther apart than a window can be.
pub proof fn law_block_extent_is_the_overlap(
    block: (u32, u32),
    snd_una: TcpSeqNumber,
    snd_nxt: TcpSeqNumber,
    tx_len: usize,
    o: int,
)
    requires
        0 <= tcp::seq_distance(snd_nxt, snd_una) <= 0x4000_0000,
        -0x4000_0000 < tcp::seq_distance(block_edge(block.0), snd_una) < 0x4000_0000,
        -0x4000_0000 < tcp::seq_distance(block_edge(block.1), snd_una) < 0x4000_0000,
    ensures
        in_extent(Some(block), snd_una, snd_nxt, tx_len, o) <==> {
            &&& 0 <= o < tx_len
            &&& o < tcp::seq_distance(snd_nxt, snd_una)
            &&& tcp::seq_distance(block_edge(block.0), snd_una) <= o
            &&& o < tcp::seq_distance(block_edge(block.1), snd_una)
        },
{
}

/// A field of an option is the sequence number that is as many past zero.
pub proof fn law_block_edge_is_the_field(edge: u32)
    ensures
        block_edge(edge).0 as int % 0x1_0000_0000 == edge as int,
{
}

/// Every offset that counts of every block is covered once the blocks were taken in, as long as
/// there is room for a range of each.
pub proof fn law_ingest_records_every_block(
    ranges: Seq<Range>,
    blocks: Seq<Option<(u32, u32)>>,
    snd_una: TcpSeqNumber,
    snd_nxt: TcpSeqNumber,
    tx_len: usize,
    i: int,
    o: int,
)
    requires
        assembler::separated(ranges),
        ranges.len() + blocks.len() <= ASSEMBLER_MAX_SEGMENT_COUNT,
        0 <= i < blocks.len(),
        in_extent(blocks[i], snd_una, snd_nxt, tx_len, o),
    ensures
        assembler::covers(with_blocks(ranges, blocks, snd_una, snd_nxt, tx_len), o),
{
    lemma_blocks_recorded(ranges, blocks, snd_una, snd_nxt, tx_len, i, o);
}

/// Whatever room there is, a block whose range can be kept when its turn comes is recorded whole,
/// and stays recorded: a block is left out only where more ranges would be needed than can be
/// kept.
pub proof fn law_ingest_leaves_out_only_for_room(
    ranges: Seq<Range>,
    blocks: Seq<Option<(u32, u32)>>,
    snd_una: TcpSeqNumber,
    snd_nxt: TcpSeqNumber,
    tx_len: usize,
    i: int,
    o: int,
)
    requires
        assembler::separated(ranges),
        0 <= i < blocks.len(),
        in_extent(blocks[i], snd_una, snd_nxt, tx_len, o),
    ensures
        ({
            let before = with_blocks(ranges, blocks.take(i), snd_una, snd_nxt, tx_len);
            let (offset, len) = block_extent(blocks[i]->0, snd_una, snd_nxt, tx_len)->0;
            assembler::with_added(before, offset, len) is Some ==> assembler::covers(
                with_blocks(ranges, blocks, snd_una, snd_nxt, tx_len),
                o,
            )
        }),
    decreases blocks.len(),
{
    let rest = blocks.drop_last();
    let earlier = with_blocks(ranges, rest, snd_una, snd_nxt, tx_len);
    lemma_blocks_separated(ranges, rest, snd_una, snd_nxt, tx_len);
    if i == blocks.len() - 1 {
        assert(blocks.take(i) =~= rest);
        let (offset, len) = block_extent(blocks[i]->0, snd_una, snd_nxt, tx_len)->0;
        assembler::lemma_merged(earlier, offset, (offset + len) as usize);
        assert(assembler::covers(assembler::merged(earlier, offset, (offset + len) as usize), o));
    } else {
        assert(rest.take(i) =~= blocks.take(i));
        assert(rest[i] == blocks[i]);
        law_ingest_leaves_out_only_for_room(ranges, rest, snd_una, snd_nxt, tx_len, i, o);
        if assembler::covers(earlier, o) {
            lemma_block_keeps(earlier, blocks.last(), snd_una, snd_nxt, tx_len, o);
        }
    }
}

/// Taking in blocks covers nothing but what was covered and what counts of one of the blocks.
pub proof fn law_ingest_adds_only_blocks(
    ranges: Seq<Range>,
    blocks: Seq<Option<(u32, u32)>>,
    snd_una: TcpSeqNumber,
    snd_nxt: TcpSeqNumber,
    tx_len: usize,
    o: int,
)
    requires
        assembler::separated(ranges),
        assembler::covers(with_blocks(ranges, blocks, snd_una, snd_nxt, tx_len), o),
        !assembler::covers(ranges, o),
    ensures
        exists|i: int|
            0 <= i < blocks.len() && in_extent(#[trigger] blocks[i], snd_una, snd_nxt, tx_len, o),
    decreases blocks.len(),
{
    if blocks.len() > 0 {
        let rest = blocks.drop_last();
        let earlier = with_blocks(ranges, rest, snd_una, snd_nxt, tx_len);
        lemma_blocks_separated(ranges, rest, snd_una, snd_nxt, tx_len);
        if assembler::covers(earlier, o) {
            law_ingest_adds_only_blocks(ranges, rest, snd_una, snd_nxt, tx_len, o);
            let i = choose|i: int|
                0 <= i < rest.len() && in_extent(#[trigger] rest[i], snd_una, snd_nxt, tx_len, o);
            assert(blocks[i] == rest[i]);
        } else {
            let last = blocks.len() - 1;
            assert(blocks[last] == blocks.last());
            if let Some(block) = blocks.last() {
                if let Some((offset, len)) = block_extent(block, snd_una, snd_nxt, tx_len) {
                    assembler::lemma_merged(earlier, offset, (offset + len) as usize);
                }
            }
        }
    }
}

/// The order of the blocks of an option, and blocks that come twice, do not matter to what is
/// covered, as long as there is room for a range of each.
pub proof fn law_ingest_ignores_order(
    ranges: Seq<Range>,
    blocks: Seq<Option<(u32, u32)>>,
    others: Seq<Option<(u32, u32)>>,
    snd_una: TcpSeqNumber,
    snd_nxt: TcpSeqNumber,
    tx_len: usize,
)
    requires
        assembler::separated(ranges),
        ranges.len() + blocks.len() <= ASSEMBLER_MAX_SEGMENT_COUNT,
        ranges.len() + others.len() <= ASSEMBLER_MAX_SEGMENT_COUNT,
        forall|block: Option<(u32, u32)>| #[trigger]
            blocks.contains(block) == others.contains(block),
    ensures
        with_blocks(ranges, blocks, snd_una, snd_nxt, tx_len) == with_blocks(
            ranges,
            others,
            snd_una,
            snd_nxt,
            tx_len,
        ),
{
    let left = with_blocks(ranges, blocks, snd_una, snd_nxt, tx_len);
    let right = with_blocks(ranges, others, snd_una, snd_nxt, tx_len);
    lemma_blocks_separated(ranges, blocks, snd_una, snd_nxt, tx_len);
    lemma_blocks_separated(ranges, others, snd_una, snd_nxt, tx_len);
    assert forall|o: int| assembler::covers(left, o) <==> #[trigger] assembler::covers(right, o) by {
        lemma_same_blocks_cover(ranges, blocks, others, snd_una, snd_nxt, tx_len, o);
        lemma_same_blocks_cover(ranges, others, blocks, snd_una, snd_nxt, tx_len, o);
    }
    assembler::law_ranges_are_canonical(left, right);
}

/// What blocks cover, other blocks with the same among them cover too.
proof fn lemma_same_blocks_cover(
    ranges: Seq<Range>,
    blocks: Seq<Option<(u32, u32)>>,
    others: Seq<Option<(u32, u32)>>,
    snd_una: TcpSeqNumber,
    snd_nxt: TcpSeqNumber,
    tx_len: usize,
    o: int,
)
    requires
        assembler::separated(ranges),
        ranges.len() + others.len() <= ASSEMBLER_MAX_SEGMENT_COUNT,
        forall|block: Option<(u32, u32)>| #[trigger]
            blocks.contains(block) == others.contains(block),
    ensures
        assembler::covers(with_blocks(ranges, blocks, snd_una, snd_nxt, tx_len), o)
            ==> assembler::covers(with_blocks(ranges, others, snd_una, snd_nxt, tx_len), o),
{
    if assembler::covers(with_blocks(ranges, blocks, snd_una, snd_nxt, tx_len), o) {
        if assembler::covers(ranges, o) {
            lemma_blocks_keep(ranges, others, snd_una, snd_nxt, tx_len, o);
        } else {
            law_ingest_adds_only_blocks(ranges, blocks, snd_una, snd_nxt, tx_len, o);
            let i = choose|i: int|
                0 <= i < blocks.len() && in_extent(
                    #[trigger] blocks[i],
                    snd_una,
                    snd_nxt,
                    tx_len,
                    o,
                );
            assert(blocks.contains(blocks[i]));
            assert(others.contains(blocks[i]));
            let k = choose|k: int| 0 <= k < others.len() && others[k] == blocks[i];
            law_ingest_records_every_block(ranges, others, snd_una, snd_nxt, tx_len, k, o);
        }
    }
}

/// What was covered stays covered when a block is taken in, and the ranges stay apart.
proof fn lemma_block_keeps(
    ranges: Seq<Range>,
    block: Option<(u32, u32)>,
    snd_una: TcpSeqNumber,
    snd_nxt: TcpSeqNumber,
    tx_len: usize,
    o: int,
)
    requires
        assembler::separated(ranges),
    ensures
        assembler::separated(with_block(ranges, block, snd_una, snd_nxt, tx_len)),
        with_block(ranges, block, snd_una, snd_nxt, tx_len).len() <= ranges.len() + 1,
        assembler::covers(ranges, o) ==> assembler::covers(
            with_block(ranges, block, snd_una, snd_nxt, tx_len),
            o,
        ),
{
    if let Some(edges) = block {
        if let Some((offset, len)) = block_extent(edges, snd_una, snd_nxt, tx_len) {
            assembler::lemma_merged(ranges, offset, (offset + len) as usize);
            assembler::lemma_merged_len(ranges, offset, (offset + len) as usize);
        }
    }
}

/// What was covered stays covered when blocks are taken in.
proof fn lemma_blocks_keep(
    ranges: Seq<Range>,
    blocks: Seq<Option<(u32, u32)>>,
    snd_una: TcpSeqNumber,
    snd_nxt: TcpSeqNumber,
    tx_len: usize,
    o: int,
)
    requires
        assembler::separated(ranges),
        assembler::covers(ranges, o),
    ensures
        assembler::covers(with_blocks(ranges, blocks, snd_una, snd_nxt, tx_len), o),
    decreases blocks.len(),
{
    if blocks.len() > 0 {
        let rest = blocks.drop_last();
        lemma_blocks_keep(ranges, rest, snd_una, snd_nxt, tx_len, o);
        lemma_blocks_separated(ranges, rest, snd_una, snd_nxt, tx_len);
        lemma_block_keeps(
            with_blocks(ranges, rest, snd_una, snd_nxt, tx_len),
            blocks.last(),
            snd_una,
            snd_nxt,
            tx_len,
            o,
        );
    }
}

/// Taking in blocks keeps the ranges apart, and adds one range for each at most.
proof fn lemma_blocks_separated(
    ranges: Seq<Range>,
    blocks: Seq<Option<(u32, u32)>>,
    snd_una: TcpSeqNumber,
    snd_nxt: TcpSeqNumber,
    tx_len: usize,
)
    requires
        assembler::separated(ranges),
    ensures
        assembler::separated(with_blocks(ranges, blocks, snd_una, snd_nxt, tx_len)),
        with_blocks(ranges, blocks, snd_una, snd_nxt, tx_len).len() <= ranges.len()
            + blocks.len(),
    decreases blocks.len(),
{
    if blocks.len() > 0 {
        let rest = blocks.drop_last();
        lemma_blocks_separated(ranges, rest, snd_una, snd_nxt, tx_len);
        lemma_block_keeps(
            with_blocks(ranges, rest, snd_una, snd_nxt, tx_len),
            blocks.last(),
            snd_una,
            snd_nxt,
            tx_len,
            0,
        );
    }
}

/// Where there is room for a range of each block, each is recorded.
proof fn lemma_blocks_recorded(
    ranges: Seq<Range>,
    blocks: Seq<Option<(u32, u32)>>,
    snd_una: TcpSeqNumber,
    snd_nxt: TcpSeqNumber,
    tx_len: usize,
    i: int,
    o: int,
)
    requires
        assembler::separated(ranges),
        ranges.len() + blocks.len() <= ASSEMBLER_MAX_SEGMENT_COUNT,
        0 <= i < blocks.len(),
        in_extent(blocks[i], snd_una, snd_nxt, tx_len, o),
    ensures
        assembler::covers(with_blocks(ranges, blocks, snd_una, snd_nxt, tx_len), o),
{
    let before = with_blocks(ranges, blocks.take(i), snd_una, snd_nxt, tx_len);
    let (offset, len) = block_extent(blocks[i]->0, snd_una, snd_nxt, tx_len)->0;
    lemma_blocks_separated(ranges, blocks.take(i), snd_una, snd_nxt, tx_len);
    assembler::lemma_merged_len(before, offset, (offset + len) as usize);
    law_ingest_leaves_out_only_for_room(ranges, blocks, snd_una, snd_nxt, tx_len, i, o);
}

/// Counting below a cursor counts each covered offset once, and no other.
pub proof fn law_count_goes_by_covered_offsets(ranges: Seq<Range>, cursor: nat)
    ensures
        covered_below(ranges, 0) == 0,
        assembler::covers(ranges, cursor as int) ==> covered_below(ranges, cursor + 1)
            == covered_below(ranges, cursor) + 1,
        !assembler::covers(ranges, cursor as int) ==> covered_below(ranges, cursor + 1)
            == covered_below(ranges, cursor),
{
}

/// A cumulative acknowledgement of `len` bytes moves every offset that is left down by
/// `len`.
pub proof fn law_discard_rebases(ranges: Seq<Range>, len: usize, o: int)
    requires
        assembler::separated(ranges),
        o >= 0,
    ensures
        assembler::separated(assembler::shifted(ranges, len)),
        assembler::covers(assembler::shifted(ranges, len), o) == assembler::covers(
            ranges,
            o + len,
        ),
{
    assembler::lemma_shifted(ranges, len);
}

/// No more bytes are counted below a cursor than there are, and counting goes on from
/// cursor to cursor.
pub proof fn law_count_is_bounded(ranges: Seq<Range>, low: nat, high: nat)
    requires
        low <= high,
    ensures
        covered_below(ranges, low) <= covered_below(ranges, high) <= covered_below(ranges, low) + (
        high - low),
        covered_below(ranges, low) <= low,
    decreases high,
{
    if low < high {
        law_count_is_bounded(ranges, low, (high - 1) as nat);
    } else if low > 0 {
        law_count_is_bounded(ranges, (low - 1) as nat, (low - 1) as nat);
    }
}

} // verus!
