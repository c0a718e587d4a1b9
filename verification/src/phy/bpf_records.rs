//! The records in which a Berkeley packet filter hands packets over.
use vstd::prelude::*;
use vstd::slice::slice_subrange;

verus! {

/// Where a record's header has its fields, and what records are aligned to.
#[derive(Debug, Clone, Copy, PartialEq, Eq, Structural)]
pub struct HeaderLayout {
    pub caplen_offset: usize,
    pub datalen_offset: usize,
    pub hdrlen_offset: usize,
    pub alignment: usize,
}

/// The bytes do not hold a record.
#[derive(Debug, Clone, Copy, PartialEq, Eq, Structural)]
pub struct ParseError;

/// A record: the packet in it, and where the next record starts.
#[derive(Debug)]
pub struct Record<'a> {
    pub packet: &'a [u8],
    pub next_offset: usize,
}

/// The order of the bytes of a number in memory.
#[derive(Debug, Clone, Copy, PartialEq, Eq, Structural)]
pub enum ByteOrder {
    Little,
    Big,
}

/// Where a record's packet starts and ends, and where the next record starts.
pub struct RecordExtent {
    pub start: int,
    pub end: int,
    pub next: int,
}

/// The number that two bytes spell.
pub open spec fn spelled_u16(a: u8, b: u8, order: ByteOrder) -> int {
    match order {
        ByteOrder::Little => a + 256 * b,
        ByteOrder::Big => 256 * a + b,
    }
}

/// The number that four bytes spell.
pub open spec fn spelled_u32(a: u8, b: u8, c: u8, d: u8, order: ByteOrder) -> int {
    match order {
        ByteOrder::Little => spelled_u16(a, b, order) + 65536 * spelled_u16(c, d, order),
        ByteOrder::Big => 65536 * spelled_u16(a, b, order) + spelled_u16(c, d, order),
    }
}

/// The 16-bit number at `at`, where the buffer reaches that far.
pub open spec fn u16_at(buffer: Seq<u8>, at: int, order: ByteOrder) -> Option<int> {
    if 0 <= at && at + 2 <= buffer.len() {
        Some(spelled_u16(buffer[at], buffer[at + 1], order))
    } else {
        None
    }
}

/// The 32-bit number at `at`, where the buffer reaches that far.
pub open spec fn u32_at(buffer: Seq<u8>, at: int, order: ByteOrder) -> Option<int> {
    if 0 <= at && at + 4 <= buffer.len() {
        Some(spelled_u32(buffer[at], buffer[at + 1], buffer[at + 2], buffer[at + 3], order))
    } else {
        None
    }
}

/// `len` with the bits below the alignment cleared, after rounding up: `None` where there is
/// no alignment, or the sum cannot be counted.
pub open spec fn aligned(len: int, alignment: usize) -> Option<usize> {
    if alignment == 0 || len + alignment - 1 > usize::MAX {
        None
    } else {
        Some(((len + alignment - 1) as usize) & !((alignment - 1) as usize))
    }
}

/// The record at `offset`, where there is one: its header fields and its packet lie in the
/// buffer, the header reaches past its own fields, no more was captured than there was, and
/// the next record starts where alignment puts it, or at the end of the buffer.
pub open spec fn record_at(
    buffer: Seq<u8>,
    offset: int,
    layout: HeaderLayout,
    order: ByteOrder,
) -> Option<RecordExtent> {
    match (
        u32_at(buffer, offset + layout.caplen_offset, order),
        u32_at(buffer, offset + layout.datalen_offset, order),
        u16_at(buffer, offset + layout.hdrlen_offset, order),
    ) {
        (Some(captured), Some(original), Some(header)) => {
            let start = offset + header;
            let end = start + captured;
            if offset > buffer.len() || header < layout.hdrlen_offset + 2 || captured > original
                || end > buffer.len() {
                None
            } else {
                match aligned(header + captured, layout.alignment) {
                    Some(len) => if offset + len > usize::MAX {
                        None
                    } else if offset + len <= buffer.len() {
                        Some(RecordExtent { start, end, next: offset + len })
                    } else {
                        Some(RecordExtent { start, end, next: buffer.len() as int })
                    },
                    None => None,
                }
            }
        },
        _ => None,
    }
}

/// Whether `result` is what the buffer holds at `offset`.
pub open spec fn yields(
    result: Result<Record<'_>, ParseError>,
    buffer: Seq<u8>,
    offset: int,
    layout: HeaderLayout,
    order: ByteOrder,
) -> bool {
    match record_at(buffer, offset, layout, order) {
        Some(extent) => result matches Ok(record) && record.packet@ == buffer.subrange(
            extent.start,
            extent.end,
        ) && record.next_offset == extent.next,
        None => result is Err,
    }
}

impl HeaderLayout {
    /// A layout with its fields at these offsets and this alignment.
    pub fn new(
        caplen_offset: usize,
        datalen_offset: usize,
        hdrlen_offset: usize,
        alignment: usize,
    ) -> (layout: HeaderLayout)
        ensures
            layout == (HeaderLayout { caplen_offset, datalen_offset, hdrlen_offset, alignment }),
    {
        HeaderLayout { caplen_offset, datalen_offset, hdrlen_offset, alignment }
    }
}

/// The number that two bytes spell on this machine, by `u16::from_ne_bytes`: in one of the two
/// orders, which depends on the machine.
#[verifier::external_body]
fn u16_from_native(a: u8, b: u8) -> (number: u16)
    ensures
        number == spelled_u16(a, b, ByteOrder::Little) || number == spelled_u16(
            a,
            b,
            ByteOrder::Big,
        ),
{
    u16::from_ne_bytes([a, b])
}

/// The byte order of this machine. Which one that is, is the machine's: nothing is said of it
/// but that the machine was asked.
fn native_order() -> (order: ByteOrder)
    ensures
        native(order),
{
    order_of_one(u16_from_native(1, 0))
}

/// Whether this machine was asked for the number that the bytes 1 and 0 spell, and it is the one
/// that they spell in the order `order`.
pub closed spec fn native(order: ByteOrder) -> bool {
    exists|number: u16|
        call_ensures(u16_from_native, (1u8, 0u8), number) && number == spelled_u16(1, 0, order)
}

/// The byte order of a machine on which the bytes 1 and 0 spell `number`.
pub fn order_of_one(number: u16) -> (order: ByteOrder)
    requires
        number == spelled_u16(1, 0, ByteOrder::Little) || number == spelled_u16(
            1,
            0,
            ByteOrder::Big,
        ),
    ensures
        number == spelled_u16(1, 0, order),
{
    if number == 1 {
        ByteOrder::Little
    } else {
        ByteOrder::Big
    }
}

/// The 16-bit number at `offset`.
pub fn read_u16(buffer: &[u8], offset: usize, order: ByteOrder) -> (r: Result<u16, ParseError>)
    ensures
        match u16_at(buffer@, offset as int, order) {
            Some(number) => r matches Ok(n) && n == number,
            None => r is Err,
        },
{
    let len: usize = buffer.len();
    match offset.checked_add(2) {
        Some(end) => {
            if end > len {
                return Err(ParseError);
            }
        },
        None => return Err(ParseError),
    }
    let a: u16 = buffer[offset] as u16;
    let b: u16 = buffer[offset + 1] as u16;
    Ok(
        match order {
            ByteOrder::Little => a + 256 * b,
            ByteOrder::Big => 256 * a + b,
        },
    )
}

/// The 32-bit number at `offset`.
pub fn read_u32(buffer: &[u8], offset: usize, order: ByteOrder) -> (r: Result<u32, ParseError>)
    ensures
        match u32_at(buffer@, offset as int, order) {
            Some(number) => r matches Ok(n) && n == number,
            None => r is Err,
        },
{
    let len: usize = buffer.len();
    match offset.checked_add(4) {
        Some(end) => {
            if end > len {
                return Err(ParseError);
            }
        },
        None => return Err(ParseError),
    }
    match (read_u16(buffer, offset, order), read_u16(buffer, offset + 2, order)) {
        (Ok(first), Ok(second)) => Ok(
            match order {
                ByteOrder::Little => (first as u32) + 65536 * (second as u32),
                ByteOrder::Big => 65536 * (first as u32) + (second as u32),
            },
        ),
        _ => Err(ParseError),
    }
}

/// Rounds `len` up to the alignment.
pub fn word_align(len: usize, alignment: usize) -> (r: Option<usize>)
    ensures
        r == aligned(len as int, alignment),
{
    match alignment.checked_sub(1) {
        Some(mask) => match len.checked_add(mask) {
            Some(sum) => Some(sum & !mask),
            None => None,
        },
        None => None,
    }
}

/// Reads the record at `offset`, its numbers being in the order `order`.
pub fn parse_record_in<'a>(
    buffer: &'a [u8],
    offset: usize,
    layout: HeaderLayout,
    order: ByteOrder,
) -> (result: Result<Record<'a>, ParseError>)
    ensures
        yields(result, buffer@, offset as int, layout, order),
{
    if offset > buffer.len() {
        return Err(ParseError);
    }
    let record = slice_subrange(buffer, offset, buffer.len());
    let captured_len: usize = match read_u32(record, layout.caplen_offset, order) {
        Ok(len) => len as usize,
        Err(_) => return Err(ParseError),
    };
    let data_len: usize = match read_u32(record, layout.datalen_offset, order) {
        Ok(len) => len as usize,
        Err(_) => return Err(ParseError),
    };
    let header_len: usize = match read_u16(record, layout.hdrlen_offset, order) {
        Ok(len) => len as usize,
        Err(_) => return Err(ParseError),
    };
    if header_len < layout.hdrlen_offset + 2 || captured_len > data_len {
        return Err(ParseError);
    }
    let room: usize = buffer.len() - offset;
    if header_len > room || captured_len > room - header_len {
        return Err(ParseError);
    }
    let payload_start: usize = offset + header_len;
    let payload_end: usize = payload_start + captured_len;
    let packet = slice_subrange(buffer, payload_start, payload_end);
    match word_align(header_len + captured_len, layout.alignment) {
        Some(record_len) => match offset.checked_add(record_len) {
            Some(next) => {
                let next_offset: usize = if next <= buffer.len() {
                    next
                } else {
                    buffer.len()
                };
                Ok(Record { packet, next_offset })
            },
            None => Err(ParseError),
        },
        None => Err(ParseError),
    }
}

/// Reads the record at `offset`, its numbers being in the order of this machine.
pub fn parse_record<'a>(buffer: &'a [u8], offset: usize, layout: HeaderLayout) -> (result: Result<
    Record<'a>,
    ParseError,
>)
    ensures
        exists|order: ByteOrder| #[trigger]
            native(order) && yields(result, buffer@, offset as int, layout, order),
{
    parse_record_in(buffer, offset, layout, native_order())
}

/// How far the records of one read have been handed out.
#[derive(Debug, Clone, Copy, PartialEq, Eq, Structural)]
pub struct RecordCursor {
    pub read_len: usize,
    pub read_offset: usize,
}

impl RecordCursor {
    /// The position lies in what was read.
    pub open spec fn wf(self) -> bool {
        self.read_offset <= self.read_len
    }

    /// Nothing was read.
    pub fn new() -> (cursor: RecordCursor)
        ensures
            cursor.wf(),
            cursor == (RecordCursor { read_len: 0, read_offset: 0 }),
    {
        RecordCursor { read_len: 0, read_offset: 0 }
    }

    /// Whether all that was read has been handed out, so that more is to be read.
    pub fn is_drained(&self) -> (drained: bool)
        ensures
            drained == (self.read_offset == self.read_len),
    {
        self.read_offset == self.read_len
    }

    /// Notes that `len` bytes were read.
    pub fn refill(&mut self, len: usize)
        ensures
            final(self).wf(),
            *final(self) == (RecordCursor { read_len: len, read_offset: 0 }),
    {
        self.read_len = len;
        self.read_offset = 0;
    }

    /// Hands out the next packet, the numbers of its record being in the order `order`. A
    /// malformed record cannot say where the next one starts: all that follows is dropped.
    pub fn next_packet_in<'a>(
        &mut self,
        buffer: &'a [u8],
        layout: HeaderLayout,
        order: ByteOrder,
    ) -> (packet: Result<&'a [u8], ParseError>)
        requires
            old(self).wf(),
            old(self).read_len <= buffer@.len(),
        ensures
            final(self).wf(),
            cursor_step(*old(self), buffer@, layout, order, packet, *final(self)),
    {
        let read = slice_subrange(buffer, 0, self.read_len);
        match parse_record_in(read, self.read_offset, layout, order) {
            Ok(record) => {
                self.read_offset = record.next_offset;
                Ok(record.packet)
            },
            Err(_) => {
                self.read_offset = self.read_len;
                Err(ParseError)
            },
        }
    }

    /// Hands out the next packet, the numbers of its record being in the order of this
    /// machine.
    pub fn next_packet<'a>(&mut self, buffer: &'a [u8], layout: HeaderLayout) -> (packet: Result<
        &'a [u8],
        ParseError,
    >)
        requires
            old(self).wf(),
            old(self).read_len <= buffer@.len(),
        ensures
            final(self).wf(),
            exists|order: ByteOrder| #[trigger]
                native(order) && cursor_step(
                    *old(self),
                    buffer@,
                    layout,
                    order,
                    packet,
                    *final(self),
                ),
    {
        self.next_packet_in(buffer, layout, native_order())
    }
}

/// Whether handing out a packet takes a cursor from `before` to `after`.
pub open spec fn cursor_step(
    before: RecordCursor,
    buffer: Seq<u8>,
    layout: HeaderLayout,
    order: ByteOrder,
    packet: Result<&[u8], ParseError>,
    after: RecordCursor,
) -> bool {
    let read = buffer.take(before.read_len as int);
    match record_at(read, before.read_offset as int, layout, order) {
        Some(extent) => {
            &&& packet matches Ok(bytes)
            &&& bytes@ == read.subrange(extent.start, extent.end)
            &&& after == (RecordCursor { read_offset: extent.next as usize, ..before })
        },
        None => {
            &&& packet is Err
            &&& after == (RecordCursor { read_offset: before.read_len, ..before })
        },
    }
}

/// Rounding up to an alignment gives a length that is not less, by less than the alignment; for
/// the word sizes of the supported systems it is a multiple of the alignment.
pub proof fn law_alignment_rounds_up(len: usize, alignment: usize)
    requires
        alignment > 0,
        len + alignment - 1 <= usize::MAX,
    ensures
        aligned(len as int, alignment) matches Some(r) && {
            &&& len <= r < len + alignment
            &&& alignment == 4 ==> r % 4 == 0
            &&& alignment == 8 ==> r % 8 == 0
        },
{
    let mask = (alignment - 1) as usize;
    let sum = (len + mask) as usize;
    assert(sum & !mask >= sum - mask && sum & !mask <= sum) by (bit_vector)
        requires
            mask <= sum,
    ;
    assert((sum & !3usize) % 4 == 0) by (bit_vector);
    assert((sum & !7usize) % 8 == 0) by (bit_vector);
}

/// Each record that is handed out lies behind the last, and the cursor moves on: the records of
/// a read come in order, each once.
pub proof fn law_records_advance(
    buffer: Seq<u8>,
    offset: int,
    layout: HeaderLayout,
    order: ByteOrder,
)
    requires
        0 <= offset,
        buffer.len() <= usize::MAX,
    ensures
        record_at(buffer, offset, layout, order) matches Some(extent) ==> offset < extent.start
            <= extent.end <= extent.next <= buffer.len(),
{
    if let Some(extent) = record_at(buffer, offset, layout, order) {
        let record_len = extent.end - offset;
        law_alignment_rounds_up(record_len as usize, layout.alignment);
    }
}

/// A malformed record drops all that was read after it: the cursor is drained.
pub proof fn law_malformed_record_drains(
    before: RecordCursor,
    buffer: Seq<u8>,
    layout: HeaderLayout,
    order: ByteOrder,
    packet: Result<&[u8], ParseError>,
    after: RecordCursor,
)
    requires
        cursor_step(before, buffer, layout, order, packet, after),
        packet is Err,
    ensures
        after.read_offset == after.read_len == before.read_len,
{
}

/// The bytes of a number are its digits to the base 256: the least comes first in one order, and
/// last in the other. Bytes the other way round spell the same number in the other order.
pub proof fn law_numbers_are_spelled_by_their_digits(a: u8, b: u8, c: u8, d: u8)
    ensures
        spelled_u16(a, b, ByteOrder::Big) / 256 == a,
        spelled_u16(a, b, ByteOrder::Big) % 256 == b,
        spelled_u16(a, b, ByteOrder::Little) == spelled_u16(b, a, ByteOrder::Big),
        spelled_u32(a, b, c, d, ByteOrder::Big) / 0x100_0000 == a,
        spelled_u32(a, b, c, d, ByteOrder::Big) / 0x1_0000 % 256 == b,
        spelled_u32(a, b, c, d, ByteOrder::Big) / 0x100 % 256 == c,
        spelled_u32(a, b, c, d, ByteOrder::Big) % 256 == d,
        spelled_u32(a, b, c, d, ByteOrder::Little) == spelled_u32(d, c, b, a, ByteOrder::Big),
{
}

/// A field is read where all its bytes lie in the buffer, and not where any does not.
pub proof fn law_fields_lie_in_the_buffer(buffer: Seq<u8>, at: int, order: ByteOrder)
    ensures
        u16_at(buffer, at, order) is Some <==> 0 <= at <= buffer.len() - 2,
        u32_at(buffer, at, order) is Some <==> 0 <= at <= buffer.len() - 4,
        u16_at(buffer, at, order) matches Some(number) ==> number == spelled_u16(
            buffer[at],
            buffer[at + 1],
            order,
        ),
        u32_at(buffer, at, order) matches Some(number) ==> number == spelled_u32(
            buffer[at],
            buffer[at + 1],
            buffer[at + 2],
            buffer[at + 3],
            order,
        ),
{
}

/// A record whose header says that it is `header` bytes long, that `captured` bytes follow it and
/// that the packet had `original`, is read exactly where that can be: the header reaches past its
/// fields, no more was captured than there was, and both lie in the buffer. Its packet is what
/// follows the header. The next record starts behind it, less than the alignment further on and
/// at a multiple of it from this one, or at the end of the buffer where that is nearer.
pub proof fn law_records_are_read_by_their_header(
    buffer: Seq<u8>,
    offset: int,
    layout: HeaderLayout,
    order: ByteOrder,
    captured: int,
    original: int,
    header: int,
)
    requires
        0 <= offset,
        buffer.len() + layout.alignment <= usize::MAX,
        layout.alignment == 4 || layout.alignment == 8,
        u32_at(buffer, offset + layout.caplen_offset, order) == Some(captured),
        u32_at(buffer, offset + layout.datalen_offset, order) == Some(original),
        u16_at(buffer, offset + layout.hdrlen_offset, order) == Some(header),
    ensures
        match record_at(buffer, offset, layout, order) {
            Some(extent) => {
                &&& header >= layout.hdrlen_offset + 2
                &&& captured <= original
                &&& extent.start == offset + header
                &&& extent.end == extent.start + captured
                &&& extent.end <= extent.next <= buffer.len()
                &&& extent.next < extent.end + layout.alignment
                &&& extent.next == buffer.len() || (extent.next - offset) % (layout.alignment as int)
                    == 0
            },
            None => header < layout.hdrlen_offset + 2 || captured > original || offset + header
                + captured > buffer.len(),
        },
{
    if header + captured <= buffer.len() {
        law_alignment_rounds_up((header + captured) as usize, layout.alignment);
    }
}

/// Bytes that do not reach as far as the fields of a header hold no record, and without an
/// alignment there is none.
pub proof fn law_cut_headers_are_refused(
    buffer: Seq<u8>,
    offset: int,
    layout: HeaderLayout,
    order: ByteOrder,
)
    requires
        0 <= offset,
        offset + layout.caplen_offset + 4 > buffer.len() || offset + layout.datalen_offset + 4
            > buffer.len() || offset + layout.hdrlen_offset + 2 > buffer.len() || layout.alignment
            == 0,
    ensures
        record_at(buffer, offset, layout, order) is None,
{
}

/// A packet that is handed out lies in what was read, behind what was handed out before, and the
/// cursor moves past it. What lies behind what was read makes no difference.
pub proof fn law_cursor_hands_out_what_was_read(
    before: RecordCursor,
    buffer: Seq<u8>,
    other: Seq<u8>,
    layout: HeaderLayout,
    order: ByteOrder,
    packet: Result<&[u8], ParseError>,
    after: RecordCursor,
)
    requires
        before.wf(),
        before.read_len <= buffer.len(),
        before.read_len <= other.len(),
        buffer.take(before.read_len as int) == other.take(before.read_len as int),
        cursor_step(before, buffer, layout, order, packet, after),
    ensures
        after.read_len == before.read_len,
        after.wf(),
        cursor_step(before, other, layout, order, packet, after),
        packet matches Ok(bytes) ==> exists|start: int|
            before.read_offset < start && start + bytes@.len() <= after.read_offset && bytes@
                == #[trigger] buffer.subrange(start, start + bytes@.len()),
{
    let read = buffer.take(before.read_len as int);
    law_records_advance(read, before.read_offset as int, layout, order);
    if let Some(extent) = record_at(read, before.read_offset as int, layout, order) {
        let bytes = packet->Ok_0;
        assert(read.subrange(extent.start, extent.end) =~= buffer.subrange(
            extent.start,
            extent.start + bytes@.len(),
        ));
    }
}

} // verus!
