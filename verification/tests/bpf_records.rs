use smolnet::phy::bpf_records::{
    order_of_one, parse_record, parse_record_in, read_u16, read_u32, word_align, ByteOrder,
    HeaderLayout, RecordCursor,
};

fn darwin_openbsd() -> HeaderLayout {
    HeaderLayout::new(8, 12, 16, 4)
}

fn netbsd_32_freebsd_i686() -> HeaderLayout {
    HeaderLayout::new(8, 12, 16, 4)
}

fn freebsd_32_time64() -> HeaderLayout {
    HeaderLayout::new(16, 20, 24, 4)
}

fn netbsd_64_freebsd_64() -> HeaderLayout {
    HeaderLayout::new(16, 20, 24, 8)
}

fn record(
    layout: HeaderLayout,
    header_len: usize,
    captured_len: usize,
    data_len: usize,
    payload: &[u8],
    pad: bool,
) -> Vec<u8> {
    let mut bytes = vec![0; header_len];
    bytes[layout.caplen_offset..layout.caplen_offset + 4]
        .copy_from_slice(&(captured_len as u32).to_ne_bytes());
    bytes[layout.datalen_offset..layout.datalen_offset + 4]
        .copy_from_slice(&(data_len as u32).to_ne_bytes());
    bytes[layout.hdrlen_offset..layout.hdrlen_offset + 2]
        .copy_from_slice(&(header_len as u16).to_ne_bytes());
    bytes.extend_from_slice(payload);
    if pad {
        bytes.resize(word_align(bytes.len(), layout.alignment).unwrap(), 0);
    }
    bytes
}

#[test]
fn parses_each_supported_header_layout() {
    for (layout, header_len) in [
        (darwin_openbsd(), 18),
        (darwin_openbsd(), 30),
        (netbsd_32_freebsd_i686(), 18),
        (netbsd_64_freebsd_64(), 34),
        (netbsd_64_freebsd_64(), 26),
    ] {
        let bytes = record(layout, header_len, 3, 3, b"one", false);
        let parsed = parse_record(&bytes, 0, layout).unwrap();
        assert_eq!(parsed.packet, b"one");
        assert_eq!(parsed.next_offset, bytes.len());
    }
}

#[test]
fn parses_freebsd_32_time64_layout() {
    let mut bytes = record(freebsd_32_time64(), 26, 7, 7, b"first!!", true);
    let second_offset = bytes.len();
    assert_eq!(second_offset, 36);
    bytes.extend(record(freebsd_32_time64(), 26, 3, 3, b"two", false));

    assert!(parse_record(&bytes, 0, netbsd_32_freebsd_i686()).is_err());

    let first = parse_record(&bytes, 0, freebsd_32_time64()).unwrap();
    assert_eq!(first.packet, b"first!!");
    assert_eq!(first.next_offset, second_offset);

    let align8 = HeaderLayout::new(16, 20, 24, 8);
    assert_eq!(parse_record(&bytes, 0, align8).unwrap().next_offset, 40);

    let second = parse_record(&bytes, first.next_offset, freebsd_32_time64()).unwrap();
    assert_eq!(second.packet, b"two");
}

#[test]
fn parses_multiple_aligned_records_in_order() {
    let mut bytes = record(darwin_openbsd(), 18, 3, 3, b"one", true);
    let second_offset = bytes.len();
    bytes.extend(record(darwin_openbsd(), 20, 5, 5, b"secon", false));

    let first = parse_record(&bytes, 0, darwin_openbsd()).unwrap();
    assert_eq!(first.packet, b"one");
    assert_eq!(first.next_offset, second_offset);

    let second = parse_record(&bytes, first.next_offset, darwin_openbsd()).unwrap();
    assert_eq!(second.packet, b"secon");
    assert_eq!(second.next_offset, bytes.len());
}

#[test]
fn accepts_final_record_without_alignment_padding() {
    let bytes = record(netbsd_64_freebsd_64(), 26, 3, 3, b"end", false);
    assert_ne!(bytes.len() % netbsd_64_freebsd_64().alignment, 0);

    let parsed = parse_record(&bytes, 0, netbsd_64_freebsd_64()).unwrap();
    assert_eq!(parsed.packet, b"end");
    assert_eq!(parsed.next_offset, bytes.len());
}

#[test]
fn accepts_snaplen_truncated_capture() {
    let bytes = record(darwin_openbsd(), 18, 3, 12, b"cap", false);
    assert_eq!(
        parse_record(&bytes, 0, darwin_openbsd()).unwrap().packet,
        b"cap"
    );
}

#[test]
fn rejects_capture_larger_than_original_data() {
    let bytes = record(darwin_openbsd(), 18, 3, 2, b"bad", false);
    assert!(parse_record(&bytes, 0, darwin_openbsd()).is_err());
}

#[test]
fn rejects_truncated_header_fields() {
    let bytes = [0; 17];
    assert!(parse_record(&bytes, 0, darwin_openbsd()).is_err());
}

#[test]
fn rejects_header_length_beyond_record() {
    let mut bytes = record(darwin_openbsd(), 18, 0, 0, b"", false);
    bytes[16..18].copy_from_slice(&32u16.to_ne_bytes());
    assert!(parse_record(&bytes, 0, darwin_openbsd()).is_err());
}

#[test]
fn rejects_truncated_payload() {
    let bytes = record(darwin_openbsd(), 18, 4, 4, b"bad", false);
    assert!(parse_record(&bytes, 0, darwin_openbsd()).is_err());
}

#[test]
fn rejects_alignment_overflow() {
    assert_eq!(word_align(usize::MAX, 4), None);
    assert_eq!(word_align(usize::MAX - 3, 8), None);
}

#[test]
fn yields_valid_prefix_before_malformed_tail() {
    let mut bytes = record(darwin_openbsd(), 18, 3, 3, b"one", true);
    bytes.extend_from_slice(&[0; 17]);

    let first = parse_record(&bytes, 0, darwin_openbsd()).unwrap();
    assert_eq!(first.packet, b"one");
    assert!(parse_record(&bytes, first.next_offset, darwin_openbsd()).is_err());
}

#[test]
fn word_align_rounds_up_to_the_alignment() {
    assert_eq!(word_align(0, 4), Some(0));
    assert_eq!(word_align(1, 4), Some(4));
    assert_eq!(word_align(21, 4), Some(24));
    assert_eq!(word_align(21, 8), Some(24));
    assert_eq!(word_align(24, 8), Some(24));
    assert_eq!(word_align(24, 0), None);
}

#[test]
fn reads_numbers_in_either_order() {
    let bytes = [0x01, 0x02, 0x03, 0x04, 0x05];
    assert_eq!(read_u16(&bytes, 1, ByteOrder::Little), Ok(0x0302));
    assert_eq!(read_u16(&bytes, 1, ByteOrder::Big), Ok(0x0203));
    assert_eq!(read_u32(&bytes, 1, ByteOrder::Little), Ok(0x0504_0302));
    assert_eq!(read_u32(&bytes, 1, ByteOrder::Big), Ok(0x0203_0405));
    assert!(read_u16(&bytes, 4, ByteOrder::Big).is_err());
    assert!(read_u32(&bytes, 2, ByteOrder::Big).is_err());
    assert!(read_u16(&bytes, usize::MAX, ByteOrder::Big).is_err());
    assert!(read_u32(&bytes, usize::MAX, ByteOrder::Big).is_err());
}

#[test]
fn parses_records_in_the_order_it_is_told() {
    let mut bytes = vec![0u8; 18];
    bytes[11] = 2;
    bytes[15] = 2;
    bytes[17] = 18;
    bytes.extend_from_slice(b"hi");
    let parsed = parse_record_in(&bytes, 0, darwin_openbsd(), ByteOrder::Big).unwrap();
    assert_eq!(parsed.packet, b"hi");
    assert_eq!(parsed.next_offset, 20);
    assert!(parse_record_in(&bytes, 0, darwin_openbsd(), ByteOrder::Little).is_err());
    assert!(parse_record_in(&bytes, 21, darwin_openbsd(), ByteOrder::Big).is_err());
}

#[test]
fn cursor_hands_records_out_in_order_and_drops_a_malformed_tail() {
    let mut bytes = record(darwin_openbsd(), 18, 3, 3, b"one", true);
    bytes.extend(record(darwin_openbsd(), 18, 3, 3, b"two", true));
    bytes.extend_from_slice(&[0; 17]);
    let read_len = bytes.len();
    // The buffer is longer than what was read.
    bytes.extend_from_slice(&[0xff; 40]);

    let mut cursor = RecordCursor::new();
    assert!(cursor.is_drained());
    cursor.refill(read_len);
    assert!(!cursor.is_drained());
    assert_eq!(cursor.next_packet(&bytes, darwin_openbsd()).unwrap(), b"one");
    assert_eq!(cursor.next_packet(&bytes, darwin_openbsd()).unwrap(), b"two");
    assert!(!cursor.is_drained());
    assert!(cursor.next_packet(&bytes, darwin_openbsd()).is_err());
    assert!(cursor.is_drained());
    assert_eq!(cursor.read_offset, read_len);
}

#[test]
fn byte_order_shows_in_the_number_one() {
    assert_eq!(order_of_one(u16::from_le_bytes([1, 0])), ByteOrder::Little);
    assert_eq!(order_of_one(u16::from_be_bytes([1, 0])), ByteOrder::Big);
    assert_eq!(
        read_u16(&0x1234u16.to_ne_bytes(), 0, order_of_one(u16::from_ne_bytes([1, 0]))),
        Ok(0x1234)
    );
}
