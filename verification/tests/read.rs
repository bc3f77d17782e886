use peer_archive::archive::header::{current_timestamp, timestamp_of, ArchiveHeader};
use peer_archive::archive::input::{ErrorKind, Input, IoFault, ReadEvent};
use peer_archive::archive::read::{
    read_length_delimiter, read_message, ArchiveReader, FrameSize, Opening, ReadError, Step,
};
use peer_archive::event::Event;
use peer_archive::wire::push_framed;

/// An input that holds `bytes` and has ended.
fn ended_input(bytes: Vec<u8>) -> Input {
    let mut input = Input::new();
    if !bytes.is_empty() {
        input.feed(ReadEvent::Data(bytes));
    }
    input.feed(ReadEvent::Data(Vec::new()));
    input
}

/// Takes the single byte of a payload for the time of an event.
fn decode_byte(payload: &[u8]) -> Result<Event, String> {
    if payload.len() == 1 {
        Ok(Event { timestamp: payload[0] as u64, peer_observer_event: None })
    } else {
        Err(format!("{} bytes", payload.len()))
    }
}

fn open(input: Input) -> ArchiveReader {
    match ArchiveReader::new(input) {
        Opening::Reader(reader) => reader,
        other => panic!("expected a reader, got {:?}", other),
    }
}

fn open_error(input: Input) -> ReadError {
    match ArchiveReader::new(input) {
        Opening::Failed(error) => error,
        other => panic!("expected an error, got {:?}", other),
    }
}

#[test]
fn reads_single_byte_length_prefix() {
    let mut input = ended_input(vec![0x05]);
    assert_eq!(read_length_delimiter(&mut input), Step::Ready(Ok(Some((5, 1)))));
}

#[test]
fn reads_multi_byte_length_prefix_split_across_reads() {
    // 300 encodes as the two-byte varint [0xAC, 0x02]. A prefix split across
    // reads must still decode to the full value.
    let mut input = Input::new();
    input.feed(ReadEvent::Data(vec![0xAC]));
    assert_eq!(read_length_delimiter(&mut input), Step::NeedInput);
    input.feed(ReadEvent::Data(vec![0x02]));
    assert_eq!(read_length_delimiter(&mut input), Step::Ready(Ok(Some((300, 2)))));
}

#[test]
fn returns_none_on_clean_eof_at_boundary() {
    let mut input = ended_input(Vec::new());
    assert_eq!(read_length_delimiter(&mut input), Step::Ready(Ok(None)));
}

#[test]
fn errors_on_truncated_length_prefix() {
    // A lone continuation byte with no follow-up is a truncated varint.
    let mut input = ended_input(vec![0x80]);
    match read_length_delimiter(&mut input) {
        Step::Ready(Err(error)) => {
            assert_eq!(error, ReadError::TruncatedDelimiter);
            assert_eq!(error.kind(), ErrorKind::UnexpectedEof);
            assert_eq!(error.to_text(), "unexpected end of file");
        }
        other => panic!("expected an error, got {:?}", other),
    }
}

#[test]
fn read_message_returns_none_on_clean_eof() {
    let mut input = ended_input(Vec::new());
    assert_eq!(read_message(&mut input, &ArchiveHeader::decode), Step::Ready(Ok(None)));
}

#[test]
fn ten_continuation_bytes_are_no_length_prefix() {
    // The eleventh byte is not looked at, and stays.
    let mut input = ended_input(vec![0x80, 0x80, 0x80, 0x80, 0x80, 0x80, 0x80, 0x80, 0x80, 0x80, 7]);
    match read_length_delimiter(&mut input) {
        Step::Ready(Err(error)) => {
            assert_eq!(error.kind(), ErrorKind::Other);
            assert_eq!(error.to_text(), "failed to decode Protobuf message: invalid varint");
        }
        other => panic!("expected an error, got {:?}", other),
    }
    assert_eq!(input.unread(), &[7u8][..]);
}

#[test]
fn largest_length_prefix_fits() {
    let mut input =
        ended_input(vec![0xff, 0xff, 0xff, 0xff, 0xff, 0xff, 0xff, 0xff, 0xff, 0x01]);
    assert_eq!(read_length_delimiter(&mut input), Step::Ready(Ok(Some((usize::MAX, 10)))));
    let mut input =
        ended_input(vec![0xff, 0xff, 0xff, 0xff, 0xff, 0xff, 0xff, 0xff, 0xff, 0x02]);
    assert!(matches!(
        read_length_delimiter(&mut input),
        Step::Ready(Err(ReadError::Delimiter(_)))
    ));
}

#[test]
fn interrupted_reads_are_repeated() {
    let mut input = Input::new();
    input.feed(ReadEvent::Data(vec![0xAC]));
    input.feed(ReadEvent::Failed(IoFault {
        kind: ErrorKind::Interrupted,
        message: "interrupted".to_string(),
    }));
    assert!(!input.has_ended());
    input.feed(ReadEvent::Data(vec![0x02]));
    assert_eq!(read_length_delimiter(&mut input), Step::Ready(Ok(Some((300, 2)))));
}

#[test]
fn split_reads_add_up() {
    let mut split = Input::new();
    split.feed(ReadEvent::Data(vec![1, 2]));
    split.feed(ReadEvent::Data(vec![3]));
    let mut whole = Input::new();
    whole.feed(ReadEvent::Data(vec![1, 2, 3]));
    assert_eq!(split.unread(), whole.unread());
    assert_eq!(split.unread(), &[1u8, 2, 3][..]);
}

#[test]
fn failed_read_is_reported_once() {
    let mut input = Input::new();
    input.feed(ReadEvent::Data(vec![2, 9]));
    input.feed(ReadEvent::Failed(IoFault {
        kind: ErrorKind::Other,
        message: "disk on fire".to_string(),
    }));
    assert!(input.has_ended());
    assert!(!input.is_at_eof());
    match read_message(&mut input, &decode_byte) {
        Step::Ready(Err(error)) => {
            assert_eq!(error.kind(), ErrorKind::Other);
            assert_eq!(error.to_text(), "disk on fire");
        }
        other => panic!("expected an error, got {:?}", other),
    }
    assert_eq!(read_message(&mut input, &decode_byte), Step::NeedInput);
}

#[test]
fn message_waits_for_all_of_its_bytes() {
    let mut input = Input::new();
    input.feed(ReadEvent::Data(vec![1]));
    assert_eq!(read_message(&mut input, &decode_byte), Step::NeedInput);
    assert_eq!(input.unread(), &[1u8][..]);
    input.feed(ReadEvent::Data(vec![42, 5]));
    assert_eq!(
        read_message(&mut input, &decode_byte),
        Step::Ready(Ok(Some((
            Event { timestamp: 42, peer_observer_event: None },
            FrameSize { protobuf_bytes: 1, delimiter_bytes: 1 }
        ))))
    );
    assert_eq!(input.unread(), &[5u8][..]);
}

#[test]
fn message_that_ends_too_early_is_an_unexpected_eof() {
    let mut input = ended_input(vec![3, 1, 2]);
    match read_message(&mut input, &decode_byte) {
        Step::Ready(Err(error)) => {
            assert_eq!(error, ReadError::TruncatedMessage);
            assert_eq!(error.kind(), ErrorKind::UnexpectedEof);
            assert_eq!(error.to_text(), "failed to fill whole buffer");
        }
        other => panic!("expected an error, got {:?}", other),
    }
}

#[test]
fn message_that_does_not_decode_is_an_error() {
    let mut input = ended_input(vec![2, 1, 2, 1, 8]);
    match read_message(&mut input, &decode_byte) {
        Step::Ready(Err(error)) => {
            assert_eq!(error, ReadError::Decode("2 bytes".to_string()));
            assert_eq!(error.kind(), ErrorKind::Other);
        }
        other => panic!("expected an error, got {:?}", other),
    }
    // The message was used up.
    assert_eq!(input.unread(), &[1u8, 8][..]);
}

#[test]
fn size_counts_the_delimiter_as_it_stands() {
    // One byte long, in a delimiter padded to three bytes.
    let mut input = ended_input(vec![0x81, 0x80, 0x00, 77]);
    match read_message(&mut input, &decode_byte) {
        Step::Ready(Ok(Some((event, size)))) => {
            assert_eq!(event.timestamp, 77);
            assert_eq!(size, FrameSize { protobuf_bytes: 1, delimiter_bytes: 3 });
            assert_eq!(size.framed_bytes(), 4);
        }
        other => panic!("expected a message, got {:?}", other),
    }
}

#[test]
fn reader_gives_header_and_records() {
    let header = ArchiveHeader { created: 300, low_data: Some(true) };
    let mut bytes = header.to_bytes();
    assert_eq!(bytes, vec![5, 8, 0xAC, 2, 16, 1]);
    push_framed(&mut bytes, &[10]);
    push_framed(&mut bytes, &[20]);
    let mut reader = open(ended_input(bytes));
    assert_eq!(reader.header(), header);
    assert_eq!(reader.header_size(), FrameSize { protobuf_bytes: 5, delimiter_bytes: 1 });
    match reader.next_record(&decode_byte) {
        Step::Ready(Some(Ok(record))) => {
            assert_eq!(record.event.timestamp, 10);
            assert_eq!(record.size.framed_bytes(), 2);
        }
        other => panic!("expected a record, got {:?}", other),
    }
    assert_eq!(
        reader.next(&decode_byte),
        Step::Ready(Some(Ok(Event { timestamp: 20, peer_observer_event: None })))
    );
    assert_eq!(reader.next(&decode_byte), Step::Ready(None));
}

#[test]
fn reader_takes_in_what_is_read_later() {
    let mut bytes = ArchiveHeader { created: 1, low_data: None }.to_bytes();
    assert_eq!(bytes, vec![2, 8, 1]);
    let last = bytes.pop().unwrap();
    let mut input = Input::new();
    input.feed(ReadEvent::Data(bytes));
    let mut input = match ArchiveReader::new(input) {
        Opening::NeedInput(input) => input,
        other => panic!("expected to need input, got {:?}", other),
    };
    input.feed(ReadEvent::Data(vec![last]));
    let mut reader = open(input);
    assert_eq!(reader.next(&decode_byte), Step::NeedInput);
    reader.feed(ReadEvent::Data(vec![1, 9]));
    reader.feed(ReadEvent::Data(Vec::new()));
    assert_eq!(
        reader.next(&decode_byte),
        Step::Ready(Some(Ok(Event { timestamp: 9, peer_observer_event: None })))
    );
    assert_eq!(reader.next(&decode_byte), Step::Ready(None));
}

#[test]
fn archive_without_header_does_not_open() {
    let error = open_error(ended_input(Vec::new()));
    assert_eq!(error, ReadError::MissingHeader);
    assert_eq!(error.to_text(), "missing header");
}

#[test]
fn header_that_does_not_decode_does_not_open() {
    // The field number of the key is zero.
    let error = open_error(ended_input(vec![1, 0]));
    assert_eq!(error.to_text(), "failed to decode Protobuf message: invalid tag value: 0");
}

#[test]
fn header_is_read_back() {
    for header in [
        ArchiveHeader { created: 0, low_data: None },
        ArchiveHeader { created: u64::MAX, low_data: Some(false) },
        ArchiveHeader { created: 1_700_000_000_000, low_data: Some(true) },
    ] {
        let bytes = header.to_bytes();
        assert_eq!(bytes[0] as usize, bytes.len() - 1);
        assert_eq!(ArchiveHeader::decode(&bytes[1..]), Ok(header));
    }
}

#[test]
fn header_fields_take_the_value_read_last() {
    assert_eq!(
        ArchiveHeader::decode(&[8, 1, 16, 1, 8, 2, 16, 0]),
        Ok(ArchiveHeader { created: 2, low_data: Some(false) })
    );
    // Any number but zero stands for true.
    assert_eq!(
        ArchiveHeader::decode(&[16, 5]),
        Ok(ArchiveHeader { created: 0, low_data: Some(true) })
    );
}

#[test]
fn unknown_header_fields_are_passed_over() {
    let mut payload = vec![
        24, 0xff, 0x01, // field 3, a varint
        33, 1, 2, 3, 4, 5, 6, 7, 8, // field 4, eight bytes
        42, 3, 9, 9, 9, // field 5, with its length
        51, 56, 1, 52, // field 6, a group with a varint in it
        61, 1, 2, 3, 4, // field 7, four bytes
    ];
    payload.extend_from_slice(&[8, 6]);
    assert_eq!(
        ArchiveHeader::decode(&payload),
        Ok(ArchiveHeader { created: 6, low_data: None })
    );
}

#[test]
fn groups_are_passed_over_up_to_the_nesting_limit() {
    // Field 3 is a group with `depth` groups inside each other.
    let nested = |depth: usize| {
        let mut payload = vec![27; depth];
        payload.extend(vec![28; depth]);
        payload.extend_from_slice(&[8, 6]);
        ArchiveHeader::decode(&payload)
    };
    assert_eq!(nested(1), Ok(ArchiveHeader { created: 6, low_data: None }));
    assert_eq!(nested(100), Ok(ArchiveHeader { created: 6, low_data: None }));
    assert_eq!(
        nested(101).unwrap_err(),
        "failed to decode Protobuf message: recursion limit reached"
    );
    // A group that ends with the key of another.
    assert_eq!(
        ArchiveHeader::decode(&[27, 35, 28]).unwrap_err(),
        "failed to decode Protobuf message: unexpected end group tag"
    );
}

#[test]
fn header_errors_say_what_is_wrong() {
    let text = |payload: &[u8]| ArchiveHeader::decode(payload).unwrap_err();
    let head = "failed to decode Protobuf message: ";
    assert_eq!(text(&[0x80]), format!("{head}invalid varint"));
    assert_eq!(
        text(&[0x80, 0x80, 0x80, 0x80, 0x10]),
        format!("{head}invalid key value: 4294967296")
    );
    assert_eq!(text(&[15]), format!("{head}invalid wire type value: 7"));
    assert_eq!(text(&[0]), format!("{head}invalid tag value: 0"));
    assert_eq!(
        text(&[10, 0]),
        format!("{head}ArchiveHeader.created: invalid wire type: LengthDelimited (expected Varint)")
    );
    assert_eq!(text(&[8]), format!("{head}ArchiveHeader.created: invalid varint"));
    assert_eq!(text(&[16, 0x80]), format!("{head}ArchiveHeader.low_data: invalid varint"));
    assert_eq!(
        text(&[21, 0, 0, 0, 0]),
        format!("{head}ArchiveHeader.low_data: invalid wire type: ThirtyTwoBit (expected Varint)")
    );
    assert_eq!(text(&[24]), format!("{head}invalid varint"));
    assert_eq!(text(&[25, 1, 2]), format!("{head}buffer underflow"));
    assert_eq!(text(&[26, 4, 1]), format!("{head}buffer underflow"));
    assert_eq!(text(&[29, 1]), format!("{head}buffer underflow"));
    assert_eq!(text(&[28]), format!("{head}unexpected end group tag"));
    assert_eq!(text(&[27, 8]), format!("{head}invalid varint"));
    assert_eq!(text(&[27, 36]), format!("{head}unexpected end group tag"));
}

#[test]
fn header_is_shown() {
    assert_eq!(
        ArchiveHeader { created: 12, low_data: Some(true) }.to_text(),
        "ArchiveHeader(created=12, low_data=true)"
    );
    assert_eq!(
        ArchiveHeader { created: 0, low_data: Some(false) }.to_text(),
        "ArchiveHeader(created=0, low_data=false)"
    );
    assert_eq!(
        ArchiveHeader { created: 1, low_data: None }.to_text(),
        "ArchiveHeader(created=1, low_data=unknown)"
    );
}

#[test]
fn new_header_is_created_now() {
    let before = current_timestamp();
    let header = ArchiveHeader::new(true);
    let after = current_timestamp();
    // Behind the beginning of 2024, unless the clock is not set.
    assert!(before > 1_704_067_200_000);
    assert!(before <= header.created && header.created <= after);
    assert_eq!(header.low_data, Some(true));
    assert_eq!(
        ArchiveHeader::created_at(7, false),
        ArchiveHeader { created: 7, low_data: Some(false) }
    );
}

#[test]
fn clock_before_the_epoch_gives_zero() {
    assert_eq!(timestamp_of(Some(1_704_067_200_000)), 1_704_067_200_000);
    assert_eq!(timestamp_of(Some(u64::MAX)), u64::MAX);
    assert_eq!(timestamp_of(None), 0);
}

#[test]
fn framing_puts_the_length_in_front() {
    let mut out = vec![9];
    push_framed(&mut out, &[7; 300]);
    assert_eq!(&out[..3], &[9, 0xAC, 0x02]);
    assert_eq!(out.len(), 303);
}

#[test]
fn ten_bytes_are_enough_to_see_a_bad_length_prefix() {
    let mut input = Input::new();
    input.feed(ReadEvent::Data(vec![0x80; 9]));
    assert_eq!(read_length_delimiter(&mut input), Step::NeedInput);
    input.feed(ReadEvent::Data(vec![0x80]));
    assert!(matches!(
        read_length_delimiter(&mut input),
        Step::Ready(Err(ReadError::Delimiter(_)))
    ));
}

#[test]
fn sizes_add_up_to_the_archive() {
    let mut bytes = ArchiveHeader { created: 300, low_data: None }.to_bytes();
    push_framed(&mut bytes, &[10]);
    bytes.extend_from_slice(&[0x81, 0x00, 20]);
    let length = bytes.len();
    let mut reader = open(ended_input(bytes));
    let mut sum = reader.header_size().framed_bytes();
    while let Step::Ready(Some(Ok(record))) = reader.next_record(&decode_byte) {
        sum += record.size.framed_bytes();
    }
    assert_eq!(sum, length);
}

#[test]
fn message_cut_anywhere_is_an_unexpected_eof() {
    let mut bytes = Vec::new();
    push_framed(&mut bytes, &[7; 200]);
    for k in 1..bytes.len() {
        let mut input = ended_input(bytes[..k].to_vec());
        match read_message(&mut input, &decode_byte) {
            Step::Ready(Err(error)) => assert_eq!(error.kind(), ErrorKind::UnexpectedEof),
            other => panic!("expected an error, got {:?}", other),
        }
    }
}

#[test]
fn events_are_records_without_their_size() {
    let mut bytes = ArchiveHeader { created: 1, low_data: None }.to_bytes();
    bytes.extend_from_slice(&[1, 10, 2, 1, 2, 1, 20, 0x80]);
    let mut events = open(ended_input(bytes.clone()));
    let mut records = open(ended_input(bytes));
    for _ in 0..6 {
        let record = match records.next_record(&decode_byte) {
            Step::NeedInput => Step::NeedInput,
            Step::Ready(None) => Step::Ready(None),
            Step::Ready(Some(result)) => Step::Ready(Some(result.map(|record| record.event))),
        };
        assert_eq!(events.next(&decode_byte), record);
    }
}
