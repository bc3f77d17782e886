use peer_archive::archive::input::{ErrorKind, IoFault};
use peer_archive::event::{Ebpf, EbpfEvent, Event, MessageEvent, Metadata, PeerObserverEvent, Rpc};
use peer_archive::replayer::csv::csv_lines;
use peer_archive::replayer::diagram::{html_page, sequence_diagram};
use peer_archive::replayer::file::{
    build_archive_bytes, is_compressed, parse_decompressed, read_archive, Archive, ArchiveHeader,
    ReadArchiveError,
};
use peer_archive::replayer::filter::{filter_archive, split_types, Filter};
use peer_archive::replayer::listing::{header_text, is_listable, print_events};
use peer_archive::replayer::options::{Args, ArgsError, Mode};
use peer_archive::replayer::peers::{collect_peers, print_peers, sort_peers};
use peer_archive::replayer::report::{
    heading_text, read_error_text, report, write_error_text, wrote_text, Output,
};
use prost::bytes::{Buf, BufMut};
use prost::encoding::{self, DecodeContext, WireType};
use prost::{DecodeError, Message};
use std::io::Write;

/// An event that is a message, in a flat encoding.
#[derive(Clone, Debug, Default, PartialEq)]
struct WireEvent {
    timestamp: u64,
    peer_id: u64,
    addr: String,
    command: String,
    inbound: bool,
    size: u64,
    text: String,
}

impl Message for WireEvent {
    fn encode_raw(&self, buf: &mut impl BufMut) {
        encoding::uint64::encode(1, &self.timestamp, buf);
        encoding::uint64::encode(2, &self.peer_id, buf);
        encoding::string::encode(3, &self.addr, buf);
        encoding::string::encode(4, &self.command, buf);
        encoding::bool::encode(5, &self.inbound, buf);
        encoding::uint64::encode(6, &self.size, buf);
        encoding::string::encode(7, &self.text, buf);
    }

    fn merge_field(
        &mut self,
        tag: u32,
        wire_type: WireType,
        buf: &mut impl Buf,
        ctx: DecodeContext,
    ) -> Result<(), DecodeError> {
        match tag {
            1 => encoding::uint64::merge(wire_type, &mut self.timestamp, buf, ctx),
            2 => encoding::uint64::merge(wire_type, &mut self.peer_id, buf, ctx),
            3 => encoding::string::merge(wire_type, &mut self.addr, buf, ctx),
            4 => encoding::string::merge(wire_type, &mut self.command, buf, ctx),
            5 => encoding::bool::merge(wire_type, &mut self.inbound, buf, ctx),
            6 => encoding::uint64::merge(wire_type, &mut self.size, buf, ctx),
            7 => encoding::string::merge(wire_type, &mut self.text, buf, ctx),
            _ => encoding::skip_field(wire_type, tag, buf, ctx),
        }
    }

    fn encoded_len(&self) -> usize {
        encoding::uint64::encoded_len(1, &self.timestamp)
            + encoding::uint64::encoded_len(2, &self.peer_id)
            + encoding::string::encoded_len(3, &self.addr)
            + encoding::string::encoded_len(4, &self.command)
            + encoding::bool::encoded_len(5, &self.inbound)
            + encoding::uint64::encoded_len(6, &self.size)
            + encoding::string::encoded_len(7, &self.text)
    }

    fn clear(&mut self) {
        *self = WireEvent::default();
    }
}

fn decode(payload: &[u8]) -> Result<Event, String> {
    match WireEvent::decode(payload) {
        Ok(wire) => Ok(Event {
            timestamp: wire.timestamp,
            peer_observer_event: Some(PeerObserverEvent::EbpfExtractor(Ebpf {
                ebpf_event: Some(EbpfEvent::Message(MessageEvent {
                    meta: Metadata {
                        peer_id: wire.peer_id,
                        addr: wire.addr,
                        conn_type: 1,
                        command: wire.command,
                        inbound: wire.inbound,
                        size: wire.size,
                    },
                    text: wire.text,
                })),
            })),
        }),
        Err(error) => Err(error.to_string()),
    }
}

fn make_msg_event_ts(
    ts: u64,
    peer_id: u64,
    command: &str,
    inbound: bool,
    size: u64,
    text: &str,
) -> WireEvent {
    WireEvent {
        timestamp: ts,
        peer_id,
        addr: format!("127.0.0.{}:8333", peer_id),
        command: command.to_string(),
        inbound,
        size,
        text: text.to_string(),
    }
}

fn make_msg_event(
    peer_id: u64,
    command: &str,
    inbound: bool,
    size: u64,
    text: &str,
) -> WireEvent {
    make_msg_event_ts(1000 + peer_id * 100, peer_id, command, inbound, size, text)
}

fn make_test_event(ts: u64) -> WireEvent {
    make_msg_event_ts(ts, 1, "ping", true, 8, "Ping(42)")
}

fn bytes_of(version: u8, git_hash: [u8; 4], events: &[WireEvent]) -> Vec<u8> {
    let payloads: Vec<Vec<u8>> = events.iter().map(|event| event.encode_to_vec()).collect();
    build_archive_bytes(version, git_hash, &payloads)
}

fn read_bin(bytes: &[u8]) -> Result<Archive, ReadArchiveError> {
    read_archive(bytes, Some("bin".as_bytes()), &decode)
}

fn archive(events: &[WireEvent]) -> Vec<u8> {
    bytes_of(1, [0xde, 0xad, 0xbe, 0xef], events)
}

fn compressed(bytes: &[u8]) -> Vec<u8> {
    let mut encoder = zstd::Encoder::new(Vec::new(), 3).unwrap();
    encoder.write_all(bytes).unwrap();
    encoder.finish().unwrap()
}

fn no_filter() -> Filter {
    Filter { from: None, to: None, msg_types: Vec::new() }
}

fn plain_args(files: &[&str]) -> Args {
    Args {
        files: files.iter().map(|file| file.to_string()).collect(),
        list_peers: false,
        sequence_diagram: false,
        peers: Vec::new(),
        html: None,
        csv: None,
        filter: no_filter(),
    }
}

/// What the program would print and write.
#[derive(Debug, Default)]
struct Ran {
    success: bool,
    stdout: String,
    stderr: String,
    file: Option<(String, String)>,
}

/// Goes through the files with the given contents, those without any being missing.
/// Nothing can be written below `/nonexistent`.
fn replayer(args: &Args, contents: &[Option<Vec<u8>>]) -> Ran {
    let mut ran = Ran::default();
    let mode = match args.mode() {
        Ok(mode) => mode,
        Err(error) => {
            ran.stderr = error.to_text().to_string();
            return ran;
        }
    };
    ran.success = true;
    for (path, content) in args.files.iter().zip(contents) {
        if let Some(line) = heading_text(args, path) {
            ran.stdout += &format!("{line}\n");
        }
        let extension = path.rsplit_once('.').map(|(_, extension)| extension.as_bytes());
        let read = match content {
            Some(bytes) => read_archive(bytes, extension, &decode).map_err(|e| e.to_text()),
            None => Err("No such file or directory (os error 2)".to_string()),
        };
        let archive = match read {
            Ok(archive) => filter_archive(archive, &args.filter),
            Err(error) => {
                ran.stderr += &format!("{}\n", read_error_text(path, &error));
                continue;
            }
        };
        assert!(is_listable(&archive));
        match report(args, mode, &archive) {
            Output::Lines(lines) => {
                for line in lines {
                    ran.stdout += &format!("{line}\n");
                }
            }
            Output::Remark(text) => ran.stderr += &format!("{text}\n"),
            Output::File { path, text } => {
                if path.starts_with("/nonexistent") {
                    ran.success = false;
                    let error = "No such file or directory (os error 2)";
                    ran.stderr += &format!("{}\n", write_error_text(&path, error));
                } else {
                    ran.stderr += &format!("{}\n", wrote_text(&path));
                    ran.file = Some((path, text));
                }
            }
        }
    }
    ran
}

fn run_one(args: &Args, events: &[WireEvent]) -> Ran {
    replayer(args, &[Some(archive(events))])
}

// --- reading ---

#[test]
fn test_read_archive_valid_no_events() {
    let buf = bytes_of(1, [0xaa, 0xbb, 0xcc, 0xdd], &[]);
    let archive = read_bin(&buf).unwrap();
    assert_eq!(archive.header.version, 1);
    assert_eq!(archive.header.git_hash, [0xaa, 0xbb, 0xcc, 0xdd]);
    assert!(archive.events.is_empty());
}

#[test]
fn test_read_archive_valid_with_events() {
    let events = vec![make_test_event(1000), make_test_event(2000)];
    let buf = bytes_of(1, [0x01, 0x02, 0x03, 0x04], &events);
    let archive = read_bin(&buf).unwrap();
    assert_eq!(archive.events.len(), 2);
    assert_eq!(archive.events[0].timestamp, 1000);
    assert_eq!(archive.events[1].timestamp, 2000);
}

#[test]
fn test_read_archive_too_small() {
    let err = read_bin(&[0u8; 10]).err().unwrap();
    assert!(err.to_text().contains("file too small"));
    assert_eq!(err.to_text(), "file too small: 10 bytes");
    assert_eq!(err.kind(), ErrorKind::Other);
}

#[test]
fn test_read_archive_bad_magic() {
    let mut buf = vec![0u8; 16];
    buf[0..2].copy_from_slice(b"XX");
    let err = read_bin(&buf).err().unwrap();
    assert!(err.to_text().contains("invalid magic"));
    assert_eq!(err.to_text(), "invalid magic: 5858 (expected \"PA\")");
}

#[test]
fn test_read_archive_truncated_event() {
    let mut buf = bytes_of(1, [0; 4], &[]);
    // Append a varint length that promises more bytes than available
    buf.push(0x80); // varint: incomplete
    let err = read_bin(&buf).err().unwrap();
    assert!(err.to_text().contains("bad length"));
    assert_eq!(
        err.to_text(),
        "bad length at byte 0: failed to decode Protobuf message: invalid varint"
    );
}

#[test]
fn test_read_archive_corrupt_event() {
    let mut buf = bytes_of(1, [0; 4], &[]);
    // Length delimiter says 5 bytes, then garbage
    buf.push(5);
    buf.extend_from_slice(&[0xff, 0xff, 0xff, 0xff, 0xff]);
    let err = read_bin(&buf).err().unwrap();
    assert!(err.to_text().contains("decode error"));
}

#[test]
fn test_read_archive_zst_extension() {
    let events = vec![make_test_event(5000)];
    let raw = bytes_of(1, [0; 4], &events);
    let archive = read_archive(&compressed(&raw), Some("zst".as_bytes()), &decode).unwrap();
    assert_eq!(archive.events.len(), 1);
    assert_eq!(archive.events[0].timestamp, 5000);
}

#[test]
fn test_read_archive_large_event() {
    let event = WireEvent {
        timestamp: 1000,
        peer_id: 1,
        addr: "127.0.0.1:8333".to_string(),
        command: "version".to_string(),
        inbound: true,
        size: 200,
        text: format!("Version(70016, 1033, {}, 800000)", "a]".repeat(100)),
    };
    let buf = bytes_of(1, [0; 4], &[event]);
    let archive = read_bin(&buf).unwrap();
    assert_eq!(archive.events.len(), 1);
    assert_eq!(archive.events[0].timestamp, 1000);
}

#[test]
fn length_beyond_the_data_is_a_bad_length() {
    let mut buf = bytes_of(1, [0; 4], &[make_test_event(1)]);
    let at = buf.len() - 16;
    buf.extend_from_slice(&[9, 1, 2]);
    let err = read_bin(&buf).err().unwrap();
    assert_eq!(err, ReadArchiveError::Overrun { at, promised: 9, available: 2 });
    assert_eq!(
        err.to_text(),
        format!("bad length at byte {at}: 9 bytes promised, 2 available")
    );
}

#[test]
fn file_cut_inside_an_event_is_refused() {
    let whole = archive(&[make_test_event(1), make_test_event(2)]);
    let first = archive(&[make_test_event(1)]).len();
    assert_eq!(read_bin(&whole[..first]).unwrap().events.len(), 1);
    for k in first + 1..whole.len() {
        match read_bin(&whole[..k]) {
            Err(ReadArchiveError::Overrun { at, .. }) => assert_eq!(at, first - 16),
            other => panic!("expected an overrun, got {:?}", other),
        }
    }
}

#[test]
fn decode_error_names_its_place() {
    let mut buf = bytes_of(1, [0; 4], &[]);
    buf.extend_from_slice(&[1, 0xff]);
    assert_eq!(
        read_bin(&buf).err().unwrap().to_text(),
        "decode error at byte 0: failed to decode Protobuf message: invalid varint"
    );
}

#[test]
fn built_bytes_are_read_back() {
    let buf = bytes_of(7, [1, 2, 3, 4], &[make_test_event(3)]);
    assert_eq!(&buf[..16], &[0x50, 0x41, 7, 1, 2, 3, 4, 0, 0, 0, 0, 0, 0, 0, 0, 0]);
    let archive = read_bin(&buf).unwrap();
    assert_eq!(archive.header, ArchiveHeader { version: 7, git_hash: [1, 2, 3, 4] });
    assert_eq!(archive.events, vec![decode(&make_test_event(3).encode_to_vec()).unwrap()]);
}

#[test]
fn garbage_does_not_decompress() {
    let err = read_archive(&[1, 2, 3, 4, 5], Some("zst".as_bytes()), &decode).err().unwrap();
    assert!(matches!(err, ReadArchiveError::Decompress(_)));
    assert_eq!(err.kind(), ErrorKind::Other);
    assert!(!err.to_text().is_empty());
    // A frame that is cut off.
    let mut cut = compressed(&archive(&[make_test_event(1)]));
    cut.pop();
    let err = read_archive(&cut, Some("zst".as_bytes()), &decode).err().unwrap();
    assert!(matches!(err, ReadArchiveError::Decompress(_)));
    assert_eq!(err.kind(), ErrorKind::UnexpectedEof);
}

#[test]
fn failed_decompression_is_handed_on() {
    let fault = IoFault { kind: ErrorKind::TimedOut, message: "late".to_string() };
    match parse_decompressed(Err(fault), &decode) {
        Err(error) => {
            assert_eq!(error.kind(), ErrorKind::TimedOut);
            assert_eq!(error.to_text(), "late");
        }
        other => panic!("expected an error, got {:?}", other),
    }
    let content = archive(&[make_test_event(1)]);
    assert_eq!(parse_decompressed(Ok(content.clone()), &decode), read_bin(&content));
}

#[test]
fn several_frames_are_read_as_one_content() {
    let content = archive(&[make_test_event(1), make_test_event(2)]);
    let mut frames = compressed(&content[..20]);
    frames.extend(compressed(&content[20..]));
    assert_eq!(
        read_archive(&frames, Some("zst".as_bytes()), &decode),
        read_bin(&content)
    );
}

#[test]
fn compressed_and_plain_files_read_alike() {
    let mut bad_magic = archive(&[]);
    bad_magic[0] = 0;
    let mut cut = archive(&[make_test_event(5000)]);
    cut.pop();
    for content in [
        bytes_of(1, [0; 4], &[make_test_event(5000)]),
        archive(&[]),
        bad_magic,
        cut,
        vec![1, 2, 3],
    ] {
        assert_eq!(
            read_archive(&compressed(&content), Some("zst".as_bytes()), &decode),
            read_bin(&content)
        );
    }
}

#[test]
fn only_zst_files_are_compressed() {
    assert!(is_compressed(Some("zst".as_bytes())));
    assert!(!is_compressed(Some("ZST".as_bytes())));
    assert!(!is_compressed(Some("zstd".as_bytes())));
    assert!(!is_compressed(Some("".as_bytes())));
    assert!(!is_compressed(None));
    // A compressed file under another name is no archive.
    let raw = compressed(&archive(&[]));
    assert!(matches!(
        read_archive(&raw, None, &decode),
        Err(ReadArchiveError::BadMagic(0x28, 0xb5)) | Err(ReadArchiveError::TooSmall(_))
    ));
}

// --- print_events ---

#[test]
fn test_print_events_header() {
    let ran = run_one(&plain_args(&["events-header.bin"]), &[]);
    assert!(ran.stdout.contains("header: version=1 git=deadbeef"));
    assert!(ran.stdout.contains("total: 0 events"));
    assert_eq!(ran.stdout, "header: version=1 git=deadbeef\ntotal: 0 events\n");
}

#[test]
fn test_print_events_with_messages() {
    let events = vec![
        make_msg_event(1, "ping", true, 8, "Ping(42)"),
        make_msg_event(2, "pong", false, 8, "Pong(42)"),
    ];
    let ran = run_one(&plain_args(&["events-msgs.bin"]), &events);
    assert!(ran.stdout.contains("[1] ts=1100 ebpf:"));
    assert!(ran.stdout.contains("[2] ts=1200 ebpf:"));
    assert!(ran.stdout.contains("total: 2 events"));
}

#[test]
fn test_print_events_multiple_files() {
    let bytes = archive(&[make_msg_event(1, "ping", true, 8, "Ping(1)")]);
    let args = plain_args(&["multi-1.bin", "multi-2.bin"]);
    let ran = replayer(&args, &[Some(bytes.clone()), Some(bytes)]);
    assert!(ran.stdout.contains("=== "));
    assert!(ran.stdout.starts_with("=== multi-1.bin ===\nheader: "));
}

#[test]
fn events_without_content_cannot_be_listed() {
    let unknown = Event { timestamp: 4, peer_observer_event: None };
    let empty = Event {
        timestamp: 5,
        peer_observer_event: Some(PeerObserverEvent::RpcExtractor(Rpc { rpc_event: None })),
    };
    let header = ArchiveHeader { version: 2, git_hash: [0, 1, 0x0f, 0xf0] };
    let listable = Archive { header, events: vec![unknown] };
    assert!(is_listable(&listable));
    assert_eq!(
        header_text(&header),
        "header: version=2 git=00010ff0"
    );
    assert_eq!(
        print_events(&listable),
        vec!["header: version=2 git=00010ff0", "[1] ts=4 <unknown>", "total: 1 events"]
    );
    assert!(!is_listable(&Archive { header, events: vec![empty] }));
}

// --- sequence diagram (mermaid) ---

fn diagram_args() -> Args {
    Args { sequence_diagram: true, ..plain_args(&["seq.bin"]) }
}

#[test]
fn test_sequence_diagram_basic() {
    let events = vec![
        make_msg_event_ts(1000, 5, "ping", true, 8, "Ping(1)"),
        make_msg_event_ts(1050, 5, "pong", false, 8, "Pong(1)"),
    ];
    let ran = run_one(&diagram_args(), &events);
    assert!(ran.stdout.contains("sequenceDiagram"));
    assert!(ran.stdout.contains("participant Node as Our Node"));
    assert!(ran.stdout.contains("participant P5 as Peer 5"));
    assert!(ran.stdout.contains("P5->>Node:"));
    assert!(ran.stdout.contains("Node->>P5:"));
    assert_eq!(
        ran.stdout,
        "sequenceDiagram\n    participant Node as Our Node\n    participant P5 as Peer 5\n    \
         P5->>Node: ping (8B)\n    Node->>P5: pong (8B)\n"
    );
}

#[test]
fn test_sequence_diagram_peer_filter() {
    let events = vec![
        make_msg_event(5, "ping", true, 8, "Ping(1)"),
        make_msg_event(10, "ping", true, 8, "Ping(2)"),
    ];
    let ran = run_one(&Args { peers: vec![5], ..diagram_args() }, &events);
    assert!(ran.stdout.contains("P5"));
    assert!(!ran.stdout.contains("P10"));
}

#[test]
fn test_sequence_diagram_multiple_peers() {
    let events = vec![
        make_msg_event(5, "ping", true, 8, "Ping(1)"),
        make_msg_event(10, "pong", false, 8, "Pong(2)"),
    ];
    let ran = run_one(&Args { peers: vec![5, 10], ..diagram_args() }, &events);
    assert!(ran.stdout.contains("P5"));
    assert!(ran.stdout.contains("P10"));
}

#[test]
fn test_sequence_diagram_no_messages() {
    let ran = run_one(&diagram_args(), &[]);
    assert!(ran.stderr.contains("no P2P messages found"));
}

#[test]
fn test_sequence_diagram_peer_filter_no_match() {
    let events = vec![make_msg_event(5, "ping", true, 8, "Ping(1)")];
    let ran = run_one(&Args { peers: vec![999], ..diagram_args() }, &events);
    assert!(ran.stderr.contains("no P2P messages found"));
}

#[test]
fn test_sequence_diagram_indentation() {
    let events = vec![make_msg_event(5, "ping", true, 8, "Ping(1)")];
    let ran = run_one(&diagram_args(), &events);
    for line in ran.stdout.lines().skip(1) {
        if !line.is_empty() {
            assert!(line.starts_with("    "), "line not indented: {:?}", line);
        }
    }
}

#[test]
fn peers_are_declared_once_in_the_order_of_their_messages() {
    let events = vec![
        make_msg_event(9, "a", true, 0, ""),
        make_msg_event(2, "b", true, 0, ""),
        make_msg_event(9, "c", true, 0, ""),
    ];
    let archive = read_bin(&archive(&events)).unwrap();
    assert_eq!(
        sequence_diagram(&archive, &Vec::new()).unwrap(),
        vec![
            "sequenceDiagram",
            "    participant Node as Our Node",
            "    participant P9 as Peer 9",
            "    participant P2 as Peer 2",
            "    P9->>Node: a",
            "    P2->>Node: b",
            "    P9->>Node: c",
        ]
    );
}

// --- CLI edge cases ---

#[test]
fn test_no_files_error() {
    let ran = replayer(&plain_args(&[]), &[]);
    assert!(!ran.success);
}

#[test]
fn test_bad_file_error() {
    let ran = replayer(&plain_args(&["replayer-integ-nonexistent.bin"]), &[None]);
    assert!(ran.stderr.contains("error reading"));
    assert_eq!(
        ran.stderr,
        "error reading replayer-integ-nonexistent.bin: No such file or directory (os error 2)\n"
    );
}

#[test]
fn test_peer_requires_sequence_diagram() {
    let args = Args { peers: vec![5], ..plain_args(&["/dev/null"]) };
    assert!(!replayer(&args, &[Some(Vec::new())]).success);
    assert_eq!(args.mode(), Err(ArgsError::PeerWithoutDiagram));
}

#[test]
fn test_zst_archive() {
    let bytes = archive(&[make_msg_event(1, "ping", true, 8, "Ping(1)")]);
    let ran = replayer(&plain_args(&["compressed.zst"]), &[Some(compressed(&bytes))]);
    assert!(ran.stdout.contains("total: 1 events"));
}

#[test]
fn test_sequence_diagram_rejects_multiple_files() {
    let bytes = archive(&[make_msg_event(5, "ping", true, 8, "Ping(1)")]);
    let args = Args {
        sequence_diagram: true,
        ..plain_args(&["seq-multi-1.bin", "seq-multi-2.bin"])
    };
    let ran = replayer(&args, &[Some(bytes.clone()), Some(bytes)]);
    assert!(!ran.success);
    assert!(ran.stderr.contains("single archive file"));
}

#[test]
fn options_ask_for_one_mode() {
    assert_eq!(plain_args(&["a", "b"]).mode(), Ok(Mode::Events));
    let peers = Args { list_peers: true, ..plain_args(&["a", "b"]) };
    assert_eq!(peers.mode(), Ok(Mode::Peers));
    assert_eq!(diagram_args().mode(), Ok(Mode::Diagram));
    let csv = Args { csv: Some("x.csv".to_string()), ..plain_args(&["a"]) };
    assert_eq!(csv.mode(), Ok(Mode::Csv));
    assert_eq!(plain_args(&[]).mode(), Err(ArgsError::NoFiles));
    let html = Args { html: Some("x.html".to_string()), ..plain_args(&["a"]) };
    assert_eq!(html.mode(), Err(ArgsError::HtmlWithoutDiagram));
}

#[test]
fn every_options_error_has_its_text() {
    assert_eq!(ArgsError::NoFiles.to_text(), "no archive file given");
    assert_eq!(ArgsError::PeerWithoutDiagram.to_text(), "--peer needs --sequence-diagram");
    assert_eq!(ArgsError::HtmlWithoutDiagram.to_text(), "--html needs --sequence-diagram");
    assert_eq!(
        ArgsError::ListPeersWithDiagram.to_text(),
        "--list-peers cannot be used with --sequence-diagram"
    );
    assert_eq!(
        ArgsError::CsvWithDiagram.to_text(),
        "--csv cannot be used with --sequence-diagram"
    );
    assert_eq!(ArgsError::CsvWithListPeers.to_text(), "--csv cannot be used with --list-peers");
    assert_eq!(
        ArgsError::SeveralFiles.to_text(),
        "--sequence-diagram, --html and --csv only work with a single archive file"
    );
}

// --- time filter ---

fn three_pings() -> Vec<WireEvent> {
    vec![
        make_msg_event_ts(1000, 1, "ping", true, 8, "Ping(1)"),
        make_msg_event_ts(2000, 1, "ping", true, 8, "Ping(2)"),
        make_msg_event_ts(3000, 1, "ping", true, 8, "Ping(3)"),
    ]
}

#[test]
fn test_from_filter() {
    let filter = Filter { from: Some(2000), ..no_filter() };
    let ran = run_one(&Args { filter, ..plain_args(&["from-filter.bin"]) }, &three_pings());
    assert!(ran.stdout.contains("total: 2 events"));
}

#[test]
fn test_to_filter() {
    let filter = Filter { to: Some(2000), ..no_filter() };
    let ran = run_one(&Args { filter, ..plain_args(&["to-filter.bin"]) }, &three_pings());
    assert!(ran.stdout.contains("total: 2 events"));
}

#[test]
fn test_from_to_filter() {
    let filter = Filter { from: Some(1500), to: Some(2500), ..no_filter() };
    let ran = run_one(&Args { filter, ..plain_args(&["from-to-filter.bin"]) }, &three_pings());
    assert!(ran.stdout.contains("total: 1 events"));
}

#[test]
fn test_from_to_filter_with_sequence_diagram() {
    let events = vec![
        make_msg_event_ts(1000, 5, "ping", true, 8, "Ping(1)"),
        make_msg_event_ts(2000, 5, "pong", false, 8, "Pong(1)"),
        make_msg_event_ts(3000, 10, "ping", true, 8, "Ping(2)"),
    ];
    let filter = Filter { to: Some(2000), ..no_filter() };
    let ran = run_one(&Args { filter, ..diagram_args() }, &events);
    assert!(ran.stdout.contains("P5"));
    assert!(!ran.stdout.contains("P10"));
}

// --- msg-type filter ---

fn ping_pong_inv() -> Vec<WireEvent> {
    vec![
        make_msg_event(1, "ping", true, 8, "Ping(1)"),
        make_msg_event(2, "pong", false, 8, "Pong(1)"),
        make_msg_event(1, "inv", true, 100, ""),
    ]
}

fn types_filter(list: &str) -> Filter {
    Filter { msg_types: split_types(list), ..no_filter() }
}

#[test]
fn test_msg_type_filter() {
    let args = Args { filter: types_filter("ping"), ..plain_args(&["msg-type-filter.bin"]) };
    let ran = run_one(&args, &ping_pong_inv());
    assert!(ran.stdout.contains("total: 1 events"));
}

#[test]
fn test_msg_type_filter_comma_separated() {
    let args = Args { filter: types_filter("ping,pong"), ..plain_args(&["msg-type-comma.bin"]) };
    let ran = run_one(&args, &ping_pong_inv());
    assert!(ran.stdout.contains("total: 2 events"));
}

#[test]
fn test_msg_type_filter_with_sequence_diagram() {
    let events = vec![
        make_msg_event_ts(1000, 5, "ping", true, 8, "Ping(1)"),
        make_msg_event_ts(2000, 5, "pong", false, 8, "Pong(1)"),
        make_msg_event_ts(3000, 5, "inv", true, 100, ""),
    ];
    let ran = run_one(&Args { filter: types_filter("ping"), ..diagram_args() }, &events);
    assert!(ran.stdout.contains("ping"));
    assert!(!ran.stdout.contains("pong"));
    assert!(!ran.stdout.contains("inv"));
}

fn csv_args(path: &str) -> Args {
    Args { csv: Some(path.to_string()), ..plain_args(&["csv.bin"]) }
}

#[test]
fn test_msg_type_filter_with_csv() {
    let events = vec![
        make_msg_event_ts(1000, 1, "ping", true, 8, "Ping(1)"),
        make_msg_event_ts(2000, 1, "pong", false, 8, "Pong(1)"),
        make_msg_event_ts(3000, 1, "inv", true, 100, ""),
    ];
    let args = Args { filter: types_filter("ping,inv"), ..csv_args("msg-type.csv") };
    let ran = run_one(&args, &events);
    assert!(ran.success);
    let (_, csv) = ran.file.unwrap();
    let lines: Vec<&str> = csv.lines().collect();
    assert_eq!(lines.len(), 3); // header + 2 rows
    assert!(lines[1].contains("ping"));
    assert!(lines[2].contains("inv"));
}

#[test]
fn test_msg_type_filter_no_match() {
    let events = vec![make_msg_event(1, "ping", true, 8, "Ping(1)")];
    let args = Args { filter: types_filter("tx"), ..plain_args(&["msg-type-nomatch.bin"]) };
    let ran = run_one(&args, &events);
    assert!(ran.stdout.contains("total: 0 events"));
}

#[test]
fn type_filter_drops_what_is_no_message() {
    let other = Event {
        timestamp: 1,
        peer_observer_event: Some(PeerObserverEvent::EbpfExtractor(Ebpf {
            ebpf_event: Some(EbpfEvent::Other("ping".to_string())),
        })),
    };
    assert!(!types_filter("ping").lets_through(&other));
    assert!(no_filter().lets_through(&other));
}

#[test]
fn lists_of_types_are_split_at_commas() {
    assert_eq!(split_types("ping,pong"), vec!["ping", "pong"]);
    assert_eq!(split_types("tx"), vec!["tx"]);
    assert_eq!(split_types(""), vec![""]);
    assert_eq!(split_types(",a,"), vec!["", "a", ""]);
    assert_eq!(split_types("\u{e9},\u{fc}"), vec!["\u{e9}", "\u{fc}"]);
}

#[test]
fn filters_add_up_and_can_be_repeated() {
    let filter = Filter { from: Some(1100), to: Some(1100), msg_types: split_types("inv,ping") };
    let read = || read_bin(&archive(&ping_pong_inv())).unwrap();
    let once = filter_archive(read(), &filter);
    let times: Vec<u64> = once.events.iter().map(|event| event.timestamp).collect();
    assert_eq!(times, vec![1100, 1100]);
    let time = Filter { from: Some(1100), to: Some(1100), ..no_filter() };
    let both = filter_archive(filter_archive(read(), &time), &types_filter("inv,ping"));
    assert_eq!(both, once);
    let again = filter_archive(filter_archive(read(), &filter), &filter);
    assert_eq!(again, once);
    assert_eq!(filter_archive(read(), &no_filter()), read());
}

// --- list-peers ---

fn peers_args() -> Args {
    Args { list_peers: true, ..plain_args(&["list-peers.bin"]) }
}

#[test]
fn test_list_peers() {
    let events = vec![
        make_msg_event(5, "ping", true, 8, "Ping(1)"),
        make_msg_event(5, "pong", false, 8, "Pong(1)"),
        make_msg_event(10, "ping", true, 8, "Ping(2)"),
    ];
    let ran = run_one(&peers_args(), &events);
    assert!(ran.stdout.contains("Peer ID"));
    assert!(ran.stdout.contains("Address"));
    assert!(ran.stdout.contains("Messages"));
    assert!(ran.stdout.contains("5"));
    assert!(ran.stdout.contains("10"));
    assert!(ran.stdout.contains("127.0.0.5:8333"));
    assert!(ran.stdout.contains("127.0.0.10:8333"));
    assert_eq!(
        ran.stdout,
        format!("{:<10} {:<25} Messages\n", "Peer ID", "Address")
            + &format!("{:<10} {:<25} 2\n", 5, "127.0.0.5:8333")
            + &format!("{:<10} {:<25} 1\n", 10, "127.0.0.10:8333")
    );
}

#[test]
fn test_list_peers_empty() {
    let ran = run_one(&peers_args(), &[]);
    assert!(ran.stderr.contains("no peers found"));
}

#[test]
fn test_list_peers_conflicts_with_sequence_diagram() {
    let args = Args { list_peers: true, ..diagram_args() };
    assert!(!replayer(&args, &[Some(Vec::new())]).success);
    assert_eq!(args.mode(), Err(ArgsError::ListPeersWithDiagram));
}

#[test]
fn test_list_peers_message_count() {
    let events = vec![
        make_msg_event(5, "ping", true, 8, "Ping(1)"),
        make_msg_event(5, "pong", false, 8, "Pong(1)"),
        make_msg_event(5, "inv", true, 100, ""),
    ];
    let ran = run_one(&peers_args(), &events);
    // peer 5 has 3 messages
    let peer_line = ran.stdout.lines().find(|l| l.contains("127.0.0.5")).unwrap();
    assert!(peer_line.contains("3"));
}

#[test]
fn peers_are_ranked_and_all_messages_counted() {
    let mut events = Vec::new();
    for (peer_id, count) in [(3, 2), (1, 5), (8, 1), (2, 5), (7, 3)] {
        for _ in 0..count {
            events.push(make_msg_event(peer_id, "inv", true, 1, ""));
        }
    }
    let archive = read_bin(&archive(&events)).unwrap();
    let peers = collect_peers(&archive);
    assert_eq!(peers.len(), 5);
    assert_eq!(peers[&7].messages, 3);
    assert_eq!(peers[&7].addr, "127.0.0.7:8333");
    let rows = sort_peers(&peers);
    let counts: Vec<u64> = rows.iter().map(|row| row.1.messages).collect();
    assert_eq!(counts, vec![5, 5, 3, 2, 1]);
    assert_eq!(counts.iter().sum::<u64>(), events.len() as u64);
    assert_eq!(rows[2].0, 7);
    assert_eq!(print_peers(&archive).unwrap().len(), 6);
}

#[test]
fn address_of_a_peer_is_that_of_its_first_message() {
    let first = make_msg_event(4, "ping", true, 8, "");
    let second = WireEvent { addr: "[::1]:8333".to_string(), ..first.clone() };
    let archive = read_bin(&archive(&[second, first])).unwrap();
    assert_eq!(collect_peers(&archive)[&4].addr, "[::1]:8333");
}

#[test]
fn long_addresses_keep_the_columns_apart() {
    let addr = "a".repeat(30);
    let event = WireEvent { addr: addr.clone(), ..make_msg_event(12345678901, "x", true, 0, "") };
    let archive = read_bin(&archive(&[event])).unwrap();
    assert_eq!(print_peers(&archive).unwrap()[1], format!("12345678901 {addr} 1"));
}

// --- html output ---

fn html_args(path: &str) -> Args {
    Args { html: Some(path.to_string()), ..diagram_args() }
}

#[test]
fn test_html_output() {
    let events = vec![make_msg_event(5, "ping", true, 8, "Ping(1)")];
    let ran = run_one(&html_args("html-out.html"), &events);
    assert!(ran.success);
    assert!(ran.stderr.contains("wrote"));
    let (path, html) = ran.file.unwrap();
    assert_eq!(path, "html-out.html");
    assert!(html.contains("<!DOCTYPE html>"));
    assert!(html.contains("mermaid"));
    assert!(html.contains("sequenceDiagram"));
    assert!(html.contains("P5"));
}

#[test]
fn test_html_no_stdout() {
    let events = vec![make_msg_event(5, "ping", true, 8, "Ping(1)")];
    let ran = run_one(&html_args("html-no-stdout.html"), &events);
    assert!(ran.stdout.is_empty());
}

#[test]
fn test_html_bad_path() {
    let events = vec![make_msg_event(5, "ping", true, 8, "Ping(1)")];
    let ran = run_one(&html_args("/nonexistent/dir/out.html"), &events);
    assert!(!ran.success);
    assert!(ran.stderr.contains("error writing"));
}

#[test]
fn page_holds_the_lines_of_the_diagram() {
    let page = html_page(&vec!["one".to_string(), "two".to_string()]);
    assert!(page.starts_with("<!DOCTYPE html>\n"));
    assert!(page.contains("<pre class=\"mermaid\">\none\ntwo\n</pre>\n"));
    assert!(page.ends_with("</html>\n"));
}

#[test]
fn page_is_self_contained() {
    let page = html_page(&vec!["P1->>Node: <img src=x> & co".to_string()]);
    assert!(page.contains("P1->>Node: &lt;img src=x> &amp; co\n"));
    assert!(!page.contains("<img"));
    assert!(!page.contains("://"));
    assert!(!page.contains("<link"));
    assert!(!page.contains("<script "));
    assert!(!page.contains("import"));
}

// --- csv ---

#[test]
fn test_csv_messages() {
    let events = vec![
        make_msg_event_ts(1000, 5, "ping", true, 8, "Ping(1)"),
        make_msg_event_ts(2000, 10, "pong", false, 8, "Pong(1)"),
    ];
    let ran = run_one(&csv_args("csv-msgs.csv"), &events);
    assert!(ran.success);
    assert!(ran.stderr.contains("wrote"));
    assert_eq!(ran.stderr, "wrote csv-msgs.csv\n");
    let (_, csv) = ran.file.unwrap();
    let lines: Vec<&str> = csv.lines().collect();
    assert_eq!(lines[0], "timestamp,peer_id,addr,command,direction,size");
    assert_eq!(lines[1], "1000,5,127.0.0.5:8333,ping,in,8");
    assert_eq!(lines[2], "2000,10,127.0.0.10:8333,pong,out,8");
    assert_eq!(lines.len(), 3);
}

#[test]
fn test_csv_empty() {
    let ran = run_one(&csv_args("csv-empty.csv"), &[]);
    assert!(ran.success);
    let (_, csv) = ran.file.unwrap();
    let lines: Vec<&str> = csv.lines().collect();
    assert_eq!(lines.len(), 1); // header only
}

#[test]
fn test_csv_conflicts_with_sequence_diagram() {
    let args = Args { csv: Some("/dev/null".to_string()), ..diagram_args() };
    assert!(!replayer(&args, &[Some(Vec::new())]).success);
    assert_eq!(args.mode(), Err(ArgsError::CsvWithDiagram));
}

#[test]
fn test_csv_conflicts_with_list_peers() {
    let args = Args { csv: Some("/dev/null".to_string()), ..peers_args() };
    assert!(!replayer(&args, &[Some(Vec::new())]).success);
    assert_eq!(args.mode(), Err(ArgsError::CsvWithListPeers));
}

#[test]
fn test_csv_with_time_filter() {
    let events = vec![
        make_msg_event_ts(1000, 1, "ping", true, 8, "Ping(1)"),
        make_msg_event_ts(2000, 1, "pong", false, 8, "Pong(1)"),
        make_msg_event_ts(3000, 1, "inv", true, 100, ""),
    ];
    let filter = Filter { from: Some(1500), to: Some(2500), ..no_filter() };
    let ran = run_one(&Args { filter, ..csv_args("csv-time.csv") }, &events);
    assert!(ran.success);
    let (_, csv) = ran.file.unwrap();
    let lines: Vec<&str> = csv.lines().collect();
    assert_eq!(lines.len(), 2); // header + 1 row
    assert!(lines[1].starts_with("2000,"));
}

#[test]
fn test_csv_no_stdout() {
    let events = vec![make_msg_event(5, "ping", true, 8, "Ping(1)")];
    let ran = run_one(&csv_args("csv-no-stdout.csv"), &events);
    assert!(ran.stdout.is_empty());
}

#[test]
fn test_csv_bad_path() {
    let events = vec![make_msg_event(5, "ping", true, 8, "Ping(1)")];
    let ran = run_one(&csv_args("/nonexistent/dir/out.csv"), &events);
    assert!(!ran.success);
    assert!(ran.stderr.contains("error writing"));
}

#[test]
fn test_csv_rejects_multiple_files() {
    let bytes = archive(&[make_msg_event(5, "ping", true, 8, "Ping(1)")]);
    let args = Args {
        csv: Some("csv-multi.csv".to_string()),
        ..plain_args(&["csv-multi-1.bin", "csv-multi-2.bin"])
    };
    let ran = replayer(&args, &[Some(bytes.clone()), Some(bytes)]);
    assert!(!ran.success);
    assert!(ran.stderr.contains("single archive file"));
}

#[test]
fn what_is_no_message_has_no_row() {
    let header = ArchiveHeader { version: 1, git_hash: [0; 4] };
    let unknown = Event { timestamp: 4, peer_observer_event: None };
    assert_eq!(
        csv_lines(&Archive { header, events: vec![unknown] }),
        vec!["timestamp,peer_id,addr,command,direction,size"]
    );
}

// --- message label in diagram output ---

#[test]
fn test_diagram_message_with_size_no_detail() {
    let events = vec![make_msg_event(5, "tx", true, 500, "")];
    let ran = run_one(&diagram_args(), &events);
    assert!(ran.stdout.contains("tx (500B)"));
}

#[test]
fn test_diagram_message_no_size_no_detail() {
    let events = vec![make_msg_event(5, "verack", true, 0, "Verack(true)")];
    let ran = run_one(&diagram_args(), &events);
    assert!(ran.stdout.contains("verack"));
    assert!(!ran.stdout.contains("(0B)"));
}
