use peer_archive::archive::header::ArchiveHeader;
use peer_archive::archive::input::{ErrorKind, IoFault, ReadEvent};
use peer_archive::archive::read::ReadError;
use peer_archive::archive::replayer::{
    display_event, replay_file, run, Args, Level, LogLine, Replay, ReplayFileError, ReplayStep,
    Run, RunAction,
};
use peer_archive::event::{
    Ebpf, EbpfEvent, Event, Ipc, Log, MessageEvent, Metadata, P2p, PeerObserverEvent, Rpc,
};
use prost::bytes::{Buf, BufMut};
use prost::encoding::{self, DecodeContext, WireType};
use prost::{DecodeError, Message};

/// An event of the RPC extractor: a time, and the uptime where there is one.
#[derive(Clone, Debug, Default, PartialEq)]
struct WireRpc {
    timestamp: u64,
    uptime: Option<u64>,
}

impl Message for WireRpc {
    fn encode_raw(&self, buf: &mut impl BufMut) {
        encoding::uint64::encode(1, &self.timestamp, buf);
        if let Some(uptime) = &self.uptime {
            encoding::uint64::encode(2, uptime, buf);
        }
    }

    fn merge_field(
        &mut self,
        tag: u32,
        wire_type: WireType,
        buf: &mut impl Buf,
        ctx: DecodeContext,
    ) -> Result<(), DecodeError> {
        match tag {
            1 => encoding::uint64::merge(wire_type, &mut self.timestamp, buf, ctx),
            2 => {
                encoding::uint64::merge(wire_type, self.uptime.get_or_insert(0), buf, ctx)
            }
            _ => encoding::skip_field(wire_type, tag, buf, ctx),
        }
    }

    fn encoded_len(&self) -> usize {
        encoding::uint64::encoded_len(1, &self.timestamp)
            + match &self.uptime {
                Some(uptime) => encoding::uint64::encoded_len(2, uptime),
                None => 0,
            }
    }

    fn clear(&mut self) {
        *self = WireRpc::default();
    }
}

fn decode(payload: &[u8]) -> Result<Event, String> {
    match WireRpc::decode(payload) {
        Ok(wire) => Ok(Event {
            timestamp: wire.timestamp,
            peer_observer_event: Some(PeerObserverEvent::RpcExtractor(Rpc {
                rpc_event: wire.uptime.map(|uptime| format!("Uptime({})", uptime)),
            })),
        }),
        Err(error) => Err(error.to_string()),
    }
}

fn test_event() -> WireRpc {
    WireRpc { timestamp: 1000, uptime: Some(12345) }
}

fn header_bytes() -> Vec<u8> {
    ArchiveHeader { created: 1, low_data: None }.to_bytes()
}

fn archive_bytes(events: &[WireRpc]) -> Vec<u8> {
    let mut bytes = header_bytes();
    for event in events {
        bytes.extend(event.encode_length_delimited_to_vec());
    }
    bytes
}

/// Replays an archive that is read in pieces of `size` bytes.
fn replay_in_pieces(
    bytes: &[u8],
    size: usize,
) -> (Vec<LogLine>, Result<usize, ReplayFileError>) {
    let mut pieces = bytes.chunks(size);
    let mut lines = Vec::new();
    let mut replay = Replay::new();
    loop {
        replay = match replay_file(replay, "some.bin", &decode) {
            ReplayStep::NeedInput(next) => {
                next.feed(ReadEvent::Data(pieces.next().map_or(Vec::new(), |p| p.to_vec())))
            }
            ReplayStep::Log(line, next) => {
                lines.push(line);
                next
            }
            ReplayStep::Finished(end) => return (lines, end),
        };
    }
}

fn replay(bytes: &[u8]) -> (Vec<LogLine>, Result<usize, ReplayFileError>) {
    replay_in_pieces(bytes, 4096)
}

/// Goes through files whose contents are given, or that cannot be opened.
fn run_all(names: &[&str], files: &[Option<Vec<u8>>]) -> (Vec<LogLine>, bool) {
    let args = Args {
        files: names.iter().map(|name| name.to_string()).collect(),
        log_level: Level::Info,
    };
    let mut state = Run::new();
    let mut lines = Vec::new();
    let mut outcome = None;
    loop {
        match run(&mut state, &args, outcome.take()) {
            RunAction::Log(line) => lines.push(line),
            RunAction::Replay(index) => match &files[index] {
                Some(bytes) => {
                    let (shown, end) = replay(bytes);
                    lines.extend(shown);
                    outcome = Some(end);
                }
                None => {
                    let missing = Replay::new().feed(ReadEvent::Failed(IoFault {
                        kind: ErrorKind::NotFound,
                        message: "No such file or directory (os error 2)".to_string(),
                    }));
                    match replay_file(missing, names[index], &decode) {
                        ReplayStep::Finished(end) => outcome = Some(end),
                        other => panic!("expected the end, got {:?}", other),
                    }
                }
            },
            RunAction::Done(had_error) => return (lines, had_error),
        }
    }
}

fn line(level: Level, text: &str) -> LogLine {
    LogLine { level, text: text.to_string() }
}

#[test]
fn replays_valid_archive() {
    let bytes = archive_bytes(&[test_event()]);
    let (lines, end) = replay(&bytes);
    assert_eq!(end, Ok(1));
    assert_eq!(
        lines,
        vec![
            line(Level::Info, "header: ArchiveHeader(created=1, low_data=unknown)"),
            line(Level::Info, "[1] ts=1000 rpc: Uptime(12345)"),
        ]
    );

    let (lines, had_error) = run_all(&["valid.bin"], &[Some(bytes)]);
    assert!(!had_error);
    assert_eq!(lines.last(), Some(&line(Level::Info, "total: 1 events")));
}

#[test]
fn missing_header_is_an_archive_error() {
    match replay(&[]).1 {
        Err(ReplayFileError::OpenArchive(source)) => {
            assert_eq!(source.kind(), ErrorKind::Other);
            assert!(source.to_text().contains("missing header"));
        }
        other => panic!("expected OpenArchive error, got {other:?}"),
    }
}

#[test]
fn truncated_event_is_an_unexpected_eof() {
    let mut bytes = header_bytes();
    let mut event_bytes = test_event().encode_length_delimited_to_vec();
    event_bytes.pop();
    bytes.extend(event_bytes);

    match replay(&bytes).1 {
        Err(ReplayFileError::UnexpectedEof { event_number, source }) => {
            assert_eq!(event_number, 1);
            assert_eq!(source.kind(), ErrorKind::UnexpectedEof);
        }
        other => panic!("expected UnexpectedEof error, got {other:?}"),
    }
}

#[test]
fn malformed_event_is_a_read_error() {
    let mut bytes = header_bytes();
    bytes.push(1);
    bytes.push(0xff);

    match replay(&bytes).1 {
        Err(ReplayFileError::ReadEvent { event_number, source }) => {
            assert_eq!(event_number, 1);
            assert_eq!(source.kind(), ErrorKind::Other);
        }
        other => panic!("expected ReadEvent error, got {other:?}"),
    }
}

#[test]
fn display_error_is_not_fatal() {
    let (lines, end) = replay(&archive_bytes(&[WireRpc { timestamp: 5, uptime: None }]));
    assert_eq!(end, Ok(1));
    assert_eq!(
        lines[1],
        line(Level::Warn, "failed to display archive some.bin event 1: missing rpc event")
    );
}

#[test]
fn run_reports_archive_error() {
    let (lines, had_error) = run_all(&["missing_file.bin"], &[None]);
    assert!(had_error);
    assert_eq!(
        lines,
        vec![line(
            Level::Error,
            "reading archive missing_file.bin: No such file or directory (os error 2)"
        )]
    );
}

#[test]
fn failed_reads_keep_their_kind() {
    let failing = |kind: ErrorKind| {
        let replay = Replay::new()
            .feed(ReadEvent::Data(header_bytes()))
            .feed(ReadEvent::Failed(IoFault { kind, message: "no".to_string() }));
        let opened = match replay_file(replay, "x.bin", &decode) {
            ReplayStep::Log(_, next) => next,
            other => panic!("expected the header, got {:?}", other),
        };
        match replay_file(opened, "x.bin", &decode) {
            ReplayStep::Finished(Err(error)) => error,
            other => panic!("expected an error, got {:?}", other),
        }
    };
    for kind in [ErrorKind::PermissionDenied, ErrorKind::TimedOut, ErrorKind::Uncategorized] {
        match failing(kind) {
            ReplayFileError::ReadEvent { event_number: 1, source } => {
                assert_eq!(source.kind(), kind);
                assert_eq!(source.to_text(), "no");
            }
            other => panic!("expected ReadEvent error, got {other:?}"),
        }
    }
    assert!(matches!(
        failing(ErrorKind::UnexpectedEof),
        ReplayFileError::UnexpectedEof { event_number: 1, .. }
    ));
}

#[test]
fn several_files_are_announced_and_all_replayed() {
    let valid = archive_bytes(&[test_event(), test_event()]);
    let (lines, had_error) = run_all(
        &["a.bin", "b.bin", "c.bin"],
        &[Some(valid.clone()), None, Some(valid)],
    );
    assert!(had_error);
    let texts: Vec<&str> = lines.iter().map(|line| line.text.as_str()).collect();
    assert_eq!(
        texts,
        vec![
            "=== a.bin ===",
            "header: ArchiveHeader(created=1, low_data=unknown)",
            "[1] ts=1000 rpc: Uptime(12345)",
            "[2] ts=1000 rpc: Uptime(12345)",
            "total: 2 events",
            "=== b.bin ===",
            "reading archive b.bin: No such file or directory (os error 2)",
            "=== c.bin ===",
            "header: ArchiveHeader(created=1, low_data=unknown)",
            "[1] ts=1000 rpc: Uptime(12345)",
            "[2] ts=1000 rpc: Uptime(12345)",
            "total: 2 events",
        ]
    );
}

#[test]
fn no_file_is_no_error() {
    assert_eq!(run_all(&[], &[]), (Vec::new(), false));
}

#[test]
fn reads_of_any_size_replay_the_same() {
    let bytes = archive_bytes(&[test_event(), WireRpc { timestamp: 2, uptime: None }]);
    let whole = replay(&bytes);
    assert_eq!(whole.1, Ok(2));
    for size in 1..bytes.len() {
        assert_eq!(replay_in_pieces(&bytes, size), whole);
    }
}

#[test]
fn failure_behind_events_names_the_event() {
    let mut bytes = archive_bytes(&[test_event()]);
    bytes.push(0x80);
    let (lines, end) = replay(&bytes);
    assert_eq!(lines.len(), 2);
    let error = end.unwrap_err();
    assert_eq!(
        error,
        ReplayFileError::UnexpectedEof {
            event_number: 2,
            source: ReadError::TruncatedDelimiter
        }
    );
    assert_eq!(
        error.to_text("x.bin"),
        "error at event 2 in archive x.bin: unexpected end of file"
    );
    let read = ReplayFileError::ReadEvent {
        event_number: 3,
        source: ReadError::Decode("bad".to_string()),
    };
    assert_eq!(read.to_text("x.bin"), "error at event 3 in archive x.bin: bad");
}

#[test]
fn events_are_shown_by_their_extractor() {
    let show = |observed: Option<PeerObserverEvent>| {
        display_event(7, &Event { timestamp: 30, peer_observer_event: observed })
    };
    let text = || Some("t".to_string());
    assert_eq!(show(None), Ok("[7] ts=30 <unknown>".to_string()));
    assert_eq!(
        show(Some(PeerObserverEvent::EbpfExtractor(Ebpf {
            ebpf_event: Some(EbpfEvent::Other("t".to_string()))
        }))),
        Ok("[7] ts=30 ebpf: t".to_string())
    );
    assert_eq!(
        show(Some(PeerObserverEvent::EbpfExtractor(Ebpf {
            ebpf_event: Some(EbpfEvent::Message(MessageEvent {
                meta: Metadata {
                    peer_id: 1,
                    addr: "a".to_string(),
                    conn_type: 1,
                    command: "ping".to_string(),
                    inbound: true,
                    size: 8,
                },
                text: "m".to_string(),
            }))
        }))),
        Ok("[7] ts=30 ebpf: m".to_string())
    );
    assert_eq!(
        show(Some(PeerObserverEvent::RpcExtractor(Rpc { rpc_event: text() }))),
        Ok("[7] ts=30 rpc: t".to_string())
    );
    assert_eq!(
        show(Some(PeerObserverEvent::P2pExtractor(P2p { p2p_event: text() }))),
        Ok("[7] ts=30 p2p: t".to_string())
    );
    assert_eq!(
        show(Some(PeerObserverEvent::LogExtractor(Log { log_event: text() }))),
        Ok("[7] ts=30 log: t".to_string())
    );
    assert_eq!(
        show(Some(PeerObserverEvent::IpcExtractor(Ipc { ipc_event: text() }))),
        Ok("[7] ts=30 ipc: t".to_string())
    );
    assert_eq!(
        show(Some(PeerObserverEvent::EbpfExtractor(Ebpf { ebpf_event: None }))),
        Err("missing ebpf event".to_string())
    );
    assert_eq!(
        show(Some(PeerObserverEvent::P2pExtractor(P2p { p2p_event: None }))),
        Err("missing p2p event".to_string())
    );
    assert_eq!(
        show(Some(PeerObserverEvent::LogExtractor(Log { log_event: None }))),
        Err("missing log event".to_string())
    );
    assert_eq!(
        show(Some(PeerObserverEvent::IpcExtractor(Ipc { ipc_event: None }))),
        Err("missing ipc event".to_string())
    );
}

#[test]
fn archive_cut_inside_an_event_is_replayed_up_to_it() {
    let whole = archive_bytes(&[test_event(), test_event()]);
    let first = archive_bytes(&[test_event()]);
    let (lines, _) = replay(&first);
    for k in first.len() + 1..whole.len() {
        let (shown, end) = replay(&whole[..k]);
        assert_eq!(shown, lines);
        assert!(matches!(
            end,
            Err(ReplayFileError::UnexpectedEof { event_number: 2, .. })
        ));
    }
}
