//! What holds of the lines that replaying archives writes to the log: numbers, times
//! and texts can be read back from them.
use crate::archive::header::{header_payload, header_text, ArchiveHeader};
use crate::archive::input::{End, ErrorKind, InputView};
use crate::archive::laws::{
    law_archive_header_round_trip, law_clean_end_is_at_a_boundary, law_message_round_trip,
    law_reads_may_split_messages,
};
use crate::archive::read::{fault_kind, fault_text, ReadError, ReadFault};
use crate::archive::replayer::{
    display_line, due_payload, event_fault, event_head, event_log, event_logs, lemma_replay_events,
    outcome_log, reading, replay_all, replay_fault_text, replay_step, run_step, unopened, Level,
    LogLine, LogView, ReplayFault, ReplayFileError, ReplayStep, ReplayStepView, ReplayView, Run,
    RunAction, RunActionView,
};
use crate::event::{
    Ebpf, EbpfEvent, Event, Ipc, Log, MessageEvent, Metadata, P2p, PeerObserverEvent, Rpc,
};
use crate::text::{
    decimal, is_numeral, law_decimal_reads_back, law_different_numbers_look_different,
};
use crate::wire::{framed, framed_all};
use vstd::prelude::*;

verus! {

/// Whether `line` is the number `n` in brackets, the time `timestamp` behind `ts=`,
/// and then `rest`.
pub open spec fn is_event_line(line: Seq<char>, n: int, timestamp: int, rest: Seq<char>) -> bool {
    exists|number: Seq<char>, time: Seq<char>|
        #![trigger is_numeral(number, n), is_numeral(time, timestamp)]
        is_numeral(number, n) && is_numeral(time, timestamp) && line == "["@ + number + "] ts="@
            + time + rest
}

/// The number and the time of an event can be read back from the head of its line.
pub proof fn law_event_head_reads_back(n: nat, timestamp: u64)
    ensures
        is_event_line(event_head(n, timestamp), n as int, timestamp as int, Seq::empty()),
{
    law_decimal_reads_back(n);
    law_decimal_reads_back(timestamp as nat);
    let (number, time) = (decimal(n), decimal(timestamp as nat));
    assert(is_numeral(number, n as int) && is_numeral(time, timestamp as int));
    assert(event_head(n, timestamp) =~= "["@ + number + "] ts="@ + time + Seq::<char>::empty());
}

/// Lines of events under the same number and at different times differ.
pub proof fn law_different_times_look_different(n: nat, a: u64, b: u64)
    requires
        event_head(n, a) == event_head(n, b),
    ensures
        a == b,
{
    let k = ("["@ + decimal(n) + "] ts="@).len() as int;
    assert(event_head(n, a).skip(k) =~= decimal(a as nat));
    assert(event_head(n, b).skip(k) =~= decimal(b as nat));
    law_different_numbers_look_different(a as nat, b as nat);
}

proof fn lemma_line(n: nat, timestamp: u64, line: Seq<char>, rest: Seq<char>)
    requires
        line == event_head(n, timestamp) + rest,
    ensures
        is_event_line(line, n as int, timestamp as int, rest),
{
    law_decimal_reads_back(n);
    law_decimal_reads_back(timestamp as nat);
    let (number, time) = (decimal(n), decimal(timestamp as nat));
    assert(is_numeral(number, n as int) && is_numeral(time, timestamp as int));
    assert(line =~= "["@ + number + "] ts="@ + time + rest);
}

/// Whether an event is shown by a line with its number, its time, and `rest`, and
/// logged as such.
pub open spec fn is_shown_as(
    path: Seq<char>,
    n: nat,
    timestamp: u64,
    observed: Option<PeerObserverEvent>,
    rest: Seq<char>,
) -> bool {
    let event = Event { timestamp, peer_observer_event: observed };
    &&& display_line(n, event) matches Ok(line) && is_event_line(
        line,
        n as int,
        timestamp as int,
        rest,
    )
    &&& event_log(path, n, event).level == Level::Info
    &&& is_event_line(event_log(path, n, event).text, n as int, timestamp as int, rest)
}

/// The line of an event shows its number, its time, the name of its extractor and its
/// text, each in full.
pub proof fn law_event_lines_show_everything(
    path: Seq<char>,
    n: nat,
    timestamp: u64,
    meta: Metadata,
    text: String,
)
    ensures
        is_shown_as(path, n, timestamp, None, " <unknown>"@),
        is_shown_as(
            path,
            n,
            timestamp,
            Some(
                PeerObserverEvent::EbpfExtractor(
                    Ebpf { ebpf_event: Some(EbpfEvent::Message(MessageEvent { meta, text })) },
                ),
            ),
            " ebpf: "@ + text@,
        ),
        is_shown_as(
            path,
            n,
            timestamp,
            Some(
                PeerObserverEvent::EbpfExtractor(
                    Ebpf { ebpf_event: Some(EbpfEvent::Other(text)) },
                ),
            ),
            " ebpf: "@ + text@,
        ),
        is_shown_as(
            path,
            n,
            timestamp,
            Some(PeerObserverEvent::RpcExtractor(Rpc { rpc_event: Some(text) })),
            " rpc: "@ + text@,
        ),
        is_shown_as(
            path,
            n,
            timestamp,
            Some(PeerObserverEvent::P2pExtractor(P2p { p2p_event: Some(text) })),
            " p2p: "@ + text@,
        ),
        is_shown_as(
            path,
            n,
            timestamp,
            Some(PeerObserverEvent::LogExtractor(Log { log_event: Some(text) })),
            " log: "@ + text@,
        ),
        is_shown_as(
            path,
            n,
            timestamp,
            Some(PeerObserverEvent::IpcExtractor(Ipc { ipc_event: Some(text) })),
            " ipc: "@ + text@,
        ),
{
    reveal_strlit(" ");
    reveal_strlit(": ");
    reveal_strlit("ebpf");
    reveal_strlit("rpc");
    reveal_strlit("p2p");
    reveal_strlit("log");
    reveal_strlit("ipc");
    reveal_strlit(" ebpf: ");
    reveal_strlit(" rpc: ");
    reveal_strlit(" p2p: ");
    reveal_strlit(" log: ");
    reveal_strlit(" ipc: ");
    let head = event_head(n, timestamp);
    lemma_line(n, timestamp, head + " <unknown>"@, " <unknown>"@);
    let ebpf = head + " "@ + "ebpf"@ + ": "@ + text@;
    assert(ebpf =~= head + (" ebpf: "@ + text@));
    lemma_line(n, timestamp, ebpf, " ebpf: "@ + text@);
    let rpc = head + " "@ + "rpc"@ + ": "@ + text@;
    assert(rpc =~= head + (" rpc: "@ + text@));
    lemma_line(n, timestamp, rpc, " rpc: "@ + text@);
    let p2p = head + " "@ + "p2p"@ + ": "@ + text@;
    assert(p2p =~= head + (" p2p: "@ + text@));
    lemma_line(n, timestamp, p2p, " p2p: "@ + text@);
    let log = head + " "@ + "log"@ + ": "@ + text@;
    assert(log =~= head + (" log: "@ + text@));
    lemma_line(n, timestamp, log, " log: "@ + text@);
    let ipc = head + " "@ + "ipc"@ + ": "@ + text@;
    assert(ipc =~= head + (" ipc: "@ + text@));
    lemma_line(n, timestamp, ipc, " ipc: "@ + text@);
}

/// Whether an event cannot be shown, for the given reason, and is logged as a warning
/// that names the archive, its number and the reason.
pub open spec fn is_warned_of(
    path: Seq<char>,
    n: nat,
    timestamp: u64,
    observed: PeerObserverEvent,
    reason: Seq<char>,
) -> bool {
    let event = Event { timestamp, peer_observer_event: Some(observed) };
    &&& display_line(n, event) == Err::<Seq<char>, Seq<char>>(reason)
    &&& event_log(path, n, event).level == Level::Warn
    &&& exists|number: Seq<char>| #[trigger]
        is_numeral(number, n as int) && event_log(path, n, event).text
            == "failed to display archive "@ + path + " event "@ + number + ": "@ + reason
}

/// An event without content is warned of, and not taken for another one.
pub proof fn law_missing_content_is_warned_of(path: Seq<char>, n: nat, timestamp: u64)
    ensures
        is_warned_of(
            path,
            n,
            timestamp,
            PeerObserverEvent::EbpfExtractor(Ebpf { ebpf_event: None }),
            "missing ebpf event"@,
        ),
        is_warned_of(
            path,
            n,
            timestamp,
            PeerObserverEvent::RpcExtractor(Rpc { rpc_event: None }),
            "missing rpc event"@,
        ),
        is_warned_of(
            path,
            n,
            timestamp,
            PeerObserverEvent::P2pExtractor(P2p { p2p_event: None }),
            "missing p2p event"@,
        ),
        is_warned_of(
            path,
            n,
            timestamp,
            PeerObserverEvent::LogExtractor(Log { log_event: None }),
            "missing log event"@,
        ),
        is_warned_of(
            path,
            n,
            timestamp,
            PeerObserverEvent::IpcExtractor(Ipc { ipc_event: None }),
            "missing ipc event"@,
        ),
{
    reveal_strlit("missing ");
    reveal_strlit(" event");
    reveal_strlit("ebpf");
    reveal_strlit("rpc");
    reveal_strlit("p2p");
    reveal_strlit("log");
    reveal_strlit("ipc");
    reveal_strlit("missing ebpf event");
    reveal_strlit("missing rpc event");
    reveal_strlit("missing p2p event");
    reveal_strlit("missing log event");
    reveal_strlit("missing ipc event");
    law_decimal_reads_back(n);
    assert(is_numeral(decimal(n), n as int));
    assert("missing "@ + "ebpf"@ + " event"@ =~= "missing ebpf event"@);
    assert("missing "@ + "rpc"@ + " event"@ =~= "missing rpc event"@);
    assert("missing "@ + "p2p"@ + " event"@ =~= "missing p2p event"@);
    assert("missing "@ + "log"@ + " event"@ =~= "missing log event"@);
    assert("missing "@ + "ipc"@ + " event"@ =~= "missing ipc event"@);
}

/// Events are logged one after the other, each under its number.
pub proof fn law_events_are_numbered_in_order(path: Seq<char>, n: nat, events: Seq<Event>)
    ensures
        event_logs(path, n, events).len() == events.len(),
        forall|i: int|
            0 <= i < events.len() ==> #[trigger] event_logs(path, n, events)[i] == event_log(
                path,
                (n + i) as nat,
                events[i],
            ),
{
}

/// A log line has the level and the text that it was made with.
pub proof fn law_log_lines_are_what_they_say(line: LogLine)
    ensures
        line@.level == line.level,
        line@.text == line.text@,
{
}

/// A failure at an event names the number of the event, the archive, and what went
/// wrong; data that ended too early is told apart from any other failure.
pub proof fn law_failures_name_their_event(
    event_number: usize,
    source: ReadFault,
    path: Seq<char>,
)
    ensures
        fault_kind(source) == ErrorKind::UnexpectedEof ==> event_fault(event_number, source) == (
        ReplayFault::UnexpectedEof { event_number, source }),
        fault_kind(source) != ErrorKind::UnexpectedEof ==> event_fault(event_number, source) == (
        ReplayFault::ReadEvent { event_number, source }),
        exists|number: Seq<char>| #[trigger]
            is_numeral(number, event_number as int) && replay_fault_text(
                event_fault(event_number, source),
                path,
            ) == "error at event "@ + number + " in archive "@ + path + ": "@ + fault_text(source),
        replay_fault_text(ReplayFault::OpenArchive(source), path) == "reading archive "@ + path
            + ": "@ + fault_text(source),
{
    law_decimal_reads_back(event_number as nat);
    assert(is_numeral(decimal(event_number as nat), event_number as int));
}

/// How the replay of a file ended is logged: the number of its events in full, or the
/// failure as an error.
pub proof fn law_outcomes_are_logged(path: Seq<char>, count: usize, error: ReplayFileError)
    ensures
        outcome_log(path, Ok(count)).level == Level::Info,
        exists|number: Seq<char>| #[trigger]
            is_numeral(number, count as int) && outcome_log(path, Ok(count)).text == "total: "@
                + number + " events"@,
        outcome_log(path, Err(error)) == (LogView {
            level: Level::Error,
            text: replay_fault_text(error@, path),
        }),
{
    law_decimal_reads_back(count as nat);
    assert(is_numeral(decimal(count as nat), count as int));
}

/// Of several files each is announced by its path before it is replayed; a single
/// file is not announced. What came of a file is logged, and the next one is turned to.
pub proof fn law_files_are_announced_and_concluded(
    paths: Seq<String>,
    index: usize,
    had_error: bool,
    outcome: Result<usize, ReplayFileError>,
)
    requires
        index < paths.len() <= usize::MAX,
    ensures
        paths.len() > 1 ==> run_step(Run { index, announced: false, had_error }, paths, None) == (
            Run { index, announced: true, had_error },
            RunActionView::Log(
                LogView {
                    level: Level::Info,
                    text: "=== "@ + paths[index as int]@ + " ==="@,
                },
            ),
        ),
        paths.len() == 1 ==> run_step(Run { index, announced: false, had_error }, paths, None)
            == (Run { index, announced: false, had_error }, RunActionView::Replay(index as nat)),
        run_step(Run { index, announced: true, had_error }, paths, None) == (
            Run { index, announced: true, had_error },
            RunActionView::Replay(index as nat),
        ),
        forall|announced: bool|
            #[trigger] run_step(Run { index, announced, had_error }, paths, Some(outcome)) == (
                Run {
                    index: (index + 1) as usize,
                    announced: false,
                    had_error: had_error || outcome is Err,
                },
                RunActionView::Log(outcome_log(paths[index as int]@, outcome)),
            ),
{
}

/// The replay of an archive in which an event does not decode shows everything in
/// front of that event, and ends with the error that decoding gave, at its number.
pub proof fn law_malformed_event_ends_the_replay(
    header: ArchiveHeader,
    payloads: Seq<Seq<u8>>,
    events: Seq<Event>,
    bad: Seq<u8>,
    description: String,
    rest: Seq<u8>,
    path: Seq<char>,
)
    requires
        payloads.len() == events.len(),
        payloads.len() < usize::MAX,
        forall|i: int| 0 <= i < payloads.len() ==> #[trigger] payloads[i].len() <= usize::MAX,
        bad.len() <= usize::MAX,
    ensures
        replay_all(
            unopened(
                framed(header_payload(header)) + (framed_all(payloads) + (framed(bad) + rest)),
            ),
            path,
            events.map_values(|event: Event| Ok::<Event, String>(event)) + seq![
                Err::<Event, String>(description),
            ],
        ) == (
            seq![LogView { level: Level::Info, text: "header: "@ + header_text(header) }]
                + event_logs(path, 1, events),
            Err::<nat, ReplayFault>(
                ReplayFault::ReadEvent {
                    event_number: (payloads.len() + 1) as usize,
                    source: ReadFault::Decode(description@),
                },
            ),
        ),
{
    let ok = |event: Event| Ok::<Event, String>(event);
    let more = seq![Err::<Event, String>(description)];
    let tail = framed(bad) + rest;
    let count = payloads.len();
    law_archive_header_round_trip(header, framed_all(payloads) + tail, Some(End::Eof));
    law_message_round_trip(bad, rest, Some(End::Eof));
    lemma_replay_events(payloads, events, tail, 0, path, more);
    let fault = ReplayFault::ReadEvent {
        event_number: (count + 1) as usize,
        source: ReadFault::Decode(description@),
    };
    assert(replay_step(reading(tail, count), path, more[0]) == ReplayStepView::Finished(
        Err(fault),
    ));
    reveal_with_fuel(replay_all, 1);
    assert(replay_all(reading(tail, count), path, more) == (
        Seq::<LogView>::empty(),
        Err::<nat, ReplayFault>(fault),
    ));
    assert(event_logs(path, 1, events) + Seq::<LogView>::empty() =~= event_logs(path, 1, events));
}

/// A replay goes on in the same way when more bytes of the archive follow: what it can do
/// with the bytes that are there does not depend on how the archive is cut into reads.
pub proof fn law_reads_may_split_a_replay(
    replay: ReplayView,
    more: Seq<u8>,
    end: Option<End>,
    path: Seq<char>,
    decoded: Result<Event, String>,
)
    requires
        replay.input.end is None,
    ensures
        ({
            let longer = ReplayView {
                input: InputView { unread: replay.input.unread + more, end },
                ..replay
            };
            match replay_step(replay, path, decoded) {
                ReplayStepView::NeedInput(same) => same == replay,
                ReplayStepView::Log(line, next) => {
                    &&& next.opened
                    &&& replay_step(longer, path, decoded) == ReplayStepView::Log(
                        line,
                        ReplayView {
                            input: InputView { unread: next.input.unread + more, end },
                            ..next
                        },
                    )
                },
                ReplayStepView::Finished(outcome) => replay_step(longer, path, decoded)
                    == ReplayStepView::Finished(outcome),
            }
        }),
{
    law_reads_may_split_messages(replay.input.unread, more, end);
    law_clean_end_is_at_a_boundary(replay.input);
    assert(replay.input == InputView { unread: replay.input.unread, end: None });
}

/// The message that the next step of a replay decodes is the next one behind the header.
pub proof fn law_next_message_is_due(payload: Seq<u8>, rest: Seq<u8>, count: nat)
    requires
        payload.len() <= usize::MAX,
    ensures
        due_payload(reading(framed(payload) + rest, count)) == Some(payload),
        due_payload(unopened(framed(payload) + rest)) is None,
        due_payload(reading(Seq::empty(), count)) is None,
{
    law_message_round_trip(payload, rest, Some(End::Eof));
    law_clean_end_is_at_a_boundary(reading(Seq::empty(), count).input);
}

/// The views of errors and actions are what is in them.
pub proof fn law_replays_are_what_they_say(
    event_number: usize,
    source: ReadError,
    line: LogLine,
    index: usize,
    had_error: bool,
)
    ensures
        ReplayFileError::OpenArchive(source)@ == ReplayFault::OpenArchive(source@),
        (ReplayFileError::UnexpectedEof { event_number, source })@ == (
        ReplayFault::UnexpectedEof { event_number, source: source@ }),
        (ReplayFileError::ReadEvent { event_number, source })@ == (ReplayFault::ReadEvent {
            event_number,
            source: source@,
        }),
        RunAction::Log(line)@ == RunActionView::Log(line@),
        RunAction::Replay(index)@ == RunActionView::Replay(index as nat),
        RunAction::Done(had_error)@ == RunActionView::Done(had_error),
        ReplayStep::Finished(Ok(index))@ == ReplayStepView::Finished(
            Ok::<nat, ReplayFault>(index as nat),
        ),
        ReplayStep::Finished(Err(ReplayFileError::OpenArchive(source)))@
            == ReplayStepView::Finished(Err::<nat, ReplayFault>(ReplayFault::OpenArchive(source@))),
{
}

} // verus!
