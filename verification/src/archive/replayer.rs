//! Replaying archives: every event of every file is shown in the log, and
//! failures are reported.
use crate::archive::header::{header_payload, header_text, ArchiveHeader};
use crate::archive::input::{fed, End, ErrorKind, Input, InputView, ReadEvent};
use crate::archive::laws::{
    law_archive_header_round_trip, law_clean_end_is_at_a_boundary,
    law_cut_message_is_an_unexpected_eof, law_message_round_trip,
    law_no_input_is_asked_for_behind_the_end, law_size_is_what_was_read,
};
use crate::archive::read::{
    decodes, fault_kind, fault_text, frame_step, open_step, ArchiveReader, Opening, ReadError,
    ReadFault, Step,
};
use crate::event::{shown, Event};
use crate::text::{decimal, push_decimal};
use crate::wire::{framed, framed_all};
use vstd::prelude::*;

verus! {

/// How important a log line is.
#[derive(Clone, Copy, Debug, PartialEq, Eq, Structural)]
pub enum Level {
    Error,
    Warn,
    Info,
    Debug,
    Trace,
}

/// A line for the log.
#[derive(Debug, PartialEq, Eq)]
pub struct LogLine {
    pub level: Level,
    pub text: String,
}

/// A `LogLine` with its text as a character sequence.
pub struct LogView {
    pub level: Level,
    pub text: Seq<char>,
}

impl View for LogLine {
    type V = LogView;

    open spec fn view(&self) -> LogView {
        LogView { level: self.level, text: self.text@ }
    }
}

/// What the replayer is asked to do.
#[derive(Debug, PartialEq, Eq)]
pub struct Args {
    /// Archive files to read.
    pub files: Vec<String>,
    /// The log level the tool should run on.
    pub log_level: Level,
}

/// Why an archive could not be replayed to its end.
#[derive(Debug, PartialEq, Eq)]
pub enum ReplayFileError {
    /// The archive could not be opened, or its header could not be read.
    OpenArchive(ReadError),
    /// The archive ended inside an event.
    UnexpectedEof { event_number: usize, source: ReadError },
    /// An event could not be read.
    ReadEvent { event_number: usize, source: ReadError },
}

/// A `ReplayFileError` with its source as a `ReadFault`.
pub enum ReplayFault {
    OpenArchive(ReadFault),
    UnexpectedEof { event_number: usize, source: ReadFault },
    ReadEvent { event_number: usize, source: ReadFault },
}

impl View for ReplayFileError {
    type V = ReplayFault;

    open spec fn view(&self) -> ReplayFault {
        match *self {
            ReplayFileError::OpenArchive(source) => ReplayFault::OpenArchive(source@),
            ReplayFileError::UnexpectedEof { event_number, source } => ReplayFault::UnexpectedEof {
                event_number,
                source: source@,
            },
            ReplayFileError::ReadEvent { event_number, source } => ReplayFault::ReadEvent {
                event_number,
                source: source@,
            },
        }
    }
}

/// The description of a failure to replay the archive at `path`.
pub open spec fn replay_fault_text(fault: ReplayFault, path: Seq<char>) -> Seq<char> {
    match fault {
        ReplayFault::OpenArchive(source) => "reading archive "@ + path + ": "@ + fault_text(source),
        ReplayFault::UnexpectedEof { event_number, source } => "error at event "@ + decimal(
            event_number as nat,
        ) + " in archive "@ + path + ": "@ + fault_text(source),
        ReplayFault::ReadEvent { event_number, source } => "error at event "@ + decimal(
            event_number as nat,
        ) + " in archive "@ + path + ": "@ + fault_text(source),
    }
}

impl ReplayFileError {
    /// The failure to read event `event_number`.
    fn at_event(event_number: usize, source: ReadError) -> (r: ReplayFileError)
        ensures
            r@ == event_fault(event_number, source@),
    {
        match source.kind() {
            ErrorKind::UnexpectedEof => ReplayFileError::UnexpectedEof { event_number, source },
            _ => ReplayFileError::ReadEvent { event_number, source },
        }
    }

    /// The description of the failure to replay the archive at `path`.
    pub fn to_text(&self, path: &str) -> (r: String)
        ensures
            r@ == replay_fault_text(self@, path@),
    {
        let mut text = String::new();
        let source: &ReadError = match self {
            ReplayFileError::OpenArchive(source) => {
                text.append("reading archive ");
                source
            },
            ReplayFileError::UnexpectedEof { event_number, source } => {
                text.append("error at event ");
                push_decimal(&mut text, *event_number as u64);
                text.append(" in archive ");
                source
            },
            ReplayFileError::ReadEvent { event_number, source } => {
                text.append("error at event ");
                push_decimal(&mut text, *event_number as u64);
                text.append(" in archive ");
                source
            },
        };
        text.append(path);
        text.append(": ");
        text.append(source.to_text().as_str());
        assert(text@ =~= replay_fault_text(self@, path@));
        text
    }
}

/// The failure to read event `event_number`, by the kind of its source.
pub open spec fn event_fault(event_number: usize, source: ReadFault) -> ReplayFault {
    if fault_kind(source) == ErrorKind::UnexpectedEof {
        ReplayFault::UnexpectedEof { event_number, source }
    } else {
        ReplayFault::ReadEvent { event_number, source }
    }
}

/// The beginning of the line that shows an event.
pub open spec fn event_head(n: nat, timestamp: u64) -> Seq<char> {
    "["@ + decimal(n) + "] ts="@ + decimal(timestamp as nat)
}

/// The line that shows event number `n`, or why it cannot be shown.
pub open spec fn display_line(n: nat, event: Event) -> Result<Seq<char>, Seq<char>> {
    match event.peer_observer_event {
        None => Ok(event_head(n, event.timestamp) + " <unknown>"@),
        Some(observed) => match shown(observed) {
            (extractor, Some(text)) => Ok(
                event_head(n, event.timestamp) + " "@ + extractor + ": "@ + text,
            ),
            (extractor, None) => Err("missing "@ + extractor + " event"@),
        },
    }
}

/// The line that shows event number `n`, or why it cannot be shown.
pub fn display_event(n: usize, event: &Event) -> (r: Result<String, String>)
    ensures
        match display_line(n as nat, *event) {
            Ok(line) => r matches Ok(text) && text@ == line,
            Err(reason) => r matches Err(text) && text@ == reason,
        },
{
    let mut line = String::new();
    line.append("[");
    push_decimal(&mut line, n as u64);
    line.append("] ts=");
    push_decimal(&mut line, event.timestamp);
    assert(line@ =~= event_head(n as nat, event.timestamp));
    match &event.peer_observer_event {
        None => {
            line.append(" <unknown>");
            Ok(line)
        },
        Some(observed) => {
            let (extractor, text) = observed.show();
            match text {
                Some(text) => {
                    line.append(" ");
                    line.append(extractor);
                    line.append(": ");
                    line.append(text);
                    Ok(line)
                },
                None => {
                    let mut reason = String::new();
                    reason.append("missing ");
                    reason.append(extractor);
                    reason.append(" event");
                    assert(reason@ =~= "missing "@ + extractor@ + " event"@);
                    Err(reason)
                },
            }
        },
    }
}

/// The log line for event number `n` of the archive at `path`: the event, or a
/// warning where it cannot be shown.
pub open spec fn event_log(path: Seq<char>, n: nat, event: Event) -> LogView {
    match display_line(n, event) {
        Ok(text) => LogView { level: Level::Info, text },
        Err(reason) => LogView {
            level: Level::Warn,
            text: "failed to display archive "@ + path + " event "@ + decimal(n) + ": "@ + reason,
        },
    }
}

fn event_log_line(path: &str, n: usize, event: &Event) -> (r: LogLine)
    ensures
        r@ == event_log(path@, n as nat, *event),
{
    match display_event(n, event) {
        Ok(text) => LogLine { level: Level::Info, text },
        Err(reason) => {
            let mut text = String::new();
            text.append("failed to display archive ");
            text.append(path);
            text.append(" event ");
            push_decimal(&mut text, n as u64);
            text.append(": ");
            text.append(reason.as_str());
            assert(text@ =~= "failed to display archive "@ + path@ + " event "@ + decimal(n as nat)
                + ": "@ + reason@);
            LogLine { level: Level::Warn, text }
        },
    }
}

/// How far the replay of an archive has come.
#[derive(Debug)]
enum Stage {
    Opening(Input),
    Reading(ArchiveReader),
}

/// An archive that is being replayed.
#[derive(Debug)]
pub struct Replay {
    stage: Stage,
    events_count: usize,
}

/// How far the replay of an archive has come, with what was read and not used
/// yet.
pub struct ReplayView {
    /// Whether the header was read.
    pub opened: bool,
    pub input: InputView,
    pub events_count: nat,
}

impl View for Replay {
    type V = ReplayView;

    closed spec fn view(&self) -> ReplayView {
        match self.stage {
            Stage::Opening(input) => ReplayView {
                opened: false,
                input: input@,
                events_count: self.events_count as nat,
            },
            Stage::Reading(reader) => ReplayView {
                opened: true,
                input: reader.input(),
                events_count: self.events_count as nat,
            },
        }
    }
}

/// What comes next in the replay of an archive.
#[derive(Debug)]
pub enum ReplayStep {
    /// The next read has to be made and taken in.
    NeedInput(Replay),
    /// A line goes to the log.
    Log(LogLine, Replay),
    /// The replay is over, with the number of events where it came to the end.
    Finished(Result<usize, ReplayFileError>),
}

/// A `ReplayStep` with what is in it as views.
pub enum ReplayStepView {
    NeedInput(ReplayView),
    Log(LogView, ReplayView),
    Finished(Result<nat, ReplayFault>),
}

impl View for ReplayStep {
    type V = ReplayStepView;

    open spec fn view(&self) -> ReplayStepView {
        match *self {
            ReplayStep::NeedInput(replay) => ReplayStepView::NeedInput(replay@),
            ReplayStep::Log(line, replay) => ReplayStepView::Log(line@, replay@),
            ReplayStep::Finished(Ok(count)) => ReplayStepView::Finished(Ok(count as nat)),
            ReplayStep::Finished(Err(error)) => ReplayStepView::Finished(Err(error@)),
        }
    }
}

/// The message that the next step of a replay decodes as an event, if it comes
/// to one.
pub open spec fn due_payload(replay: ReplayView) -> Option<Seq<u8>> {
    match frame_step(replay.input).0 {
        Step::Ready(Ok(Some(frame))) if replay.opened => Some(frame.payload),
        _ => None,
    }
}

/// What comes next in the replay of the archive at `path`, where the message
/// that is due, if one is, decodes to `decoded`.
pub open spec fn replay_step(
    replay: ReplayView,
    path: Seq<char>,
    decoded: Result<Event, String>,
) -> ReplayStepView {
    let n = (replay.events_count + 1) as usize;
    if !replay.opened {
        match open_step(replay.input) {
            Step::NeedInput => ReplayStepView::NeedInput(replay),
            Step::Ready(Err(fault)) => ReplayStepView::Finished(
                Err(ReplayFault::OpenArchive(fault)),
            ),
            Step::Ready(Ok((header, _, rest))) => ReplayStepView::Log(
                LogView { level: Level::Info, text: "header: "@ + header_text(header) },
                ReplayView { opened: true, input: rest, ..replay },
            ),
        }
    } else {
        match frame_step(replay.input) {
            (Step::NeedInput, _) => ReplayStepView::NeedInput(replay),
            (Step::Ready(Err(fault)), _) => ReplayStepView::Finished(Err(event_fault(n, fault))),
            (Step::Ready(Ok(None)), _) => ReplayStepView::Finished(Ok(replay.events_count)),
            (Step::Ready(Ok(Some(frame))), rest) => match decoded {
                Err(text) => ReplayStepView::Finished(
                    Err(event_fault(n, ReadFault::Decode(text@))),
                ),
                Ok(event) => ReplayStepView::Log(
                    event_log(path, n as nat, event),
                    ReplayView { opened: true, input: rest, events_count: n as nat },
                ),
            },
        }
    }
}

impl Replay {
    /// The replay of an archive of which nothing was read yet.
    pub fn new() -> (r: Replay)
        ensures
            r@ == (ReplayView {
                opened: false,
                input: InputView { unread: Seq::empty(), end: None },
                events_count: 0,
            }),
    {
        Replay { stage: Stage::Opening(Input::new()), events_count: 0 }
    }

    /// Whether the number of one more event can be counted.
    pub fn can_count(&self) -> (r: bool)
        ensures
            r == (self@.events_count < usize::MAX),
    {
        self.events_count < usize::MAX
    }

    /// Takes in how one read of the archive ended; the archive that cannot be
    /// opened at all is one whose first read failed.
    pub fn feed(self, event: ReadEvent) -> (r: Replay)
        requires
            self@.input.end is None,
        ensures
            r@ == (ReplayView { input: fed(self@.input, event), ..self@ }),
    {
        let stage = match self.stage {
            Stage::Opening(input) => {
                let mut input = input;
                input.feed(event);
                Stage::Opening(input)
            },
            Stage::Reading(reader) => {
                let mut reader = reader;
                reader.feed(event);
                Stage::Reading(reader)
            },
        };
        Replay { stage, events_count: self.events_count }
    }
}

/// Takes the replay of the archive at `path` one step further. Events are decoded
/// with `decode`; one that decodes and cannot be shown is passed over with a
/// warning, and one that cannot be read ends the replay.
pub fn replay_file<D: Fn(&[u8]) -> Result<Event, String>>(
    replay: Replay,
    path: &str,
    decode: &D,
) -> (r: ReplayStep)
    requires
        forall|bytes: &[u8]| call_requires(*decode, (bytes,)),
        replay@.events_count < usize::MAX,
    ensures
        exists|decoded: Result<Event, String>|
            (due_payload(replay@) matches Some(payload) ==> decodes(*decode, payload, decoded)) && r@
                == #[trigger] replay_step(replay@, path@, decoded),
        r matches ReplayStep::NeedInput(next) ==> next@.input.end is None,
{
    let ghost undue = Err::<Event, String>(arbitrary());
    let events_count = replay.events_count;
    match replay.stage {
        Stage::Opening(input) => match ArchiveReader::new(input) {
            Opening::NeedInput(input) => {
                let next = Replay { stage: Stage::Opening(input), events_count };
                let r = ReplayStep::NeedInput(next);
                assert(r@ == replay_step(replay@, path@, undue));
                r
            },
            Opening::Failed(error) => {
                let r = ReplayStep::Finished(Err(ReplayFileError::OpenArchive(error)));
                assert(r@ == replay_step(replay@, path@, undue));
                r
            },
            Opening::Reader(reader) => {
                let mut text = String::new();
                text.append("header: ");
                text.append(reader.header().to_text().as_str());
                assert(text@ =~= "header: "@ + header_text(reader.stated_header()));
                let next = Replay { stage: Stage::Reading(reader), events_count };
                let r = ReplayStep::Log(LogLine { level: Level::Info, text }, next);
                assert(r@ == replay_step(replay@, path@, undue));
                r
            },
        },
        Stage::Reading(reader) => {
            let mut reader = reader;
            let ghost before = reader.input();
            let n: usize = events_count + 1;
            match reader.next(decode) {
                Step::NeedInput => {
                    let next = Replay { stage: Stage::Reading(reader), events_count };
                    let r = ReplayStep::NeedInput(next);
                    assert(r@ == replay_step(replay@, path@, undue));
                    r
                },
                Step::Ready(None) => {
                    let r = ReplayStep::Finished(Ok(events_count));
                    assert(r@ == replay_step(replay@, path@, undue));
                    r
                },
                Step::Ready(Some(Err(error))) => {
                    let r = ReplayStep::Finished(Err(ReplayFileError::at_event(n, error)));
                    proof {
                        match frame_step(before).0 {
                            Step::Ready(Ok(Some(frame))) => {
                                let decoded = choose|decoded: Result<Event, String>|
                                    #[trigger] decodes(*decode, frame.payload, decoded)
                                        && (decoded matches Err(text) && error@
                                        == ReadFault::Decode(text@));
                                assert(r@ == replay_step(replay@, path@, decoded));
                            },
                            _ => {
                                assert(r@ == replay_step(replay@, path@, undue));
                            },
                        }
                    }
                    r
                },
                Step::Ready(Some(Ok(event))) => {
                    let line = event_log_line(path, n, &event);
                    let next = Replay { stage: Stage::Reading(reader), events_count: n };
                    let r = ReplayStep::Log(line, next);
                    proof {
                        let decoded = Ok::<Event, String>(event);
                        assert(r@ == replay_step(replay@, path@, decoded));
                    }
                    r
                },
            }
        },
    }
}

/// The log lines of the replay of the archive at `path` up to its end, and how it
/// ends, where the messages in it decode to `decoded`, one after the other.
#[verifier::opaque]
pub open spec fn replay_all(
    replay: ReplayView,
    path: Seq<char>,
    decoded: Seq<Result<Event, String>>,
) -> (Seq<LogView>, Result<nat, ReplayFault>)
    decreases replay.input.unread.len(),
    when replay.input.end is Some
    via replay_all_decreases
{
    match replay_step(replay, path, decoded[0]) {
        ReplayStepView::Log(line, next) => {
            let (lines, end) = replay_all(
                next,
                path,
                if replay.opened {
                    decoded.skip(1)
                } else {
                    decoded
                },
            );
            (seq![line] + lines, end)
        },
        ReplayStepView::Finished(end) => (Seq::empty(), end),
        ReplayStepView::NeedInput(_) => arbitrary(),
    }
}

#[via_fn]
proof fn replay_all_decreases(
    replay: ReplayView,
    path: Seq<char>,
    decoded: Seq<Result<Event, String>>,
) {
    law_size_is_what_was_read(replay.input);
}

/// The log lines of several events from number `n` on.
pub open spec fn event_logs(path: Seq<char>, n: nat, events: Seq<Event>) -> Seq<LogView> {
    events.map(|i: int, event: Event| event_log(path, (n + i) as nat, event))
}

/// A replay whose input has ended never asks for more of it.
pub proof fn law_replay_comes_to_an_end(
    replay: ReplayView,
    path: Seq<char>,
    decoded: Result<Event, String>,
)
    requires
        replay.input.end is Some,
    ensures
        !(replay_step(replay, path, decoded) is NeedInput),
        replay_step(replay, path, decoded) matches ReplayStepView::Log(_, next)
            ==> next.input.end is Some && next.input.unread.len() < replay.input.unread.len(),
{
    law_no_input_is_asked_for_behind_the_end(replay.input);
    law_size_is_what_was_read(replay.input);
}

proof fn lemma_replay_event(
    payload: Seq<u8>,
    event: Event,
    rest: Seq<u8>,
    count: nat,
    path: Seq<char>,
    decoded: Seq<Result<Event, String>>,
)
    requires
        payload.len() <= usize::MAX,
        count < usize::MAX,
        decoded.len() > 0,
        decoded[0] == Ok::<Event, String>(event),
    ensures
        ({
            let (lines, end) = replay_all(reading(rest, count + 1), path, decoded.skip(1));
            replay_all(reading(framed(payload) + rest, count), path, decoded) == (
                seq![event_log(path, count + 1, event)] + lines,
                end,
            )
        }),
{
    reveal_with_fuel(replay_all, 1);
    law_message_round_trip(payload, rest, Some(End::Eof));
    assert(replay_step(reading(framed(payload) + rest, count), path, decoded[0])
        == ReplayStepView::Log(event_log(path, count + 1, event), reading(rest, count + 1)));
}

/// Events in front of `tail` are replayed one after the other, and then `tail` is.
pub proof fn lemma_replay_events(
    payloads: Seq<Seq<u8>>,
    events: Seq<Event>,
    tail: Seq<u8>,
    count: nat,
    path: Seq<char>,
    more: Seq<Result<Event, String>>,
)
    requires
        payloads.len() == events.len(),
        count + payloads.len() <= usize::MAX,
        forall|i: int| 0 <= i < payloads.len() ==> #[trigger] payloads[i].len() <= usize::MAX,
    ensures
        ({
            let (lines, end) = replay_all(
                reading(tail, count + payloads.len()),
                path,
                more,
            );
            replay_all(
                reading(framed_all(payloads) + tail, count),
                path,
                events.map_values(|event: Event| Ok::<Event, String>(event)) + more,
            ) == (event_logs(path, count + 1, events) + lines, end)
        }),
    decreases payloads.len(),
{
    let ok = |event: Event| Ok::<Event, String>(event);
    let decoded = events.map_values(ok) + more;
    let (lines, end) = replay_all(reading(tail, count + payloads.len()), path, more);
    if payloads.len() == 0 {
        assert(framed_all(payloads) + tail =~= tail);
        assert(decoded =~= more);
        assert(event_logs(path, count + 1, events) + lines =~= lines);
    } else {
        assert forall|i: int| 0 <= i < payloads.skip(1).len() implies #[trigger] payloads.skip(
            1,
        )[i].len() <= usize::MAX by {
            assert(payloads.skip(1)[i] == payloads[i + 1]);
        }
        lemma_replay_events(payloads.skip(1), events.skip(1), tail, count + 1, path, more);
        let rest = framed_all(payloads.skip(1)) + tail;
        assert(framed_all(payloads) + tail =~= framed(payloads[0]) + rest);
        assert(decoded[0] == ok(events[0]));
        assert(decoded.skip(1) =~= events.skip(1).map_values(ok) + more);
        lemma_replay_event(payloads[0], events[0], rest, count, path, decoded);
        assert(event_logs(path, count + 1, events) + lines =~= seq![
            event_log(path, count + 1, events[0]),
        ] + (event_logs(path, count + 2, events.skip(1)) + lines));
    }
}

/// The replay of an archive that has read its header and `count` events, with
/// `unread` behind them up to the end of the data.
pub open spec fn reading(unread: Seq<u8>, count: nat) -> ReplayView {
    ReplayView {
        opened: true,
        input: InputView { unread, end: Some(End::Eof) },
        events_count: count,
    }
}

/// The replay of an archive of which all bytes were read and none was used yet.
pub open spec fn unopened(unread: Seq<u8>) -> ReplayView {
    ReplayView {
        opened: false,
        input: InputView { unread, end: Some(End::Eof) },
        events_count: 0,
    }
}

/// The replay of an archive that was written with a header and some events shows
/// the header and then every event under its number, a warning in place of one
/// that cannot be shown, and ends with the number of events.
pub proof fn law_replay_shows_every_event(
    header: ArchiveHeader,
    payloads: Seq<Seq<u8>>,
    events: Seq<Event>,
    path: Seq<char>,
)
    requires
        payloads.len() == events.len(),
        payloads.len() <= usize::MAX,
        forall|i: int| 0 <= i < payloads.len() ==> #[trigger] payloads[i].len() <= usize::MAX,
    ensures
        replay_all(
            unopened(framed(header_payload(header)) + framed_all(payloads)),
            path,
            events.map_values(|event: Event| Ok::<Event, String>(event)),
        ) == (
            seq![LogView { level: Level::Info, text: "header: "@ + header_text(header) }]
                + event_logs(path, 1, events),
            Ok::<nat, ReplayFault>(payloads.len()),
        ),
{
    let ok = |event: Event| Ok::<Event, String>(event);
    let none = Seq::<Result<Event, String>>::empty();
    let end = Seq::<u8>::empty();
    reveal_with_fuel(replay_all, 1);
    law_archive_header_round_trip(header, framed_all(payloads), Some(End::Eof));
    law_clean_end_is_at_a_boundary(reading(end, payloads.len()).input);
    lemma_replay_events(payloads, events, end, 0, path, none);
    assert(framed_all(payloads) + end =~= framed_all(payloads));
    assert(events.map_values(ok) + none =~= events.map_values(ok));
    assert(event_logs(path, 1, events) + Seq::<LogView>::empty() =~= event_logs(path, 1, events));
}

/// The replay of an archive that is cut off inside an event shows everything in
/// front of that event, and ends with an unexpected end at its number.
pub proof fn law_cut_archive_is_replayed_up_to_the_cut(
    header: ArchiveHeader,
    payloads: Seq<Seq<u8>>,
    events: Seq<Event>,
    cut: Seq<u8>,
    k: nat,
    path: Seq<char>,
)
    requires
        payloads.len() == events.len(),
        payloads.len() < usize::MAX,
        forall|i: int| 0 <= i < payloads.len() ==> #[trigger] payloads[i].len() <= usize::MAX,
        cut.len() <= usize::MAX,
        0 < k < framed(cut).len(),
    ensures
        ({
            let (lines, end) = replay_all(
                unopened(
                    framed(header_payload(header)) + (framed_all(payloads) + framed(cut).take(
                        k as int,
                    )),
                ),
                path,
                events.map_values(|event: Event| Ok::<Event, String>(event)),
            );
            &&& lines == seq![
                LogView { level: Level::Info, text: "header: "@ + header_text(header) },
            ] + event_logs(path, 1, events)
            &&& end matches Err(ReplayFault::UnexpectedEof { event_number, .. }) && event_number
                == payloads.len() + 1
        }),
{
    let ok = |event: Event| Ok::<Event, String>(event);
    let none = Seq::<Result<Event, String>>::empty();
    let tail = framed(cut).take(k as int);
    reveal_with_fuel(replay_all, 1);
    law_archive_header_round_trip(header, framed_all(payloads) + tail, Some(End::Eof));
    law_cut_message_is_an_unexpected_eof(cut, k);
    lemma_replay_events(payloads, events, tail, 0, path, none);
    assert(events.map_values(ok) + none =~= events.map_values(ok));
    assert(event_logs(path, 1, events) + Seq::<LogView>::empty() =~= event_logs(path, 1, events));
}

/// How far the replay of several files has come.
#[derive(Clone, Copy, Debug, PartialEq, Eq, Structural)]
pub struct Run {
    /// The file that is next, or under way.
    pub index: usize,
    /// Whether the name of that file was logged.
    pub announced: bool,
    /// Whether a file could not be replayed.
    pub had_error: bool,
}

/// What comes next in the replay of several files.
#[derive(Debug, PartialEq, Eq)]
pub enum RunAction {
    /// A line goes to the log.
    Log(LogLine),
    /// The file with this index is to be replayed, and its outcome handed in.
    Replay(usize),
    /// All files were replayed; whether one of them could not be.
    Done(bool),
}

/// A `RunAction` with its text as a character sequence.
pub enum RunActionView {
    Log(LogView),
    Replay(nat),
    Done(bool),
}

impl View for RunAction {
    type V = RunActionView;

    open spec fn view(&self) -> RunActionView {
        match *self {
            RunAction::Log(line) => RunActionView::Log(line@),
            RunAction::Replay(index) => RunActionView::Replay(index as nat),
            RunAction::Done(had_error) => RunActionView::Done(had_error),
        }
    }
}

/// The log line on how the replay of the file at `path` ended.
pub open spec fn outcome_log(path: Seq<char>, outcome: Result<usize, ReplayFileError>) -> LogView {
    match outcome {
        Ok(count) => LogView {
            level: Level::Info,
            text: "total: "@ + decimal(count as nat) + " events"@,
        },
        Err(error) => LogView { level: Level::Error, text: replay_fault_text(error@, path) },
    }
}

/// What comes next in the replay of the files at `paths`, and how far it has come
/// then. Where there are several files, each is announced by its name; the outcome
/// of each is logged, and a failure does not keep the next file from being
/// replayed.
pub open spec fn run_step(
    state: Run,
    paths: Seq<String>,
    outcome: Option<Result<usize, ReplayFileError>>,
) -> (Run, RunActionView) {
    match outcome {
        Some(ended) => (
            Run {
                index: (state.index + 1) as usize,
                announced: false,
                had_error: state.had_error || ended is Err,
            },
            RunActionView::Log(outcome_log(paths[state.index as int]@, ended)),
        ),
        None => if state.index >= paths.len() {
            (state, RunActionView::Done(state.had_error))
        } else if paths.len() > 1 && !state.announced {
            (
                Run { announced: true, ..state },
                RunActionView::Log(
                    LogView {
                        level: Level::Info,
                        text: "=== "@ + paths[state.index as int]@ + " ==="@,
                    },
                ),
            )
        } else {
            (state, RunActionView::Replay(state.index as nat))
        },
    }
}

impl Run {
    /// No file replayed yet.
    pub fn new() -> (r: Run)
        ensures
            r == (Run { index: 0, announced: false, had_error: false }),
    {
        Run { index: 0, announced: false, had_error: false }
    }
}

/// Takes the replay of the files in `args` one step further; `outcome` is that of
/// the file that was to be replayed, if one was.
pub fn run(state: &mut Run, args: &Args, outcome: Option<Result<usize, ReplayFileError>>) -> (r:
    RunAction)
    requires
        outcome is Some ==> old(state).index < args.files@.len(),
    ensures
        r@ == run_step(*old(state), args.files@, outcome).1,
        *final(state) == run_step(*old(state), args.files@, outcome).0,
{
    match outcome {
        Some(ended) => {
            let path: &str = args.files[state.index].as_str();
            let line = match &ended {
                Ok(count) => {
                    let mut text = String::new();
                    text.append("total: ");
                    push_decimal(&mut text, *count as u64);
                    text.append(" events");
                    assert(text@ =~= "total: "@ + decimal(*count as nat) + " events"@);
                    LogLine { level: Level::Info, text }
                },
                Err(error) => LogLine { level: Level::Error, text: error.to_text(path) },
            };
            assert(state.index < args.files.len());
            state.index = state.index + 1;
            state.announced = false;
            state.had_error = state.had_error || ended.is_err();
            RunAction::Log(line)
        },
        None => {
            if state.index >= args.files.len() {
                RunAction::Done(state.had_error)
            } else if args.files.len() > 1 && !state.announced {
                let mut text = String::new();
                text.append("=== ");
                text.append(args.files[state.index].as_str());
                text.append(" ===");
                assert(text@ =~= "=== "@ + args.files@[state.index as int]@ + " ==="@);
                state.announced = true;
                RunAction::Log(LogLine { level: Level::Info, text })
            } else {
                RunAction::Replay(state.index)
            }
        },
    }
}

/// How far the replay of several files has come once the first of them have ended
/// with `outcomes`.
pub open spec fn run_after(
    paths: Seq<String>,
    outcomes: Seq<Result<usize, ReplayFileError>>,
) -> Run
    decreases outcomes.len(),
{
    if outcomes.len() == 0 {
        Run { index: 0, announced: false, had_error: false }
    } else {
        let before = run_after(paths, outcomes.drop_last());
        run_step(run_step(before, paths, None).0, paths, Some(outcomes.last())).0
    }
}

/// The replay of several files goes through all of them in order, whatever comes
/// of each, and reports an error at the end exactly if one of them failed.
pub proof fn law_run_replays_every_file(
    paths: Seq<String>,
    outcomes: Seq<Result<usize, ReplayFileError>>,
)
    requires
        outcomes.len() <= paths.len() <= usize::MAX,
    ensures
        run_after(paths, outcomes).index == outcomes.len(),
        run_after(paths, outcomes).had_error <==> exists|i: int|
            0 <= i < outcomes.len() && #[trigger] outcomes[i] is Err,
        outcomes.len() == paths.len() ==> run_step(run_after(paths, outcomes), paths, None).1
            == RunActionView::Done(run_after(paths, outcomes).had_error),
        outcomes.len() < paths.len() ==> {
            let state = run_after(paths, outcomes);
            let (next, action) = run_step(state, paths, None);
            ||| action == RunActionView::Replay(outcomes.len())
            ||| action is Log && run_step(next, paths, None).1 == RunActionView::Replay(
                outcomes.len(),
            )
        },
    decreases outcomes.len(),
{
    if outcomes.len() > 0 {
        let before = outcomes.drop_last();
        law_run_replays_every_file(paths, before);
        let state = run_after(paths, outcomes);
        let earlier = run_after(paths, before);
        assert(state.had_error <==> earlier.had_error || outcomes.last() is Err);
        if earlier.had_error {
            let i = choose|i: int| 0 <= i < before.len() && #[trigger] before[i] is Err;
            assert(outcomes[i] is Err);
        }
        if outcomes.last() is Err {
            assert(outcomes[outcomes.len() - 1] is Err);
        }
        if exists|i: int| 0 <= i < outcomes.len() && #[trigger] outcomes[i] is Err {
            let i = choose|i: int| 0 <= i < outcomes.len() && #[trigger] outcomes[i] is Err;
            if i < before.len() {
                assert(before[i] is Err);
            }
        }
    }
}

} // verus!
