//! What holds of archives as a whole: what was written is read back, however the
//! reads cut it up, and every byte is accounted for.
use crate::archive::header::{
    decoded_header, header_payload, law_header_round_trip, ArchiveHeader,
};
use crate::archive::input::{End, ErrorKind, InputView, IoFault};
use crate::archive::read::{
    decodes, decodes_alike, delimiter_extent, delimiter_step, event_outcome, event_step, fault_kind, fault_text,
    frame_step, message_result, message_step, open_step, record_outcome, step_outcome, without_size,
    ArchiveRecord, Frame, FrameSize, ReadError, ReadFault, Step,
};
use crate::event::Event;
use crate::wire::{
    base128, continuation_run, framed, framed_all, law_varint_round_trip, lemma_continuation_run,
    lemma_continuation_run_is, lemma_varint_prefix, lemma_varint_shape, parse_length, varint,
    MAX_VARINT_BYTES,
};
use vstd::prelude::*;

verus! {

/// The size of a message that is written with the shortest length delimiter.
pub open spec fn written_size(payload: Seq<u8>) -> FrameSize {
    FrameSize {
        protobuf_bytes: payload.len() as usize,
        delimiter_bytes: varint(payload.len()).len() as usize,
    }
}

/// All messages in `input` up to its end or to the first failure, and that
/// failure.
pub open spec fn all_frames(input: InputView) -> (Seq<Frame>, Option<ReadFault>)
    decreases input.unread.len(),
    when input.end is Some
    via all_frames_decreases
{
    match frame_step(input) {
        (Step::Ready(Ok(Some(frame))), rest) => {
            let (frames, fault) = all_frames(rest);
            (seq![frame] + frames, fault)
        },
        (Step::Ready(Err(fault)), _) => (Seq::empty(), Some(fault)),
        _ => (Seq::empty(), None),
    }
}

#[via_fn]
proof fn all_frames_decreases(input: InputView) {
    lemma_delimiter_extent(input.unread);
}

/// The bytes of several messages with their length delimiters.
pub open spec fn total_bytes(frames: Seq<Frame>) -> nat
    decreases frames.len(),
{
    if frames.len() == 0 {
        0
    } else {
        (frames[0].size.protobuf_bytes + frames[0].size.delimiter_bytes) as nat + total_bytes(
            frames.skip(1),
        )
    }
}

proof fn lemma_delimiter_extent(s: Seq<u8>)
    ensures
        delimiter_extent(s) matches Some(n) ==> 1 <= n <= s.len() && n <= MAX_VARINT_BYTES,
{
    lemma_continuation_run(s);
}

/// A message that was written is read back with its size, and reading stops where
/// it ends, whatever follows it and whether or not the data ends there.
pub proof fn law_message_round_trip(payload: Seq<u8>, rest: Seq<u8>, end: Option<End>)
    requires
        payload.len() <= usize::MAX,
    ensures
        frame_step(InputView { unread: framed(payload) + rest, end }) == (
            Step::Ready(
                Ok::<Option<Frame>, ReadFault>(
                    Some(Frame { payload, size: written_size(payload) }),
                ),
            ),
            InputView { unread: rest, end },
        ),
{
    let s = framed(payload) + rest;
    let v = varint(payload.len());
    lemma_varint_shape(payload.len());
    assert(s =~= v + (payload + rest));
    lemma_varint_prefix(v, payload + rest);
    let n = v.len();
    assert(delimiter_extent(s) == Some(n));
    assert(s.take(n as int) =~= v + Seq::<u8>::empty());
    law_varint_round_trip(payload.len() as u64, Seq::empty());
    assert(s.skip(n as int) =~= payload + rest);
    assert((payload + rest).take(payload.len() as int) =~= payload);
    assert((payload + rest).skip(payload.len() as int) =~= rest);
}

/// Whatever can be read from the bytes that are there is read in the same way when
/// more bytes follow: a message may arrive cut up into any number of reads.
pub proof fn law_reads_may_split_messages(unread: Seq<u8>, more: Seq<u8>, end: Option<End>)
    ensures
        frame_step(InputView { unread, end: None }).0 is NeedInput || (frame_step(
            InputView { unread: unread + more, end },
        ) == (
            frame_step(InputView { unread, end: None }).0,
            InputView { unread: frame_step(InputView { unread, end: None }).1.unread + more, end },
        )),
{
    let v = InputView { unread, end: None };
    let w = InputView { unread: unread + more, end };
    lemma_delimiter_extent(unread);
    if let Some(n) = delimiter_extent(unread) {
        lemma_continuation_run(unread);
        lemma_continuation_run(unread + more);
        if continuation_run(unread) < MAX_VARINT_BYTES {
            lemma_varint_prefix(unread, more);
        } else if continuation_run(unread + more) < MAX_VARINT_BYTES {
            assert((unread + more)[continuation_run(unread + more) as int] >= 0x80);
        }
        assert(delimiter_extent(unread + more) == Some(n));
        assert((unread + more).take(n as int) =~= unread.take(n as int));
        assert((unread + more).skip(n as int) =~= unread.skip(n as int) + more);
        let rest = unread.skip(n as int);
        match parse_length(unread.take(n as int)) {
            Ok((length, _)) => {
                if length <= rest.len() {
                    assert((rest + more).take(length as int) =~= rest.take(length as int));
                    assert((rest + more).skip(length as int) =~= rest.skip(length as int) + more);
                }
            },
            Err(_) => {},
        }
    }
}

/// More input is asked for only before the end of the data was seen.
pub proof fn law_no_input_is_asked_for_behind_the_end(input: InputView)
    requires
        input.end is Some,
    ensures
        !(frame_step(input).0 is NeedInput),
{
}

/// An archive ends cleanly exactly where its data ends at a message boundary.
pub proof fn law_clean_end_is_at_a_boundary(input: InputView)
    ensures
        frame_step(input).0 == Step::Ready(Ok::<Option<Frame>, ReadFault>(None)) <==> (
        input.unread.len() == 0 && input.end == Some(End::Eof)),
{
    lemma_delimiter_extent(input.unread);
}

/// The size of a message is that of its bytes: the payload's, and those of the
/// length delimiter that was there, from one to ten.
pub proof fn law_size_is_what_was_read(input: InputView)
    ensures
        frame_step(input) matches (Step::Ready(Ok(Some(frame))), rest) ==> {
            &&& frame.size.protobuf_bytes == frame.payload.len()
            &&& 1 <= frame.size.delimiter_bytes <= MAX_VARINT_BYTES
            &&& input.unread.len() == frame.size.protobuf_bytes + frame.size.delimiter_bytes
                + rest.unread.len()
            &&& input.unread == input.unread.take(frame.size.delimiter_bytes as int)
                + frame.payload + rest.unread
            &&& rest.end == input.end
        },
{
    lemma_delimiter_extent(input.unread);
    if let (Step::Ready(Ok(Some(frame))), rest) = frame_step(input) {
        let n = frame.size.delimiter_bytes as int;
        assert(input.unread =~= input.unread.take(n) + frame.payload + rest.unread);
    }
}

/// However it goes on, no more than ten bytes are taken for a length delimiter, and
/// no further read is needed to see whether they are one.
pub proof fn law_delimiter_takes_at_most_ten_bytes(s: Seq<u8>)
    ensures
        delimiter_extent(s) matches Some(n) ==> 1 <= n <= s.len() && n <= 10,
        s.len() >= 10 ==> delimiter_extent(s) is Some,
{
    lemma_continuation_run(s);
}

/// Data that ends inside a message, be it in the length delimiter or behind it, is
/// reported as an unexpected end.
pub proof fn law_cut_message_is_an_unexpected_eof(payload: Seq<u8>, k: nat)
    requires
        payload.len() <= usize::MAX,
        0 < k < framed(payload).len(),
    ensures
        frame_step(
            InputView { unread: framed(payload).take(k as int), end: Some(End::Eof) },
        ).0 matches Step::Ready(Err(fault)) && fault_kind(fault) == ErrorKind::UnexpectedEof
            && fault == (if k < varint(payload.len()).len() {
            ReadFault::TruncatedDelimiter
        } else {
            ReadFault::TruncatedMessage
        }),
{
    let v = varint(payload.len());
    let cut = framed(payload).take(k as int);
    lemma_varint_shape(payload.len());
    lemma_continuation_run(v);
    if k < v.len() {
        assert forall|i: int| 0 <= i < k implies cut[i] >= 0x80 by {
            assert(cut[i] == v[i]);
        }
        lemma_continuation_run_is(cut, k);
    } else {
        let part = payload.take(k - v.len());
        assert(cut =~= v + part);
        lemma_varint_prefix(v, part);
        assert(cut.take(v.len() as int) =~= v + Seq::<u8>::empty());
        law_varint_round_trip(payload.len() as u64, Seq::empty());
        assert(cut.skip(v.len() as int) =~= part);
    }
}

/// A length delimiter need not be the shortest: one that pads a length with
/// further zero digits gives the same length, and its bytes are counted as they
/// are.
pub proof fn law_padded_delimiter_gives_the_same_length(
    delimiter: Seq<u8>,
    payload: Seq<u8>,
    rest: Seq<u8>,
    end: Option<End>,
)
    requires
        1 <= delimiter.len() <= MAX_VARINT_BYTES,
        continuation_run(delimiter) == delimiter.len() - 1,
        base128(delimiter) == payload.len(),
        payload.len() <= usize::MAX,
    ensures
        frame_step(InputView { unread: delimiter + payload + rest, end }) == (
            Step::Ready(
                Ok::<Option<Frame>, ReadFault>(
                    Some(
                        Frame {
                            payload,
                            size: FrameSize {
                                protobuf_bytes: payload.len() as usize,
                                delimiter_bytes: delimiter.len() as usize,
                            },
                        },
                    ),
                ),
            ),
            InputView { unread: rest, end },
        ),
{
    let s = delimiter + payload + rest;
    let n = delimiter.len();
    assert(s =~= delimiter + (payload + rest));
    lemma_varint_prefix(delimiter, payload + rest);
    assert(s.take(n as int) =~= delimiter);
    assert(delimiter.take(n as int) =~= delimiter);
    assert(s.skip(n as int) =~= payload + rest);
    assert((payload + rest).take(payload.len() as int) =~= payload);
    assert((payload + rest).skip(payload.len() as int) =~= rest);
}

/// What is read back of messages that were written one after the other: all of
/// them, in order, each with its size, and then a clean end.
pub proof fn law_messages_round_trip(payloads: Seq<Seq<u8>>)
    requires
        forall|i: int| 0 <= i < payloads.len() ==> #[trigger] payloads[i].len() <= usize::MAX,
    ensures
        all_frames(InputView { unread: framed_all(payloads), end: Some(End::Eof) }) == (
            payloads.map_values(|p: Seq<u8>| Frame { payload: p, size: written_size(p) }),
            None::<ReadFault>,
        ),
    decreases payloads.len(),
{
    let f = |p: Seq<u8>| Frame { payload: p, size: written_size(p) };
    let input = InputView { unread: framed_all(payloads), end: Some(End::Eof) };
    if payloads.len() == 0 {
        assert(input.unread =~= Seq::empty());
        law_clean_end_is_at_a_boundary(input);
        assert(payloads.map_values(f) =~= Seq::empty());
    } else {
        assert forall|i: int| 0 <= i < payloads.skip(1).len() implies #[trigger] payloads.skip(
            1,
        )[i].len() <= usize::MAX by {
            assert(payloads.skip(1)[i] == payloads[i + 1]);
        }
        law_messages_round_trip(payloads.skip(1));
        law_message_round_trip(payloads[0], framed_all(payloads.skip(1)), Some(End::Eof));
        assert(payloads.map_values(f) =~= seq![f(payloads[0])] + payloads.skip(1).map_values(f));
    }
}

/// The header that an archive was written with is read back, with its size, and
/// behind it are the messages that follow it.
pub proof fn law_archive_header_round_trip(
    header: ArchiveHeader,
    rest: Seq<u8>,
    end: Option<End>,
)
    ensures
        open_step(InputView { unread: framed(header_payload(header)) + rest, end }) == Step::Ready(
            Ok::<(ArchiveHeader, FrameSize, InputView), ReadFault>(
                (header, written_size(header_payload(header)), InputView { unread: rest, end }),
            ),
        ),
{
    let payload = header_payload(header);
    assert(payload.len() <= 100) by {
        lemma_varint_shape(header.created as nat);
        lemma_varint_shape(8);
        lemma_varint_shape(16);
        lemma_varint_shape(1);
        lemma_varint_shape(0);
    }
    law_message_round_trip(payload, rest, end);
    law_header_round_trip(header);
}

/// Where equal bytes decode alike, what comes of reading a message depends on the
/// input alone.
pub proof fn law_message_is_read_in_one_way<M, D: Fn(&[u8]) -> Result<M, String>>(
    decode: D,
    input: InputView,
    a: Step<Result<Option<(M, FrameSize)>, ReadFault>>,
    b: Step<Result<Option<(M, FrameSize)>, ReadFault>>,
)
    requires
        decodes_alike::<M, D>(decode),
        message_step(decode, input, a),
        message_step(decode, input, b),
    ensures
        a == b,
{
    if let Step::Ready(Ok(Some(frame))) = frame_step(input).0 {
        let x = choose|x: Result<M, String>|
            #[trigger] decodes(decode, frame.payload, x) && a == Step::Ready(
                message_result(x, frame.size),
            );
        let y = choose|y: Result<M, String>|
            #[trigger] decodes(decode, frame.payload, y) && b == Step::Ready(
                message_result(y, frame.size),
            );
        assert(decodes(decode, frame.payload, x) && decodes(decode, frame.payload, y));
    }
}

/// Reading the next event and reading the next record agree, call by call, where
/// equal bytes decode alike: both need input, both come to the end, both give the
/// same event, or both fail in the same way. Both leave the same behind, which
/// depends on the input alone.
pub proof fn law_events_are_records_without_size<D: Fn(&[u8]) -> Result<Event, String>>(
    decode: D,
    input: InputView,
    event: Step<Option<Result<Event, ReadError>>>,
    record: Step<Option<Result<ArchiveRecord, ReadError>>>,
)
    requires
        decodes_alike::<Event, D>(decode),
        event_step(decode, input, event),
        message_step(decode, input, record_outcome(record)),
    ensures
        event_outcome(event) == event_outcome(without_size(record)),
{
    let behind = choose|behind: Step<Option<Result<ArchiveRecord, ReadError>>>|
        #[trigger] message_step(decode, input, record_outcome(behind)) && event == without_size(
            behind,
        );
    law_message_is_read_in_one_way(
        decode,
        input,
        record_outcome(behind),
        record_outcome(record),
    );
}

/// A read that fails before a message is there in full is reported as it failed,
/// however much of the message came before.
pub proof fn law_failed_read_is_reported(payload: Seq<u8>, k: nat, fault: IoFault)
    requires
        payload.len() <= usize::MAX,
        k < framed(payload).len(),
    ensures
        frame_step(
            InputView { unread: framed(payload).take(k as int), end: Some(End::Failed(fault)) },
        ).0 == Step::Ready(Err::<Option<Frame>, ReadFault>(ReadFault::Io(fault))),
{
    let v = varint(payload.len());
    let cut = framed(payload).take(k as int);
    lemma_varint_shape(payload.len());
    lemma_continuation_run(v);
    if k < v.len() {
        assert forall|i: int| 0 <= i < k implies cut[i] >= 0x80 by {
            assert(cut[i] == v[i]);
        }
        lemma_continuation_run_is(cut, k);
    } else {
        let part = payload.take(k - v.len());
        assert(cut =~= v + part);
        lemma_varint_prefix(v, part);
        assert(cut.take(v.len() as int) =~= v + Seq::<u8>::empty());
        law_varint_round_trip(payload.len() as u64, Seq::empty());
        assert(cut.skip(v.len() as int) =~= part);
    }
}

/// Ten bytes with their continuation bit set are no length delimiter. They are
/// refused, and what follows them is left.
pub proof fn law_overlong_delimiter_is_refused(s: Seq<u8>, end: Option<End>)
    requires
        s.len() >= 10,
        forall|i: int| 0 <= i < 10 ==> #[trigger] s[i] >= 0x80,
    ensures
        frame_step(InputView { unread: s, end }) == (
            Step::Ready(
                Err::<Option<Frame>, ReadFault>(
                    ReadFault::Delimiter("failed to decode Protobuf message: "@ + "invalid varint"@),
                ),
            ),
            InputView { unread: s.skip(10), end },
        ),
{
    lemma_continuation_run(s);
    if continuation_run(s) < 10 {
        assert(s[continuation_run(s) as int] >= 0x80);
    }
    lemma_continuation_run_is(s.take(10), 10);
}

/// A message that was written and decodes to `message` is read as that message, with
/// the bytes that it takes and those of its length delimiter.
pub proof fn law_message_is_what_was_decoded<M, D: Fn(&[u8]) -> Result<M, String>>(
    decode: D,
    payload: Seq<u8>,
    message: M,
    rest: Seq<u8>,
    end: Option<End>,
    r: Step<Result<Option<(M, FrameSize)>, ReadFault>>,
)
    requires
        payload.len() <= usize::MAX,
        forall|decoded: Result<M, String>| #[trigger]
            decodes(decode, payload, decoded) ==> decoded == Ok::<M, String>(message),
        message_step(decode, InputView { unread: framed(payload) + rest, end }, r),
    ensures
        r == Step::Ready(
            Ok::<Option<(M, FrameSize)>, ReadFault>(
                Some(
                    (
                        message,
                        FrameSize {
                            protobuf_bytes: payload.len() as usize,
                            delimiter_bytes: varint(payload.len()).len() as usize,
                        },
                    ),
                ),
            ),
        ),
{
    law_message_round_trip(payload, rest, end);
}

/// A message that was written and does not decode is an error, with the description
/// that decoding gave.
pub proof fn law_message_that_does_not_decode_is_an_error<M, D: Fn(&[u8]) -> Result<M, String>>(
    decode: D,
    payload: Seq<u8>,
    description: Seq<char>,
    rest: Seq<u8>,
    end: Option<End>,
    r: Step<Result<Option<(M, FrameSize)>, ReadFault>>,
)
    requires
        payload.len() <= usize::MAX,
        forall|decoded: Result<M, String>| #[trigger]
            decodes(decode, payload, decoded) ==> (decoded matches Err(text) && text@
                == description),
        message_step(decode, InputView { unread: framed(payload) + rest, end }, r),
    ensures
        r == Step::Ready(
            Err::<Option<(M, FrameSize)>, ReadFault>(ReadFault::Decode(description)),
        ),
{
    law_message_round_trip(payload, rest, end);
}

/// Data without any message has no header, which is an error of its own.
pub proof fn law_empty_archive_has_no_header()
    ensures
        open_step(InputView { unread: Seq::empty(), end: Some(End::Eof) }) == Step::Ready(
            Err::<(ArchiveHeader, FrameSize, InputView), ReadFault>(ReadFault::MissingHeader),
        ),
{
    law_clean_end_is_at_a_boundary(InputView { unread: Seq::empty(), end: Some(End::Eof) });
}

/// A record is a message with its size, and an event is a record without it; neither
/// changes the event, the size, or the error.
pub proof fn law_records_and_events_are_messages(event: Event, size: FrameSize, error: ReadError)
    ensures
        record_outcome(Step::Ready(Some(Ok(ArchiveRecord { event, size })))) == Step::Ready(
            Ok::<Option<(Event, FrameSize)>, ReadFault>(Some((event, size))),
        ),
        record_outcome(Step::Ready(Some(Err(error)))) == Step::Ready(
            Err::<Option<(Event, FrameSize)>, ReadFault>(error@),
        ),
        record_outcome(Step::Ready(None)) == Step::Ready(
            Ok::<Option<(Event, FrameSize)>, ReadFault>(None),
        ),
        record_outcome(Step::NeedInput) is NeedInput,
        without_size(Step::Ready(Some(Ok(ArchiveRecord { event, size })))) == Step::Ready(
            Some(Ok::<Event, ReadError>(event)),
        ),
        without_size(Step::Ready(Some(Err(error)))) == Step::Ready(
            Some(Err::<Event, ReadError>(error)),
        ),
        without_size(Step::Ready(None)) == Step::Ready(None::<Result<Event, ReadError>>),
        without_size(Step::NeedInput) is NeedInput,
        step_outcome(Step::Ready(Ok::<Event, ReadError>(event))) == Step::Ready(
            Ok::<Event, ReadFault>(event),
        ),
        step_outcome(Step::Ready(Err::<Event, ReadError>(error))) == Step::Ready(
            Err::<Event, ReadFault>(error@),
        ),
        step_outcome(Step::<Result<Event, ReadError>>::NeedInput) is NeedInput,
{
}

/// A failed read keeps its kind and its description; data that ends too early is of
/// the kind `UnexpectedEof`, and what does not decode of the kind `Other`, with the
/// description that decoding gave.
pub proof fn law_errors_keep_their_kind_and_text(fault: IoFault, text: String)
    ensures
        fault_kind(ReadError::Io(fault)@) == fault.kind,
        fault_text(ReadError::Io(fault)@) == fault.message@,
        fault_kind(ReadError::Delimiter(text)@) == ErrorKind::Other,
        fault_text(ReadError::Delimiter(text)@) == text@,
        fault_kind(ReadError::Decode(text)@) == ErrorKind::Other,
        fault_text(ReadError::Decode(text)@) == text@,
        fault_kind(ReadError::TruncatedDelimiter@) == ErrorKind::UnexpectedEof,
        fault_text(ReadError::TruncatedDelimiter@) == "unexpected end of file"@,
        fault_kind(ReadError::TruncatedMessage@) == ErrorKind::UnexpectedEof,
        fault_text(ReadError::TruncatedMessage@) == "failed to fill whole buffer"@,
        fault_kind(ReadError::MissingHeader@) == ErrorKind::Other,
        fault_text(ReadError::MissingHeader@) == "missing header"@,
{
}

/// What a message decodes to is what one call of `decode` on its bytes gives.
pub proof fn law_decoding_is_one_call<M, D: Fn(&[u8]) -> Result<M, String>>(
    decode: D,
    payload: Seq<u8>,
    decoded: Result<M, String>,
)
    ensures
        decodes(decode, payload, decoded) <==> exists|bytes: &[u8]|
            bytes@ == payload && #[trigger] call_ensures(decode, (bytes,), decoded),
{
}

/// A length delimiter that was written is read back, with its bytes, and what follows it
/// is left.
pub proof fn law_delimiter_round_trip(length: usize, rest: Seq<u8>, end: Option<End>)
    ensures
        delimiter_step(InputView { unread: varint(length as nat) + rest, end }) == (
            Step::Ready(
                Ok::<Option<(usize, usize)>, ReadFault>(
                    Some((length, varint(length as nat).len() as usize)),
                ),
            ),
            InputView { unread: rest, end },
        ),
{
    let v = varint(length as nat);
    lemma_varint_shape(length as nat);
    lemma_varint_prefix(v, rest);
    assert((v + rest).take(v.len() as int) =~= v + Seq::<u8>::empty());
    law_varint_round_trip(length as u64, Seq::empty());
    assert((v + rest).skip(v.len() as int) =~= rest);
}

/// A header message that does not decode is an error, with the description that decoding
/// gave; one that does gives the header, with its size.
pub proof fn law_first_message_is_the_header(payload: Seq<u8>, rest: Seq<u8>, end: Option<End>)
    requires
        payload.len() <= usize::MAX,
    ensures
        open_step(InputView { unread: framed(payload) + rest, end }) == Step::Ready(
            match decoded_header(payload) {
                Ok(header) => Ok::<(ArchiveHeader, FrameSize, InputView), ReadFault>(
                    (header, written_size(payload), InputView { unread: rest, end }),
                ),
                Err(description) => Err(ReadFault::Decode(description)),
            },
        ),
{
    law_message_round_trip(payload, rest, end);
}

/// In an archive that ends cleanly the messages with their length delimiters make
/// up every byte.
pub proof fn law_sizes_add_up(input: InputView)
    requires
        input.end is Some,
    ensures
        all_frames(input).1 is None ==> total_bytes(all_frames(input).0) == input.unread.len(),
    decreases input.unread.len(),
{
    law_size_is_what_was_read(input);
    law_clean_end_is_at_a_boundary(input);
    if let (Step::Ready(Ok(Some(frame))), rest) = frame_step(input) {
        law_sizes_add_up(rest);
        let (frames, _) = all_frames(rest);
        assert((seq![frame] + frames).skip(1) =~= frames);
    }
}

} // verus!
