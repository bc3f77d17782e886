//! Reading an archive message by message.
use crate::archive::header::{decoded_header, ArchiveHeader};
use crate::archive::input::{fed, End, ErrorKind, Input, InputView, IoFault, ReadEvent};
use crate::event::Event;
use crate::wire::{
    continuation_run, decode_length, lemma_continuation_run, lemma_continuation_run_is,
    parse_length, MAX_VARINT_BYTES,
};
use vstd::prelude::*;
use vstd::slice::slice_subrange;

verus! {

/// The original uncompressed bytes of a message in an archive, including unknown
/// fields and the actual length delimiter (which need not use its shortest
/// encoding).
#[derive(Clone, Copy, Debug, PartialEq, Eq, Structural)]
pub struct FrameSize {
    pub protobuf_bytes: usize,
    pub delimiter_bytes: usize,
}

impl FrameSize {
    /// Whether the bytes of the message and of its length delimiter can be added
    /// up; so it is for every message that was read.
    pub open spec fn fits(self) -> bool {
        self.protobuf_bytes + self.delimiter_bytes <= usize::MAX
    }

    /// The bytes of the message together with its length delimiter.
    pub fn framed_bytes(&self) -> (r: usize)
        requires
            self.fits(),
        ensures
            r == self.protobuf_bytes + self.delimiter_bytes,
    {
        self.protobuf_bytes + self.delimiter_bytes
    }
}

/// What comes of an attempt that may need more input first.
#[derive(Debug, PartialEq, Eq)]
pub enum Step<T> {
    /// The attempt is done.
    Ready(T),
    /// The next read has to be made and taken in; nothing was used up.
    NeedInput,
}

/// Why a message could not be read.
#[derive(Debug, PartialEq, Eq)]
pub enum ReadError {
    /// The data ended inside a length delimiter.
    TruncatedDelimiter,
    /// The data ended inside a message.
    TruncatedMessage,
    /// The data ended before the header message.
    MissingHeader,
    /// The length delimiter does not decode, with the description of the error.
    Delimiter(String),
    /// The message does not decode, with the description of the error.
    Decode(String),
    /// A read failed.
    Io(IoFault),
}

/// A `ReadError` with its descriptions as character sequences.
pub enum ReadFault {
    TruncatedDelimiter,
    TruncatedMessage,
    MissingHeader,
    Delimiter(Seq<char>),
    Decode(Seq<char>),
    Io(IoFault),
}

impl View for ReadError {
    type V = ReadFault;

    open spec fn view(&self) -> ReadFault {
        match *self {
            ReadError::TruncatedDelimiter => ReadFault::TruncatedDelimiter,
            ReadError::TruncatedMessage => ReadFault::TruncatedMessage,
            ReadError::MissingHeader => ReadFault::MissingHeader,
            ReadError::Delimiter(text) => ReadFault::Delimiter(text@),
            ReadError::Decode(text) => ReadFault::Decode(text@),
            ReadError::Io(fault) => ReadFault::Io(fault),
        }
    }
}

/// The kind of a failure to read.
pub open spec fn fault_kind(fault: ReadFault) -> ErrorKind {
    match fault {
        ReadFault::TruncatedDelimiter => ErrorKind::UnexpectedEof,
        ReadFault::TruncatedMessage => ErrorKind::UnexpectedEof,
        ReadFault::Io(io) => io.kind,
        _ => ErrorKind::Other,
    }
}

/// The description of a failure to read.
pub open spec fn fault_text(fault: ReadFault) -> Seq<char> {
    match fault {
        ReadFault::TruncatedDelimiter => "unexpected end of file"@,
        ReadFault::TruncatedMessage => "failed to fill whole buffer"@,
        ReadFault::MissingHeader => "missing header"@,
        ReadFault::Delimiter(text) => text,
        ReadFault::Decode(text) => text,
        ReadFault::Io(io) => io.message@,
    }
}

impl ReadError {
    /// The kind of the failure.
    pub fn kind(&self) -> (r: ErrorKind)
        ensures
            r == fault_kind(self@),
    {
        match self {
            ReadError::TruncatedDelimiter => ErrorKind::UnexpectedEof,
            ReadError::TruncatedMessage => ErrorKind::UnexpectedEof,
            ReadError::Io(fault) => fault.kind,
            _ => ErrorKind::Other,
        }
    }

    /// The description of the failure.
    pub fn to_text(&self) -> (r: String)
        ensures
            r@ == fault_text(self@),
    {
        let mut text = String::new();
        match self {
            ReadError::TruncatedDelimiter => text.append("unexpected end of file"),
            ReadError::TruncatedMessage => text.append("failed to fill whole buffer"),
            ReadError::MissingHeader => text.append("missing header"),
            ReadError::Delimiter(description) => text.append(description.as_str()),
            ReadError::Decode(description) => text.append(description.as_str()),
            ReadError::Io(fault) => text.append(fault.message.as_str()),
        }
        assert(text@ =~= fault_text(self@));
        text
    }
}

/// An outcome with its error as a `ReadFault`.
pub open spec fn outcome<T>(r: Result<T, ReadError>) -> Result<T, ReadFault> {
    match r {
        Ok(value) => Ok(value),
        Err(error) => Err(error@),
    }
}

/// A step with the error in it as a `ReadFault`.
pub open spec fn step_outcome<T>(r: Step<Result<T, ReadError>>) -> Step<Result<T, ReadFault>> {
    match r {
        Step::Ready(result) => Step::Ready(outcome(result)),
        Step::NeedInput => Step::NeedInput,
    }
}

/// The bytes at the front of `s` that are taken for a length delimiter: up to
/// the first byte without continuation bit, and never more than ten. None if `s`
/// ends before.
pub open spec fn delimiter_extent(s: Seq<u8>) -> Option<nat> {
    let n = continuation_run(s);
    if n >= MAX_VARINT_BYTES {
        Some(MAX_VARINT_BYTES as nat)
    } else if n < s.len() {
        Some(n + 1)
    } else {
        None
    }
}

/// Nothing unread and no end to report.
pub open spec fn drained() -> InputView {
    InputView { unread: Seq::empty(), end: None }
}

/// How reading a length delimiter from `input` goes, and what is left of `input`
/// then: the length and the bytes of the delimiter, or nothing at the end of the
/// data.
pub open spec fn delimiter_step(input: InputView) -> (
    Step<Result<Option<(usize, usize)>, ReadFault>>,
    InputView,
) {
    match delimiter_extent(input.unread) {
        Some(n) => {
            let rest = InputView { unread: input.unread.skip(n as int), ..input };
            match parse_length(input.unread.take(n as int)) {
                Ok((length, _)) => (Step::Ready(Ok(Some((length, n as usize)))), rest),
                Err(text) => (Step::Ready(Err(ReadFault::Delimiter(text))), rest),
            }
        },
        None => match input.end {
            None => (Step::NeedInput, input),
            Some(End::Eof) => if input.unread.len() == 0 {
                (Step::Ready(Ok(None)), drained())
            } else {
                (Step::Ready(Err(ReadFault::TruncatedDelimiter)), drained())
            },
            Some(End::Failed(fault)) => (Step::Ready(Err(ReadFault::Io(fault))), drained()),
        },
    }
}

/// A message in an archive before it is decoded.
pub struct Frame {
    pub payload: Seq<u8>,
    pub size: FrameSize,
}

/// How reading a message with its length delimiter from `input` goes, and what is
/// left of `input` then.
pub open spec fn frame_step(input: InputView) -> (
    Step<Result<Option<Frame>, ReadFault>>,
    InputView,
) {
    match delimiter_step(input) {
        (Step::NeedInput, rest) => (Step::NeedInput, rest),
        (Step::Ready(Err(fault)), rest) => (Step::Ready(Err(fault)), rest),
        (Step::Ready(Ok(None)), rest) => (Step::Ready(Ok(None)), rest),
        (Step::Ready(Ok(Some((length, n)))), rest) => if length <= rest.unread.len() {
            let frame = Frame {
                payload: rest.unread.take(length as int),
                size: FrameSize { protobuf_bytes: length, delimiter_bytes: n },
            };
            let behind = InputView { unread: rest.unread.skip(length as int), ..rest };
            (Step::Ready(Ok(Some(frame))), behind)
        } else {
            match input.end {
                None => (Step::NeedInput, input),
                Some(End::Eof) => (Step::Ready(Err(ReadFault::TruncatedMessage)), drained()),
                Some(End::Failed(fault)) => (Step::Ready(Err(ReadFault::Io(fault))), drained()),
            }
        },
    }
}

/// Whether `decode`, given the bytes `payload`, can come back with `decoded`.
pub open spec fn decodes<M, D: Fn(&[u8]) -> Result<M, String>>(
    decode: D,
    payload: Seq<u8>,
    decoded: Result<M, String>,
) -> bool {
    exists|bytes: &[u8]| bytes@ == payload && #[trigger] call_ensures(decode, (bytes,), decoded)
}

/// Whether `decode` makes the same of equal bytes, whenever it is called: the same
/// message, or an error with the same description.
pub open spec fn decodes_alike<M, D: Fn(&[u8]) -> Result<M, String>>(decode: D) -> bool {
    forall|payload: Seq<u8>, a: Result<M, String>, b: Result<M, String>|
        #![trigger decodes(decode, payload, a), decodes(decode, payload, b)]
        decodes(decode, payload, a) && decodes(decode, payload, b) ==> match (a, b) {
            (Ok(m), Ok(n)) => m == n,
            (Err(s), Err(t)) => s@ == t@,
            _ => false,
        }
}

/// What is made of a message that was read, once it was decoded.
pub open spec fn message_result<M>(decoded: Result<M, String>, size: FrameSize) -> Result<
    Option<(M, FrameSize)>,
    ReadFault,
> {
    match decoded {
        Ok(message) => Ok(Some((message, size))),
        Err(text) => Err(ReadFault::Decode(text@)),
    }
}

/// Whether reading a message from `input` can come to `r`, with `decode` for the
/// message.
pub open spec fn message_step<M, D: Fn(&[u8]) -> Result<M, String>>(
    decode: D,
    input: InputView,
    r: Step<Result<Option<(M, FrameSize)>, ReadFault>>,
) -> bool {
    match frame_step(input).0 {
        Step::NeedInput => r is NeedInput,
        Step::Ready(Err(fault)) => r == Step::Ready(
            Err::<Option<(M, FrameSize)>, ReadFault>(fault),
        ),
        Step::Ready(Ok(None)) => r == Step::Ready(
            Ok::<Option<(M, FrameSize)>, ReadFault>(None),
        ),
        Step::Ready(Ok(Some(frame))) => exists|decoded: Result<M, String>|
            #[trigger] decodes(decode, frame.payload, decoded) && r == Step::Ready(
                message_result(decoded, frame.size),
            ),
    }
}

/// The length delimiter at the front of `unread`, as far as it is there: its
/// bytes, and the length in it or the description of the error.
fn peek_delimiter(unread: &[u8]) -> (r: Option<(usize, Result<usize, String>)>)
    ensures
        match delimiter_extent(unread@) {
            None => r is None,
            Some(n) => {
                &&& r matches Some((m, length))
                &&& m == n
                &&& 1 <= n <= unread@.len()
                &&& match parse_length(unread@.take(n as int)) {
                    Ok((l, _)) => length == Ok::<usize, String>(l),
                    Err(text) => length matches Err(t) && t@ == text,
                }
            },
        },
{
    let mut i: usize = 0;
    while i < unread.len() && i < MAX_VARINT_BYTES && unread[i] >= 0x80
        invariant
            i <= unread@.len(),
            i <= MAX_VARINT_BYTES,
            forall|j: int| 0 <= j < i ==> unread@[j] >= 0x80,
        decreases unread@.len() - i,
    {
        i = i + 1;
    }
    proof {
        lemma_continuation_run(unread@);
        if i < MAX_VARINT_BYTES {
            lemma_continuation_run_is(unread@, i as nat);
        } else if continuation_run(unread@) < i {
            assert(unread@[continuation_run(unread@) as int] >= 0x80);
        }
    }
    let n: usize = if i == MAX_VARINT_BYTES {
        i
    } else if i < unread.len() {
        i + 1
    } else {
        return None;
    };
    let delimiter = slice_subrange(unread, 0, n);
    assert(delimiter@ =~= unread@.take(n as int));
    match decode_length(delimiter) {
        Ok((length, _)) => Some((n, Ok(length))),
        Err(text) => Some((n, Err(text))),
    }
}

/// What the end behind the unread bytes means where more of them are needed.
fn ended(input: &mut Input, truncated: ReadError) -> (r: ReadError)
    requires
        old(input)@.end is Some,
    ensures
        final(input)@ == drained(),
        r@ == match old(input)@.end {
            Some(End::Failed(fault)) => ReadFault::Io(fault),
            _ => truncated@,
        },
{
    match input.finish() {
        Some(End::Failed(fault)) => ReadError::Io(fault),
        _ => truncated,
    }
}

/// Reads a protobuf varint length prefix.
///
/// Gives `None` on a clean end of the data at a message boundary (the normal end
/// of an archive); an end partway through the varint is an error of the kind
/// `UnexpectedEof`. The prefix is taken up to the byte whose continuation bit is
/// clear, and never over more than ten bytes, so that a malformed prefix does not
/// read on for ever.
pub fn read_length_delimiter(input: &mut Input) -> (r: Step<
    Result<Option<(usize, usize)>, ReadError>,
>)
    ensures
        step_outcome(r) == delimiter_step(old(input)@).0,
        final(input)@ == delimiter_step(old(input)@).1,
{
    match peek_delimiter(input.unread()) {
        Some((n, length)) => {
            input.consume(n);
            match length {
                Ok(length) => Step::Ready(Ok(Some((length, n)))),
                Err(text) => Step::Ready(Err(ReadError::Delimiter(text))),
            }
        },
        None => {
            if !input.has_ended() {
                Step::NeedInput
            } else if input.is_at_eof() && input.unread().len() == 0 {
                let _ = input.finish();
                Step::Ready(Ok(None))
            } else {
                Step::Ready(Err(ended(input, ReadError::TruncatedDelimiter)))
            }
        },
    }
}

/// Reads a message with its length delimiter, and decodes it with `decode`.
///
/// Gives `None` on a clean end of the data at a message boundary.
pub fn read_message<M, D: Fn(&[u8]) -> Result<M, String>>(input: &mut Input, decode: &D) -> (r:
    Step<Result<Option<(M, FrameSize)>, ReadError>>)
    requires
        forall|bytes: &[u8]| call_requires(*decode, (bytes,)),
    ensures
        message_step(*decode, old(input)@, step_outcome(r)),
        r matches Step::Ready(Ok(Some((_, size)))) ==> size.fits(),
        final(input)@ == frame_step(old(input)@).1,
{
    let (n, length) = match peek_delimiter(input.unread()) {
        Some((n, Ok(length))) => (n, length),
        _ => {
            return match read_length_delimiter(input) {
                Step::NeedInput => Step::NeedInput,
                Step::Ready(Err(error)) => Step::Ready(Err(error)),
                Step::Ready(Ok(_)) => Step::Ready(Ok(None)),
            };
        },
    };
    let unread = input.unread();
    if length <= unread.len() - n {
        let payload = slice_subrange(unread, n, n + length);
        let ghost frame = frame_step(old(input)@).0->Ready_0->Ok_0->Some_0;
        assert(payload@ =~= frame.payload);
        let decoded = decode(payload);
        assert(decodes(*decode, frame.payload, decoded));
        let size = FrameSize { protobuf_bytes: length, delimiter_bytes: n };
        input.consume(n + length);
        assert(input@.unread =~= frame_step(old(input)@).1.unread);
        match decoded {
            Ok(message) => Step::Ready(Ok(Some((message, size)))),
            Err(text) => Step::Ready(Err(ReadError::Decode(text))),
        }
    } else if !input.has_ended() {
        Step::NeedInput
    } else {
        Step::Ready(Err(ended(input, ReadError::TruncatedMessage)))
    }
}

/// An event in an archive.
#[derive(Debug, PartialEq, Eq)]
pub struct ArchiveRecord {
    pub event: Event,
    pub size: FrameSize,
}

/// An archive that is being read, behind its header.
#[derive(Debug)]
pub struct ArchiveReader {
    input: Input,
    header: ArchiveHeader,
    header_size: FrameSize,
}

/// What comes of the attempt to begin reading an archive.
#[derive(Debug)]
pub enum Opening {
    /// The header was read.
    Reader(ArchiveReader),
    /// The header could not be read.
    Failed(ReadError),
    /// The next read has to be made and taken in; nothing was used up.
    NeedInput(Input),
}

/// The header of an archive, its size and what follows it, or why there is none.
pub open spec fn open_step(input: InputView) -> Step<
    Result<(ArchiveHeader, FrameSize, InputView), ReadFault>,
> {
    match frame_step(input) {
        (Step::NeedInput, _) => Step::NeedInput,
        (Step::Ready(Err(fault)), _) => Step::Ready(Err(fault)),
        (Step::Ready(Ok(None)), _) => Step::Ready(Err(ReadFault::MissingHeader)),
        (Step::Ready(Ok(Some(frame))), rest) => match decoded_header(frame.payload) {
            Ok(header) => Step::Ready(Ok((header, frame.size, rest))),
            Err(text) => Step::Ready(Err(ReadFault::Decode(text))),
        },
    }
}

/// A step towards a record as a step towards a message.
pub open spec fn record_outcome(r: Step<Option<Result<ArchiveRecord, ReadError>>>) -> Step<
    Result<Option<(Event, FrameSize)>, ReadFault>,
> {
    match r {
        Step::NeedInput => Step::NeedInput,
        Step::Ready(None) => Step::Ready(Ok(None)),
        Step::Ready(Some(Ok(record))) => Step::Ready(Ok(Some((record.event, record.size)))),
        Step::Ready(Some(Err(error))) => Step::Ready(Err(error@)),
    }
}

/// A step towards a record without its size.
pub open spec fn without_size(r: Step<Option<Result<ArchiveRecord, ReadError>>>) -> Step<
    Option<Result<Event, ReadError>>,
> {
    match r {
        Step::NeedInput => Step::NeedInput,
        Step::Ready(None) => Step::Ready(None),
        Step::Ready(Some(Ok(record))) => Step::Ready(Some(Ok(record.event))),
        Step::Ready(Some(Err(error))) => Step::Ready(Some(Err(error))),
    }
}

/// A step towards an event with the error in it as a `ReadFault`.
pub open spec fn event_outcome(r: Step<Option<Result<Event, ReadError>>>) -> Step<
    Option<Result<Event, ReadFault>>,
> {
    match r {
        Step::NeedInput => Step::NeedInput,
        Step::Ready(None) => Step::Ready(None),
        Step::Ready(Some(result)) => Step::Ready(Some(outcome(result))),
    }
}

/// Whether reading an event from `input` can come to `r`, with `decode` for the
/// event: to what reading a record can come to, without its size.
pub open spec fn event_step<D: Fn(&[u8]) -> Result<Event, String>>(
    decode: D,
    input: InputView,
    r: Step<Option<Result<Event, ReadError>>>,
) -> bool {
    exists|record: Step<Option<Result<ArchiveRecord, ReadError>>>|
        #[trigger] message_step(decode, input, record_outcome(record)) && r == without_size(record)
}

impl ArchiveReader {
    /// The bytes of the archive that were read and not used yet.
    pub closed spec fn input(self) -> InputView {
        self.input@
    }

    /// The header of the archive.
    pub closed spec fn stated_header(self) -> ArchiveHeader {
        self.header
    }

    /// The size of the header message.
    pub closed spec fn size_of_header(self) -> FrameSize {
        self.header_size
    }

    /// Begins to read an archive with its header.
    pub fn new(input: Input) -> (r: Opening)
        ensures
            match open_step(input@) {
                Step::NeedInput => r matches Opening::NeedInput(same) && same@ == input@,
                Step::Ready(Err(fault)) => r matches Opening::Failed(error) && error@ == fault,
                Step::Ready(Ok((header, size, rest))) => {
                    &&& r matches Opening::Reader(reader)
                    &&& reader.stated_header() == header
                    &&& reader.size_of_header() == size
                    &&& size.fits()
                    &&& reader.input() == rest
                },
            },
    {
        let mut input = input;
        match read_message(&mut input, &ArchiveHeader::decode) {
            Step::NeedInput => Opening::NeedInput(input),
            Step::Ready(Err(error)) => Opening::Failed(error),
            Step::Ready(Ok(None)) => Opening::Failed(ReadError::MissingHeader),
            Step::Ready(Ok(Some((header, header_size)))) => Opening::Reader(
                ArchiveReader { input, header, header_size },
            ),
        }
    }

    /// Takes in how one read of the archive ended.
    pub fn feed(&mut self, event: ReadEvent)
        requires
            old(self).input().end is None,
        ensures
            final(self).input() == fed(old(self).input(), event),
            final(self).stated_header() == old(self).stated_header(),
            final(self).size_of_header() == old(self).size_of_header(),
    {
        self.input.feed(event);
    }

    /// Whether the bytes that were taken in are the last, up to a report of the
    /// end.
    pub fn has_ended(&self) -> (r: bool)
        ensures
            r == self.input().end is Some,
    {
        self.input.has_ended()
    }

    /// The header of the archive.
    pub fn header(&self) -> (r: ArchiveHeader)
        ensures
            r == self.stated_header(),
    {
        self.header
    }

    /// The size of the header message.
    pub fn header_size(&self) -> (r: FrameSize)
        ensures
            r == self.size_of_header(),
    {
        self.header_size
    }

    /// The next event with the size of its message, decoded with `decode`;
    /// nothing at the end of the archive.
    pub fn next_record<D: Fn(&[u8]) -> Result<Event, String>>(&mut self, decode: &D) -> (r: Step<
        Option<Result<ArchiveRecord, ReadError>>,
    >)
        requires
            forall|bytes: &[u8]| call_requires(*decode, (bytes,)),
        ensures
            message_step(*decode, old(self).input(), record_outcome(r)),
            r matches Step::Ready(Some(Ok(record))) ==> record.size.fits(),
            final(self).input() == frame_step(old(self).input()).1,
            final(self).stated_header() == old(self).stated_header(),
            final(self).size_of_header() == old(self).size_of_header(),
    {
        match read_message(&mut self.input, decode) {
            Step::NeedInput => Step::NeedInput,
            Step::Ready(Err(error)) => Step::Ready(Some(Err(error))),
            Step::Ready(Ok(None)) => Step::Ready(None),
            Step::Ready(Ok(Some((event, size)))) => Step::Ready(
                Some(Ok(ArchiveRecord { event, size })),
            ),
        }
    }

    /// The next event, decoded with `decode`; nothing at the end of the archive.
    pub fn next<D: Fn(&[u8]) -> Result<Event, String>>(&mut self, decode: &D) -> (r: Step<
        Option<Result<Event, ReadError>>,
    >)
        requires
            forall|bytes: &[u8]| call_requires(*decode, (bytes,)),
        ensures
            event_step(*decode, old(self).input(), r),
            final(self).input() == frame_step(old(self).input()).1,
            final(self).stated_header() == old(self).stated_header(),
            final(self).size_of_header() == old(self).size_of_header(),
    {
        let record = self.next_record(decode);
        assert(message_step(*decode, old(self).input(), record_outcome(record)));
        match record {
            Step::NeedInput => Step::NeedInput,
            Step::Ready(None) => Step::Ready(None),
            Step::Ready(Some(Ok(record))) => Step::Ready(Some(Ok(record.event))),
            Step::Ready(Some(Err(error))) => Step::Ready(Some(Err(error))),
        }
    }
}

} // verus!
