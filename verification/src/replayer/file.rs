//! Archive files with a fixed header: the mark `PA`, a version and a commit hash,
//! and then the events, each with its length delimiter in front.
use crate::archive::input::{ErrorKind, IoFault};
use crate::archive::read::{decodes, decodes_alike};
use crate::event::Event;
use crate::text::{
    decimal, hex_byte, is_hex_of, is_numeral, law_decimal_reads_back, law_hex_byte_reads_back,
    push_decimal, push_hex_byte,
};
use crate::wire::{
    base128, continuation_run, decode_length, framed, framed_all, law_varint_round_trip,
    lemma_continuation_run, lemma_continuation_run_is, lemma_framed_all_push, lemma_varint_prefix,
    lemma_varint_shape, parse_length, push_framed, varint,
};
use vstd::prelude::*;
use vstd::slice::slice_subrange;

verus! {

/// The bytes of the fixed header.
pub const HEADER_SIZE: usize = 16;

/// The mark at the front of an archive file: the letters `PA`.
pub const MAGIC: [u8; 2] = [0x50, 0x41];

/// The fixed header of an archive file.
#[derive(Clone, Copy, Debug, PartialEq, Eq)]
pub struct ArchiveHeader {
    pub version: u8,
    pub git_hash: [u8; 4],
}

/// What an archive file holds.
#[derive(Debug, PartialEq, Eq)]
pub struct Archive {
    pub header: ArchiveHeader,
    pub events: Vec<Event>,
}

/// An `Archive` with its contents as sequences.
#[verifier::ext_equal]
pub struct ArchiveView {
    pub version: u8,
    pub git_hash: Seq<u8>,
    pub events: Seq<Event>,
}

impl View for Archive {
    type V = ArchiveView;

    open spec fn view(&self) -> ArchiveView {
        ArchiveView {
            version: self.header.version,
            git_hash: self.header.git_hash@,
            events: self.events@,
        }
    }
}

/// Why an archive file could not be read.
#[derive(Debug, PartialEq, Eq)]
pub enum ReadArchiveError {
    /// The file does not decompress.
    Decompress(IoFault),
    /// The file is shorter than the header, with its length.
    TooSmall(usize),
    /// The file does not begin with the mark, with what it begins with.
    BadMagic(u8, u8),
    /// The length delimiter behind `at` bytes of events does not decode, with the
    /// description of the error.
    BadLength { at: usize, description: String },
    /// The length delimiter behind `at` bytes of events promises more bytes than
    /// there are.
    Overrun { at: usize, promised: usize, available: usize },
    /// The event behind `at` bytes of events does not decode, with the description
    /// of the error.
    Decode { at: usize, description: String },
}

/// A `ReadArchiveError` with its descriptions as character sequences.
pub enum ReadArchiveFault {
    Decompress { kind: ErrorKind, description: Seq<char> },
    TooSmall(nat),
    BadMagic(u8, u8),
    BadLength { at: nat, description: Seq<char> },
    Overrun { at: nat, promised: nat, available: nat },
    Decode { at: nat, description: Seq<char> },
}

impl View for ReadArchiveError {
    type V = ReadArchiveFault;

    open spec fn view(&self) -> ReadArchiveFault {
        match *self {
            ReadArchiveError::Decompress(fault) => ReadArchiveFault::Decompress {
                kind: fault.kind,
                description: fault.message@,
            },
            ReadArchiveError::TooSmall(length) => ReadArchiveFault::TooSmall(length as nat),
            ReadArchiveError::BadMagic(a, b) => ReadArchiveFault::BadMagic(a, b),
            ReadArchiveError::BadLength { at, description } => ReadArchiveFault::BadLength {
                at: at as nat,
                description: description@,
            },
            ReadArchiveError::Overrun { at, promised, available } => ReadArchiveFault::Overrun {
                at: at as nat,
                promised: promised as nat,
                available: available as nat,
            },
            ReadArchiveError::Decode { at, description } => ReadArchiveFault::Decode {
                at: at as nat,
                description: description@,
            },
        }
    }
}

/// The description of a failure to read an archive file.
pub open spec fn read_fault_text(fault: ReadArchiveFault) -> Seq<char> {
    match fault {
        ReadArchiveFault::Decompress { description, .. } => description,
        ReadArchiveFault::TooSmall(length) => "file too small: "@ + decimal(length) + " bytes"@,
        ReadArchiveFault::BadMagic(a, b) => "invalid magic: "@ + hex_byte(a) + hex_byte(b)
            + " (expected \"PA\")"@,
        ReadArchiveFault::BadLength { at, description } => "bad length at byte "@ + decimal(at)
            + ": "@ + description,
        ReadArchiveFault::Overrun { at, promised, available } => "bad length at byte "@ + decimal(
            at,
        ) + ": "@ + decimal(promised) + " bytes promised, "@ + decimal(available) + " available"@,
        ReadArchiveFault::Decode { at, description } => "decode error at byte "@ + decimal(at)
            + ": "@ + description,
    }
}

/// The kind of a failure to read an archive file.
pub open spec fn read_fault_kind(fault: ReadArchiveFault) -> ErrorKind {
    match fault {
        ReadArchiveFault::Decompress { kind, .. } => kind,
        _ => ErrorKind::Other,
    }
}

impl ReadArchiveError {
    /// The kind of the failure.
    pub fn kind(&self) -> (r: ErrorKind)
        ensures
            r == read_fault_kind(self@),
    {
        match self {
            ReadArchiveError::Decompress(fault) => fault.kind,
            _ => ErrorKind::Other,
        }
    }

    /// The description of the failure.
    pub fn to_text(&self) -> (r: String)
        ensures
            r@ == read_fault_text(self@),
    {
        let mut text = String::new();
        match self {
            ReadArchiveError::Decompress(fault) => text.append(fault.message.as_str()),
            ReadArchiveError::TooSmall(length) => {
                text.append("file too small: ");
                push_decimal(&mut text, *length as u64);
                text.append(" bytes");
            },
            ReadArchiveError::BadMagic(a, b) => {
                text.append("invalid magic: ");
                push_hex_byte(&mut text, *a);
                push_hex_byte(&mut text, *b);
                text.append(" (expected \"PA\")");
            },
            ReadArchiveError::BadLength { at, description } => {
                text.append("bad length at byte ");
                push_decimal(&mut text, *at as u64);
                text.append(": ");
                text.append(description.as_str());
            },
            ReadArchiveError::Overrun { at, promised, available } => {
                text.append("bad length at byte ");
                push_decimal(&mut text, *at as u64);
                text.append(": ");
                push_decimal(&mut text, *promised as u64);
                text.append(" bytes promised, ");
                push_decimal(&mut text, *available as u64);
                text.append(" available");
            },
            ReadArchiveError::Decode { at, description } => {
                text.append("decode error at byte ");
                push_decimal(&mut text, *at as u64);
                text.append(": ");
                text.append(description.as_str());
            },
        }
        assert(text@ =~= read_fault_text(self@));
        text
    }
}

/// Whether reading the events in `data` from byte `cursor` on, with `decode` for
/// each, can come to `r`: all events up to the end, or the first failure.
pub open spec fn events_read<D: Fn(&[u8]) -> Result<Event, String>>(
    decode: D,
    data: Seq<u8>,
    cursor: nat,
    r: Result<Seq<Event>, ReadArchiveFault>,
) -> bool
    decreases data.len() - cursor,
{
    if cursor >= data.len() {
        r == Ok::<Seq<Event>, ReadArchiveFault>(Seq::empty())
    } else {
        match parse_length(data.skip(cursor as int)) {
            Err(description) => r == Err::<Seq<Event>, ReadArchiveFault>(
                ReadArchiveFault::BadLength { at: cursor, description },
            ),
            Ok((length, n)) => {
                let start = cursor + n;
                if length > data.len() - start {
                    r == Err::<Seq<Event>, ReadArchiveFault>(
                        ReadArchiveFault::Overrun {
                            at: cursor,
                            promised: length as nat,
                            available: (data.len() - start) as nat,
                        },
                    )
                } else {
                    exists|decoded: Result<Event, String>| #[trigger]
                        decodes(
                            decode,
                            data.subrange(start as int, start + length),
                            decoded,
                        ) && match decoded {
                            Err(text) => r == Err::<Seq<Event>, ReadArchiveFault>(
                                ReadArchiveFault::Decode { at: cursor, description: text@ },
                            ),
                            Ok(event) => match r {
                                Ok(events) => events.len() > 0 && events[0] == event && events_read(
                                    decode,
                                    data,
                                    start + length as nat,
                                    Ok(events.skip(1)),
                                ),
                                Err(fault) => events_read(
                                    decode,
                                    data,
                                    start + length as nat,
                                    Err(fault),
                                ),
                            },
                        }
                }
            },
        }
    }
}

/// Whether reading an archive file with the bytes `s`, with `decode` for each
/// event, can come to `r`.
pub open spec fn archive_read<D: Fn(&[u8]) -> Result<Event, String>>(
    decode: D,
    s: Seq<u8>,
    r: Result<ArchiveView, ReadArchiveFault>,
) -> bool {
    if s.len() < HEADER_SIZE {
        r == Err::<ArchiveView, ReadArchiveFault>(ReadArchiveFault::TooSmall(s.len()))
    } else if s[0] != MAGIC[0] || s[1] != MAGIC[1] {
        r == Err::<ArchiveView, ReadArchiveFault>(ReadArchiveFault::BadMagic(s[0], s[1]))
    } else {
        exists|events: Result<Seq<Event>, ReadArchiveFault>|
            #[trigger] events_read(decode, s.skip(HEADER_SIZE as int), 0, events) && r
                == match events {
                Ok(events) => Ok::<ArchiveView, ReadArchiveFault>(
                    ArchiveView { version: s[2], git_hash: s.subrange(3, 7), events },
                ),
                Err(fault) => Err(fault),
            }
    }
}

/// The outcome of reading an archive file, with views in it.
pub open spec fn archive_outcome(r: Result<Archive, ReadArchiveError>) -> Result<
    ArchiveView,
    ReadArchiveFault,
> {
    match r {
        Ok(archive) => Ok(archive@),
        Err(error) => Err(error@),
    }
}

/// The events that were read so far in front of what is read of the rest.
spec fn joined(
    before: Seq<Event>,
    rest: Result<Seq<Event>, ReadArchiveFault>,
) -> Result<Seq<Event>, ReadArchiveFault> {
    match rest {
        Ok(events) => Ok(before + events),
        Err(fault) => Err(fault),
    }
}

proof fn lemma_event_read<D: Fn(&[u8]) -> Result<Event, String>>(
    decode: D,
    data: Seq<u8>,
    cursor: nat,
    event: Event,
    rest: Result<Seq<Event>, ReadArchiveFault>,
)
    requires
        cursor < data.len(),
        parse_length(data.skip(cursor as int)) matches Ok((length, n)) && {
            let start = cursor + n;
            &&& length <= data.len() - start
            &&& decodes(
                decode,
                data.subrange(start as int, start + length),
                Ok::<Event, String>(event),
            )
            &&& events_read(decode, data, start + length as nat, rest)
        },
    ensures
        events_read(decode, data, cursor, joined(seq![event], rest)),
{
    if let Ok(events) = rest {
        assert((seq![event] + events).skip(1) =~= events);
    }
}

fn read_events<D: Fn(&[u8]) -> Result<Event, String>>(data: &[u8], decode: &D) -> (r: Result<
    Vec<Event>,
    ReadArchiveError,
>)
    requires
        forall|bytes: &[u8]| call_requires(*decode, (bytes,)),
    ensures
        events_read(
            *decode,
            data@,
            0,
            match r {
                Ok(events) => Ok::<Seq<Event>, ReadArchiveFault>(events@),
                Err(error) => Err(error@),
            },
        ),
{
    let mut cursor: usize = 0;
    let mut events: Vec<Event> = Vec::new();
    assert forall|rest: Result<Seq<Event>, ReadArchiveFault>|
        #[trigger] events_read(*decode, data@, 0, rest) implies events_read(
        *decode,
        data@,
        0,
        joined(events@, rest),
    ) by {
        if let Ok(es) = rest {
            assert(events@ + es =~= es);
        }
    }
    while cursor < data.len()
        invariant
            cursor <= data@.len(),
            forall|bytes: &[u8]| call_requires(*decode, (bytes,)),
            forall|rest: Result<Seq<Event>, ReadArchiveFault>| #[trigger]
                events_read(*decode, data@, cursor as nat, rest) ==> events_read(
                    *decode,
                    data@,
                    0,
                    joined(events@, rest),
                ),
        decreases data@.len() - cursor,
    {
        let wire = slice_subrange(data, cursor, data.len());
        assert(wire@ =~= data@.skip(cursor as int));
        let (length, behind) = match decode_length(wire) {
            Ok(decoded) => decoded,
            Err(description) => {
                let error = ReadArchiveError::BadLength { at: cursor, description };
                assert(events_read(
                    *decode,
                    data@,
                    cursor as nat,
                    Err::<Seq<Event>, ReadArchiveFault>(error@),
                ));
                return Err(error);
            },
        };
        if length > behind.len() {
            let error = ReadArchiveError::Overrun {
                at: cursor,
                promised: length,
                available: behind.len(),
            };
            assert(events_read(
                *decode,
                data@,
                cursor as nat,
                Err::<Seq<Event>, ReadArchiveFault>(error@),
            ));
            return Err(error);
        }
        let start: usize = data.len() - behind.len();
        let next: usize = start + length;
        let payload = slice_subrange(data, start, next);
        let decoded = decode(payload);
        assert(decodes(*decode, data@.subrange(start as int, start + length), decoded));
        match decoded {
            Err(description) => {
                let error = ReadArchiveError::Decode { at: cursor, description };
                assert(events_read(
                    *decode,
                    data@,
                    cursor as nat,
                    Err::<Seq<Event>, ReadArchiveFault>(error@),
                ));
                return Err(error);
            },
            Ok(event) => {
                let ghost before = events@;
                events.push(event);
                assert forall|rest: Result<Seq<Event>, ReadArchiveFault>| #[trigger]
                    events_read(*decode, data@, next as nat, rest) implies events_read(
                    *decode,
                    data@,
                    0,
                    joined(events@, rest),
                ) by {
                    let from_here = joined(seq![event], rest);
                    lemma_event_read(*decode, data@, cursor as nat, event, rest);
                    assert(events_read(*decode, data@, cursor as nat, from_here));
                    assert(events_read(*decode, data@, 0, joined(before, from_here)));
                    if let Ok(es) = rest {
                        assert(before + (seq![event] + es) =~= events@ + es);
                    }
                }
                cursor = next;
            },
        }
    }
    assert(events_read(
        *decode,
        data@,
        cursor as nat,
        Ok::<Seq<Event>, ReadArchiveFault>(Seq::empty()),
    ));
    assert(events@ + Seq::<Event>::empty() =~= events@);
    Ok(events)
}

/// Reads an archive file from its uncompressed bytes, with `decode` for each
/// event.
pub fn parse_archive<D: Fn(&[u8]) -> Result<Event, String>>(buf: &[u8], decode: &D) -> (r: Result<
    Archive,
    ReadArchiveError,
>)
    requires
        forall|bytes: &[u8]| call_requires(*decode, (bytes,)),
    ensures
        archive_read(*decode, buf@, archive_outcome(r)),
{
    if buf.len() < HEADER_SIZE {
        return Err(ReadArchiveError::TooSmall(buf.len()));
    }
    if buf[0] != MAGIC[0] || buf[1] != MAGIC[1] {
        return Err(ReadArchiveError::BadMagic(buf[0], buf[1]));
    }
    let header = ArchiveHeader {
        version: buf[2],
        git_hash: [buf[3], buf[4], buf[5], buf[6]],
    };
    assert(header.git_hash@ =~= buf@.subrange(3, 7));
    let data = slice_subrange(buf, HEADER_SIZE, buf.len());
    assert(data@ =~= buf@.skip(HEADER_SIZE as int));
    match read_events(data, decode) {
        Ok(events) => Ok(Archive { header, events }),
        Err(error) => Err(error),
    }
}

/// What the zstd frames in `raw` hold; nothing where they do not decompress.
pub uninterp spec fn zstd_content(raw: Seq<u8>) -> Option<Seq<u8>>;

/// Whether a decompression failed for lack of memory, by the kind and the
/// description of the error: there was none for the decompression context, or none
/// for the window of a frame.
pub open spec fn lacks_memory(kind: ErrorKind, description: Seq<char>) -> bool {
    kind == ErrorKind::Other && (description
        == "zstd could not allocate a decompression context"@ || description
        == "Allocation error : not enough memory"@)
}

/// Data decompressed to its end with `zstd::Decoder::new` and the `read_to_end` of
/// that decoder, or the kind and the description of the error.
///
/// Trusted: data that decompresses gives its content, which depends on `raw` alone,
/// and fails only for lack of memory. Data that does not decompress fails. Which
/// error it then fails with is not said.
#[verifier::external_body]
pub(crate) fn zstd_decode(raw: &[u8]) -> (r: Result<Vec<u8>, IoFault>)
    ensures
        match r {
            Ok(content) => zstd_content(raw@) == Some(content@),
            Err(fault) => zstd_content(raw@) is None || lacks_memory(fault.kind, fault.message@),
        },
{
    let mut content: Vec<u8> = Vec::new();
    let mut read = || std::io::Read::read_to_end(&mut zstd::Decoder::new(raw)?, &mut content);
    match read() {
        Ok(_) => Ok(content),
        Err(error) => {
            let kind = match error.kind() {
                std::io::ErrorKind::UnexpectedEof => ErrorKind::UnexpectedEof,
                _ => ErrorKind::Other,
            };
            Err(IoFault { kind, message: error.to_string() })
        },
    }
}

/// Whether decompressing `raw`, in one call of `zstd_decode`, can come to `r`.
pub closed spec fn decompresses_to(raw: Seq<u8>, r: Result<Vec<u8>, IoFault>) -> bool {
    exists|bytes: &[u8]| bytes@ == raw && #[trigger] call_ensures(zstd_decode, (bytes,), r)
}

/// Whether a file with the given extension is compressed: the extension is `zst`.
pub open spec fn is_zst(extension: Option<Seq<u8>>) -> bool {
    extension == Some(seq![0x7au8, 0x73, 0x74])
}

/// The bytes of an optional slice.
pub open spec fn option_bytes(s: Option<&[u8]>) -> Option<Seq<u8>> {
    match s {
        Some(bytes) => Some(bytes@),
        None => None,
    }
}

/// Whether a file with the given extension is compressed.
pub fn is_compressed(extension: Option<&[u8]>) -> (r: bool)
    ensures
        r == is_zst(option_bytes(extension)),
{
    match extension {
        Some(bytes) => {
            let r = bytes.len() == 3 && bytes[0] == 0x7a && bytes[1] == 0x73 && bytes[2] == 0x74;
            assert(r ==> bytes@ =~= seq![0x7au8, 0x73, 0x74]);
            r
        },
        None => false,
    }
}

/// Whether reading an archive file with the bytes `raw` on disk and the given
/// extension, with `decode` for each event, can come to `r`. A compressed file is
/// read as what one decompression of it gave, and refused with the error of that
/// decompression where it gave one; that is so where it does not decompress, or where
/// there is no memory to do so.
pub open spec fn file_read<D: Fn(&[u8]) -> Result<Event, String>>(
    decode: D,
    raw: Seq<u8>,
    extension: Option<Seq<u8>>,
    r: Result<ArchiveView, ReadArchiveFault>,
) -> bool {
    if is_zst(extension) {
        &&& match zstd_content(raw) {
            None => r matches Err(ReadArchiveFault::Decompress { .. }),
            Some(content) => archive_read(decode, content, r) || (r matches Err(
                ReadArchiveFault::Decompress { kind, description },
            ) && lacks_memory(kind, description)),
        }
        &&& exists|decompressed: Result<Vec<u8>, IoFault>| #[trigger]
            decompresses_to(raw, decompressed) && match decompressed {
                Ok(content) => archive_read(decode, content@, r),
                Err(fault) => r == Err::<ArchiveView, ReadArchiveFault>(
                    ReadArchiveFault::Decompress {
                        kind: fault.kind,
                        description: fault.message@,
                    },
                ),
            }
    } else {
        archive_read(decode, raw, r)
    }
}

/// Reads an archive file from what came of its decompression, with `decode` for
/// each event.
pub fn parse_decompressed<D: Fn(&[u8]) -> Result<Event, String>>(
    decompressed: Result<Vec<u8>, IoFault>,
    decode: &D,
) -> (r: Result<Archive, ReadArchiveError>)
    requires
        forall|bytes: &[u8]| call_requires(*decode, (bytes,)),
    ensures
        match decompressed {
            Ok(content) => archive_read(*decode, content@, archive_outcome(r)),
            Err(fault) => r == Err::<Archive, ReadArchiveError>(
                ReadArchiveError::Decompress(fault),
            ),
        },
{
    match decompressed {
        Ok(content) => parse_archive(content.as_slice(), decode),
        Err(fault) => Err(ReadArchiveError::Decompress(fault)),
    }
}

/// Reads an archive file from its bytes on disk, which are compressed if its
/// extension says so, with `decode` for each event.
pub fn read_archive<D: Fn(&[u8]) -> Result<Event, String>>(
    raw: &[u8],
    extension: Option<&[u8]>,
    decode: &D,
) -> (r: Result<Archive, ReadArchiveError>)
    requires
        forall|bytes: &[u8]| call_requires(*decode, (bytes,)),
    ensures
        file_read(*decode, raw@, option_bytes(extension), archive_outcome(r)),
{
    if is_compressed(extension) {
        assert(forall|d: Result<Vec<u8>, IoFault>| #[trigger]
            call_ensures(zstd_decode, (raw,), d) ==> decompresses_to(raw@, d));
        parse_decompressed(zstd_decode(raw), decode)
    } else {
        parse_archive(raw, decode)
    }
}

/// The bytes of an archive file with the given header and messages.
pub open spec fn archive_bytes(version: u8, git_hash: Seq<u8>, payloads: Seq<Seq<u8>>) -> Seq<u8> {
    seq![MAGIC[0], MAGIC[1], version] + git_hash + Seq::new(9, |i: int| 0u8) + framed_all(payloads)
}

/// The bytes of several vectors.
pub open spec fn payloads_of(payloads: Seq<Vec<u8>>) -> Seq<Seq<u8>> {
    payloads.map_values(|payload: Vec<u8>| payload@)
}

/// The bytes of an archive file with the given header and events, which are
/// handed over encoded.
pub fn build_archive_bytes(version: u8, git_hash: [u8; 4], payloads: &Vec<Vec<u8>>) -> (r: Vec<
    u8,
>)
    ensures
        r@ == archive_bytes(version, git_hash@, payloads_of(payloads@)),
{
    let mut buf: Vec<u8> = vec![
        MAGIC[0],
        MAGIC[1],
        version,
        git_hash[0],
        git_hash[1],
        git_hash[2],
        git_hash[3],
    ];
    while buf.len() < HEADER_SIZE
        invariant
            7 <= buf@.len() <= HEADER_SIZE,
            buf@ == seq![MAGIC[0], MAGIC[1], version] + git_hash@ + Seq::new(
                (buf@.len() - 7) as nat,
                |i: int| 0u8,
            ),
        decreases HEADER_SIZE - buf@.len(),
    {
        buf.push(0);
        assert(buf@ =~= seq![MAGIC[0], MAGIC[1], version] + git_hash@ + Seq::new(
            (buf@.len() - 7) as nat,
            |i: int| 0u8,
        ));
    }
    let ghost head = buf@;
    let mut i: usize = 0;
    assert(payloads_of(payloads@).take(0) =~= Seq::empty());
    assert(buf@ =~= head + framed_all(payloads_of(payloads@).take(0)));
    while i < payloads.len()
        invariant
            i <= payloads@.len(),
            buf@ == head + framed_all(payloads_of(payloads@).take(i as int)),
        decreases payloads@.len() - i,
    {
        let ghost done = payloads_of(payloads@).take(i as int);
        push_framed(&mut buf, payloads[i].as_slice());
        proof {
            lemma_framed_all_push(done, payloads@[i as int]@);
            assert(payloads_of(payloads@).take(i + 1) =~= done.push(payloads@[i as int]@));
            assert(buf@ =~= head + framed_all(payloads_of(payloads@).take(i + 1)));
        }
        i = i + 1;
    }
    assert(payloads_of(payloads@).take(i as int) =~= payloads_of(payloads@));
    buf
}

/// The outcome of reading some events without the first `n` of them.
spec fn behind(r: Result<Seq<Event>, ReadArchiveFault>, n: nat) -> Result<
    Seq<Event>,
    ReadArchiveFault,
> {
    match r {
        Ok(events) => Ok(events.skip(n as int)),
        Err(fault) => Err(fault),
    }
}

proof fn lemma_written_events_are_read<D: Fn(&[u8]) -> Result<Event, String>>(
    decode: D,
    before: Seq<u8>,
    payloads: Seq<Seq<u8>>,
    events: Seq<Event>,
    tail: Seq<u8>,
    r: Result<Seq<Event>, ReadArchiveFault>,
)
    requires
        payloads.len() == events.len(),
        forall|i: int| 0 <= i < payloads.len() ==> #[trigger] payloads[i].len() <= usize::MAX,
        forall|i: int, decoded: Result<Event, String>|
            0 <= i < payloads.len() && #[trigger] decodes(decode, payloads[i], decoded) ==> decoded
                == Ok::<Event, String>(events[i]),
        events_read(decode, before + framed_all(payloads) + tail, before.len(), r),
    ensures
        events_read(
            decode,
            before + framed_all(payloads) + tail,
            before.len() + framed_all(payloads).len(),
            behind(r, events.len()),
        ),
        r matches Ok(read) ==> read.len() >= events.len() && read.take(events.len() as int)
            == events,
    decreases payloads.len(),
{
    let data = before + framed_all(payloads) + tail;
    if payloads.len() == 0 {
        if let Ok(read) = r {
            assert(read.skip(0) =~= read);
            assert(read.take(0) =~= events);
        }
    } else {
        let payload = payloads[0];
        let v = varint(payload.len());
        let others = framed_all(payloads.skip(1));
        assert(data.skip(before.len() as int) =~= v + (payload + others + tail));
        lemma_varint_shape(payload.len());
        law_varint_round_trip(payload.len() as u64, payload + others + tail);
        let start = before.len() + v.len();
        let next = start + payload.len();
        assert(data.subrange(start as int, next as int) =~= payload);
        assert(before + framed(payload) + others + tail =~= data);
        assert((before + framed(payload)).len() == next);
        assert forall|i: int| 0 <= i < payloads.skip(1).len() implies #[trigger] payloads.skip(
            1,
        )[i].len() <= usize::MAX by {
            assert(payloads.skip(1)[i] == payloads[i + 1]);
        }
        assert forall|i: int, decoded: Result<Event, String>|
            0 <= i < payloads.skip(1).len() && #[trigger] decodes(
                decode,
                payloads.skip(1)[i],
                decoded,
            ) implies decoded == Ok::<Event, String>(events.skip(1)[i]) by {
            assert(decodes(decode, payloads[i + 1], decoded));
        }
        assert(events_read(decode, data, next, behind(r, 1)));
        lemma_written_events_are_read(
            decode,
            before + framed(payload),
            payloads.skip(1),
            events.skip(1),
            tail,
            behind(r, 1),
        );
        assert(framed_all(payloads).len() == v.len() + payload.len() + others.len());
        if let Ok(read) = r {
            assert(read.skip(1).skip(events.len() - 1) =~= read.skip(events.len() as int));
            assert forall|i: int| 0 <= i < events.len() implies read[i] == events[i] by {
                if i > 0 {
                    assert(read[i] == read.skip(1).take(events.len() - 1)[i - 1]);
                    assert(events[i] == events.skip(1)[i - 1]);
                }
            }
            assert(read.take(events.len() as int) =~= events);
        }
    }
}

/// An archive file that was written is read back: its version, its commit hash
/// and all of its events in order, where each message decodes to its event.
pub proof fn law_archive_file_round_trip<D: Fn(&[u8]) -> Result<Event, String>>(
    decode: D,
    version: u8,
    git_hash: Seq<u8>,
    payloads: Seq<Seq<u8>>,
    events: Seq<Event>,
    r: Result<ArchiveView, ReadArchiveFault>,
)
    requires
        git_hash.len() == 4,
        payloads.len() == events.len(),
        forall|i: int| 0 <= i < payloads.len() ==> #[trigger] payloads[i].len() <= usize::MAX,
        forall|i: int, decoded: Result<Event, String>|
            0 <= i < payloads.len() && #[trigger] decodes(decode, payloads[i], decoded) ==> decoded
                == Ok::<Event, String>(events[i]),
        archive_read(decode, archive_bytes(version, git_hash, payloads), r),
    ensures
        r == Ok::<ArchiveView, ReadArchiveFault>(ArchiveView { version, git_hash, events }),
{
    let s = archive_bytes(version, git_hash, payloads);
    let data = s.skip(HEADER_SIZE as int);
    let none = Seq::<u8>::empty();
    assert(data =~= none + framed_all(payloads) + none);
    assert(s.subrange(3, 7) =~= git_hash);
    let read = choose|read: Result<Seq<Event>, ReadArchiveFault>|
        #[trigger] events_read(decode, data, 0, read) && r == match read {
            Ok(events) => Ok::<ArchiveView, ReadArchiveFault>(
                ArchiveView { version: s[2], git_hash: s.subrange(3, 7), events },
            ),
            Err(fault) => Err(fault),
        };
    lemma_written_events_are_read(decode, none, payloads, events, none, read);
    let all = read->Ok_0;
    assert(all.skip(events.len() as int).len() == 0);
    assert(all =~= all.take(events.len() as int));
}

/// An archive file that is cut off inside an event is refused, with the place at
/// which that event begins.
pub proof fn law_cut_archive_file_is_refused<D: Fn(&[u8]) -> Result<Event, String>>(
    decode: D,
    version: u8,
    git_hash: Seq<u8>,
    payloads: Seq<Seq<u8>>,
    events: Seq<Event>,
    cut: Seq<u8>,
    k: nat,
    r: Result<ArchiveView, ReadArchiveFault>,
)
    requires
        git_hash.len() == 4,
        payloads.len() == events.len(),
        forall|i: int| 0 <= i < payloads.len() ==> #[trigger] payloads[i].len() <= usize::MAX,
        forall|i: int, decoded: Result<Event, String>|
            0 <= i < payloads.len() && #[trigger] decodes(decode, payloads[i], decoded) ==> decoded
                == Ok::<Event, String>(events[i]),
        cut.len() <= usize::MAX,
        0 < k < framed(cut).len(),
        archive_read(
            decode,
            archive_bytes(version, git_hash, payloads) + framed(cut).take(k as int),
            r,
        ),
    ensures
        match r {
            Err(ReadArchiveFault::BadLength { at, .. }) => at == framed_all(payloads).len(),
            Err(ReadArchiveFault::Overrun { at, .. }) => at == framed_all(payloads).len(),
            _ => false,
        },
{
    let tail = framed(cut).take(k as int);
    let s = archive_bytes(version, git_hash, payloads) + tail;
    let data = s.skip(HEADER_SIZE as int);
    let none = Seq::<u8>::empty();
    assert(data =~= none + framed_all(payloads) + tail);
    let read = choose|read: Result<Seq<Event>, ReadArchiveFault>|
        #[trigger] events_read(decode, data, 0, read) && r == match read {
            Ok(events) => Ok::<ArchiveView, ReadArchiveFault>(
                ArchiveView { version: s[2], git_hash: s.subrange(3, 7), events },
            ),
            Err(fault) => Err(fault),
        };
    lemma_written_events_are_read(decode, none, payloads, events, tail, read);
    let v = varint(cut.len());
    assert(data.skip(framed_all(payloads).len() as int) =~= tail);
    lemma_varint_shape(cut.len());
    lemma_continuation_run(v);
    if k < v.len() {
        assert forall|i: int| 0 <= i < k implies tail[i] >= 0x80 by {
            assert(tail[i] == v[i]);
        }
        lemma_continuation_run_is(tail, k);
    } else {
        let part = cut.take(k - v.len());
        assert(tail =~= v + part);
        law_varint_round_trip(cut.len() as u64, part);
    }
}

proof fn lemma_events_are_read_in_one_way<D: Fn(&[u8]) -> Result<Event, String>>(
    decode: D,
    data: Seq<u8>,
    cursor: nat,
    a: Result<Seq<Event>, ReadArchiveFault>,
    b: Result<Seq<Event>, ReadArchiveFault>,
)
    requires
        decodes_alike::<Event, D>(decode),
        events_read(decode, data, cursor, a),
        events_read(decode, data, cursor, b),
    ensures
        a == b,
    decreases data.len() - cursor,
{
    if cursor < data.len() {
        if let Ok((length, n)) = parse_length(data.skip(cursor as int)) {
            let start = cursor + n;
            if length <= data.len() - start {
                let payload = data.subrange(start as int, start + length);
                let x = choose|x: Result<Event, String>| #[trigger]
                    decodes(decode, payload, x) && match x {
                        Err(text) => a == Err::<Seq<Event>, ReadArchiveFault>(
                            ReadArchiveFault::Decode { at: cursor, description: text@ },
                        ),
                        Ok(event) => first_is(event, a) && events_read(
                            decode,
                            data,
                            start + length as nat,
                            behind(a, 1),
                        ),
                    };
                let y = choose|y: Result<Event, String>| #[trigger]
                    decodes(decode, payload, y) && match y {
                        Err(text) => b == Err::<Seq<Event>, ReadArchiveFault>(
                            ReadArchiveFault::Decode { at: cursor, description: text@ },
                        ),
                        Ok(event) => first_is(event, b) && events_read(
                            decode,
                            data,
                            start + length as nat,
                            behind(b, 1),
                        ),
                    };
                assert(decodes(decode, payload, x) && decodes(decode, payload, y));
                if x is Ok {
                    lemma_events_are_read_in_one_way(
                        decode,
                        data,
                        start + length as nat,
                        behind(a, 1),
                        behind(b, 1),
                    );
                    if a is Ok {
                        let (p, q) = (a->Ok_0, b->Ok_0);
                        assert(p =~= seq![p[0]] + p.skip(1));
                        assert(q =~= seq![q[0]] + q.skip(1));
                    }
                }
            }
        }
    }
}

/// Whether `event` is the first of the events that were read, if they were.
spec fn first_is(event: Event, r: Result<Seq<Event>, ReadArchiveFault>) -> bool {
    r matches Ok(events) ==> events.len() > 0 && events[0] == event
}

/// Where equal bytes decode alike, what comes of reading an archive file depends on
/// its bytes alone.
pub proof fn law_archive_is_read_in_one_way<D: Fn(&[u8]) -> Result<Event, String>>(
    decode: D,
    s: Seq<u8>,
    a: Result<ArchiveView, ReadArchiveFault>,
    b: Result<ArchiveView, ReadArchiveFault>,
)
    requires
        decodes_alike::<Event, D>(decode),
        archive_read(decode, s, a),
        archive_read(decode, s, b),
    ensures
        a == b,
{
    if s.len() >= HEADER_SIZE && s[0] == MAGIC[0] && s[1] == MAGIC[1] {
        let data = s.skip(HEADER_SIZE as int);
        let x = choose|x: Result<Seq<Event>, ReadArchiveFault>|
            #[trigger] events_read(decode, data, 0, x) && a == match x {
                Ok(events) => Ok::<ArchiveView, ReadArchiveFault>(
                    ArchiveView { version: s[2], git_hash: s.subrange(3, 7), events },
                ),
                Err(fault) => Err(fault),
            };
        let y = choose|y: Result<Seq<Event>, ReadArchiveFault>|
            #[trigger] events_read(decode, data, 0, y) && b == match y {
                Ok(events) => Ok::<ArchiveView, ReadArchiveFault>(
                    ArchiveView { version: s[2], git_hash: s.subrange(3, 7), events },
                ),
                Err(fault) => Err(fault),
            };
        lemma_events_are_read_in_one_way(decode, data, 0, x, y);
    }
}

/// A compressed file and a plain one with the same content read alike, where equal
/// bytes decode alike: what comes of the compressed one is what comes of the plain
/// one, unless there was no memory to decompress it.
pub proof fn law_compressed_file_reads_like_its_content<D: Fn(&[u8]) -> Result<Event, String>>(
    decode: D,
    raw: Seq<u8>,
    content: Seq<u8>,
    extension: Option<Seq<u8>>,
    compressed: Result<ArchiveView, ReadArchiveFault>,
    plain: Result<ArchiveView, ReadArchiveFault>,
)
    requires
        decodes_alike::<Event, D>(decode),
        zstd_content(raw) == Some(content),
        file_read(decode, raw, Some(seq![0x7au8, 0x73, 0x74]), compressed),
        !is_zst(extension),
        file_read(decode, content, extension, plain),
    ensures
        compressed == plain || (compressed matches Err(
            ReadArchiveFault::Decompress { kind, description },
        ) && lacks_memory(kind, description)),
{
    if archive_read(decode, content, compressed) {
        law_archive_is_read_in_one_way(decode, content, compressed, plain);
    }
}

/// A decompression is one call of `zstd_decode`, and nothing else.
pub(crate) proof fn law_decompression_is_one_call(raw: Seq<u8>, r: Result<Vec<u8>, IoFault>)
    ensures
        decompresses_to(raw, r) <==> exists|bytes: &[u8]|
            bytes@ == raw && #[trigger] call_ensures(zstd_decode, (bytes,), r),
{
}

/// What decompression gives is the content of the data; where it gives none, the data
/// have no content or there was no memory.
pub proof fn law_decompression_gives_the_content(raw: Seq<u8>, r: Result<Vec<u8>, IoFault>)
    requires
        decompresses_to(raw, r),
    ensures
        match r {
            Ok(content) => zstd_content(raw) == Some(content@),
            Err(fault) => zstd_content(raw) is None || lacks_memory(fault.kind, fault.message@),
        },
{
    let bytes = choose|bytes: &[u8]|
        bytes@ == raw && #[trigger] call_ensures(zstd_decode, (bytes,), r);
    assert(call_ensures(zstd_decode, (bytes,), r));
}

proof fn lemma_reading_events_decompresses_nothing<D: Fn(&[u8]) -> Result<Event, String>>(
    decode: D,
    data: Seq<u8>,
    cursor: nat,
    r: Result<Seq<Event>, ReadArchiveFault>,
)
    requires
        events_read(decode, data, cursor, r),
    ensures
        !(r matches Err(ReadArchiveFault::Decompress { .. })),
    decreases data.len() - cursor,
{
    if cursor < data.len() {
        if let Ok((length, n)) = parse_length(data.skip(cursor as int)) {
            let start = cursor + n;
            if length <= data.len() - start && r is Err {
                let payload = data.subrange(start as int, start + length);
                let decoded = choose|decoded: Result<Event, String>| #[trigger]
                    decodes(decode, payload, decoded) && match decoded {
                        Err(text) => r == Err::<Seq<Event>, ReadArchiveFault>(
                            ReadArchiveFault::Decode { at: cursor, description: text@ },
                        ),
                        Ok(event) => events_read(decode, data, start + length as nat, r),
                    };
                if decoded is Ok {
                    lemma_reading_events_decompresses_nothing(
                        decode,
                        data,
                        start + length as nat,
                        r,
                    );
                }
            }
        }
    }
}

/// A compressed file that is refused as one that could not be decompressed is refused
/// with the error that its decompression gave; and where its decompression gives
/// nothing but the content, it reads as that content.
pub proof fn law_refusal_is_that_of_the_decompression<D: Fn(&[u8]) -> Result<Event, String>>(
    decode: D,
    raw: Seq<u8>,
    r: Result<ArchiveView, ReadArchiveFault>,
)
    requires
        file_read(decode, raw, Some(seq![0x7au8, 0x73, 0x74]), r),
    ensures
        r matches Err(ReadArchiveFault::Decompress { kind, description }) ==> exists|
            fault: IoFault,
        | #[trigger]
            decompresses_to(raw, Err(fault)) && fault.kind == kind && fault.message@ == description,
        (forall|d: Result<Vec<u8>, IoFault>| #[trigger] decompresses_to(raw, d) ==> d is Ok)
            ==> (zstd_content(raw) matches Some(content) && archive_read(decode, content, r)),
{
    let d = choose|d: Result<Vec<u8>, IoFault>| #[trigger]
        decompresses_to(raw, d) && match d {
            Ok(content) => archive_read(decode, content@, r),
            Err(fault) => r == Err::<ArchiveView, ReadArchiveFault>(
                ReadArchiveFault::Decompress { kind: fault.kind, description: fault.message@ },
            ),
        };
    law_decompression_gives_the_content(raw, d);
    match d {
        Ok(content) => {
            let s = content@;
            if s.len() >= HEADER_SIZE && s[0] == MAGIC[0] && s[1] == MAGIC[1] {
                let data = s.skip(HEADER_SIZE as int);
                let x = choose|x: Result<Seq<Event>, ReadArchiveFault>|
                    #[trigger] events_read(decode, data, 0, x) && r == match x {
                        Ok(events) => Ok::<ArchiveView, ReadArchiveFault>(
                            ArchiveView { version: s[2], git_hash: s.subrange(3, 7), events },
                        ),
                        Err(fault) => Err(fault),
                    };
                lemma_reading_events_decompresses_nothing(decode, data, 0, x);
            }
        },
        Err(fault) => {
            assert(decompresses_to(raw, Err(fault)));
        },
    }
}

/// A file is compressed exactly if its extension is the letters `zst`.
pub proof fn law_compressed_files_end_in_zst(extension: Seq<u8>)
    ensures
        is_zst(Some(extension)) <==> extension.map_values(|b: u8| b as char) == "zst"@,
        !is_zst(None),
{
    reveal_strlit("zst");
    let zst = seq![0x7au8, 0x73, 0x74];
    let letters = extension.map_values(|b: u8| b as char);
    if is_zst(Some(extension)) {
        assert(extension == zst);
        assert(letters =~= "zst"@);
    }
    if letters == "zst"@ {
        assert(letters.len() == 3);
        assert(letters[0] == 'z' && letters[1] == 's' && letters[2] == 't');
        assert(extension[0] as char == 'z' && extension[1] as char == 's' && extension[2] as char
            == 't');
        assert(extension =~= zst);
        assert(Some(extension) == Some(zst));
    }
}

/// What the front of an archive file comes to: less than sixteen bytes are refused
/// with their number, other letters than `PA` with these letters; the byte behind the
/// letters is the version, and the four bytes behind it are the hash.
pub proof fn law_front_of_a_file<D: Fn(&[u8]) -> Result<Event, String>>(
    decode: D,
    s: Seq<u8>,
    r: Result<ArchiveView, ReadArchiveFault>,
)
    requires
        archive_read(decode, s, r),
    ensures
        s.len() < 16 <==> r == Err::<ArchiveView, ReadArchiveFault>(
            ReadArchiveFault::TooSmall(s.len()),
        ),
        s.len() >= 16 && !(s[0] == 'P' as u8 && s[1] == 'A' as u8) ==> r == Err::<
            ArchiveView,
            ReadArchiveFault,
        >(ReadArchiveFault::BadMagic(s[0], s[1])),
        r matches Ok(archive) ==> {
            &&& s.len() >= 16
            &&& s[0] == 'P' as u8 && s[1] == 'A' as u8
            &&& archive.version == s[2]
            &&& archive.git_hash == seq![s[3], s[4], s[5], s[6]]
        },
{
    if s.len() >= HEADER_SIZE && s[0] == MAGIC[0] && s[1] == MAGIC[1] {
        assert(s.subrange(3, 7) =~= seq![s[3], s[4], s[5], s[6]]);
        let data = s.skip(HEADER_SIZE as int);
        let x = choose|x: Result<Seq<Event>, ReadArchiveFault>|
            #[trigger] events_read(decode, data, 0, x) && r == match x {
                Ok(events) => Ok::<ArchiveView, ReadArchiveFault>(
                    ArchiveView { version: s[2], git_hash: s.subrange(3, 7), events },
                ),
                Err(fault) => Err(fault),
            };
        lemma_reading_events_finds_no_small_file(decode, data, 0, x);
    }
}

proof fn lemma_reading_events_finds_no_small_file<D: Fn(&[u8]) -> Result<Event, String>>(
    decode: D,
    data: Seq<u8>,
    cursor: nat,
    r: Result<Seq<Event>, ReadArchiveFault>,
)
    requires
        events_read(decode, data, cursor, r),
    ensures
        !(r matches Err(ReadArchiveFault::TooSmall(_))),
    decreases data.len() - cursor,
{
    if cursor < data.len() {
        if let Ok((length, n)) = parse_length(data.skip(cursor as int)) {
            let start = cursor + n;
            if length <= data.len() - start && r is Err {
                let payload = data.subrange(start as int, start + length);
                let decoded = choose|decoded: Result<Event, String>| #[trigger]
                    decodes(decode, payload, decoded) && match decoded {
                        Err(text) => r == Err::<Seq<Event>, ReadArchiveFault>(
                            ReadArchiveFault::Decode { at: cursor, description: text@ },
                        ),
                        Ok(event) => events_read(decode, data, start + length as nat, r),
                    };
                if decoded is Ok {
                    lemma_reading_events_finds_no_small_file(
                        decode,
                        data,
                        start + length as nat,
                        r,
                    );
                }
            }
        }
    }
}

/// A file that is written begins with the letters `PA`, the version and the hash, is
/// filled up with zeros to sixteen bytes, and then holds the messages.
pub proof fn law_written_file_is_laid_out(version: u8, hash: Seq<u8>, payloads: Seq<Seq<u8>>)
    requires
        hash.len() == 4,
    ensures
        archive_bytes(version, hash, payloads) == seq![
            'P' as u8,
            'A' as u8,
            version,
            hash[0],
            hash[1],
            hash[2],
            hash[3],
            0,
            0,
            0,
            0,
            0,
            0,
            0,
            0,
            0,
        ] + framed_all(payloads),
{
    assert(archive_bytes(version, hash, payloads) =~= seq![
        'P' as u8,
        'A' as u8,
        version,
        hash[0],
        hash[1],
        hash[2],
        hash[3],
        0,
        0,
        0,
        0,
        0,
        0,
        0,
        0,
        0,
    ] + framed_all(payloads));
}

/// An event that does not decode is an error, with the place at which it begins and the
/// description that decoding gave, whatever follows it.
pub proof fn law_malformed_event_in_a_file<D: Fn(&[u8]) -> Result<Event, String>>(
    decode: D,
    version: u8,
    git_hash: Seq<u8>,
    payloads: Seq<Seq<u8>>,
    events: Seq<Event>,
    bad: Seq<u8>,
    description: Seq<char>,
    rest: Seq<u8>,
    r: Result<ArchiveView, ReadArchiveFault>,
)
    requires
        git_hash.len() == 4,
        payloads.len() == events.len(),
        forall|i: int| 0 <= i < payloads.len() ==> #[trigger] payloads[i].len() <= usize::MAX,
        forall|i: int, decoded: Result<Event, String>|
            0 <= i < payloads.len() && #[trigger] decodes(decode, payloads[i], decoded) ==> decoded
                == Ok::<Event, String>(events[i]),
        bad.len() <= usize::MAX,
        forall|decoded: Result<Event, String>| #[trigger]
            decodes(decode, bad, decoded) ==> (decoded matches Err(text) && text@ == description),
        archive_read(
            decode,
            archive_bytes(version, git_hash, payloads) + (framed(bad) + rest),
            r,
        ),
    ensures
        r == Err::<ArchiveView, ReadArchiveFault>(
            ReadArchiveFault::Decode { at: framed_all(payloads).len(), description },
        ),
{
    let tail = framed(bad) + rest;
    let s = archive_bytes(version, git_hash, payloads) + tail;
    let data = s.skip(HEADER_SIZE as int);
    let none = Seq::<u8>::empty();
    assert(data =~= none + framed_all(payloads) + tail);
    let read = choose|read: Result<Seq<Event>, ReadArchiveFault>|
        #[trigger] events_read(decode, data, 0, read) && r == match read {
            Ok(events) => Ok::<ArchiveView, ReadArchiveFault>(
                ArchiveView { version: s[2], git_hash: s.subrange(3, 7), events },
            ),
            Err(fault) => Err(fault),
        };
    lemma_written_events_are_read(decode, none, payloads, events, tail, read);
    let v = varint(bad.len());
    let at = framed_all(payloads).len();
    assert(data.skip(at as int) =~= v + (bad + rest));
    lemma_varint_shape(bad.len());
    law_varint_round_trip(bad.len() as u64, bad + rest);
    assert(data.subrange((at + v.len()) as int, (at + v.len() + bad.len()) as int) =~= bad);
}

/// A failure to read a file is described with its numbers and letters in full.
pub proof fn law_read_failures_are_described(
    at: nat,
    promised: nat,
    available: nat,
    a: u8,
    b: u8,
    description: Seq<char>,
    kind: ErrorKind,
)
    ensures
        read_fault_text(ReadArchiveFault::Decompress { kind, description }) == description,
        read_fault_kind(ReadArchiveFault::Decompress { kind, description }) == kind,
        read_fault_kind(ReadArchiveFault::TooSmall(at)) == ErrorKind::Other,
        read_fault_kind(ReadArchiveFault::BadMagic(a, b)) == ErrorKind::Other,
        read_fault_kind(ReadArchiveFault::BadLength { at, description }) == ErrorKind::Other,
        read_fault_kind(ReadArchiveFault::Overrun { at, promised, available })
            == ErrorKind::Other,
        read_fault_kind(ReadArchiveFault::Decode { at, description }) == ErrorKind::Other,
        exists|n: Seq<char>| #[trigger]
            is_numeral(n, at as int) && read_fault_text(ReadArchiveFault::TooSmall(at))
                == "file too small: "@ + n + " bytes"@ && read_fault_text(
                ReadArchiveFault::BadLength { at, description },
            ) == "bad length at byte "@ + n + ": "@ + description && read_fault_text(
                ReadArchiveFault::Decode { at, description },
            ) == "decode error at byte "@ + n + ": "@ + description,
        exists|n: Seq<char>, p: Seq<char>, q: Seq<char>|
            #![trigger is_numeral(n, at as int), is_numeral(p, promised as int), is_numeral(q, available as int)]
            is_numeral(n, at as int) && is_numeral(p, promised as int) && is_numeral(
                q,
                available as int,
            ) && read_fault_text(ReadArchiveFault::Overrun { at, promised, available })
                == "bad length at byte "@ + n + ": "@ + p + " bytes promised, "@ + q
                + " available"@,
        exists|digits: Seq<char>| #![trigger is_hex_of(digits, 0, a)]
            digits.len() == 4 && is_hex_of(digits, 0, a) && is_hex_of(digits, 1, b)
                && read_fault_text(ReadArchiveFault::BadMagic(a, b)) == "invalid magic: "@ + digits
                + " (expected \"PA\")"@,
{
    law_decimal_reads_back(at);
    law_decimal_reads_back(promised);
    law_decimal_reads_back(available);
    law_hex_byte_reads_back(a);
    law_hex_byte_reads_back(b);
    assert(is_numeral(decimal(at), at as int) && is_numeral(decimal(promised), promised as int)
        && is_numeral(decimal(available), available as int));
    let digits = hex_byte(a) + hex_byte(b);
    assert(digits[0] == hex_byte(a)[0] && digits[1] == hex_byte(a)[1]);
    assert(digits[2] == hex_byte(b)[0] && digits[3] == hex_byte(b)[1]);
    assert(is_hex_of(digits, 0, a) && is_hex_of(digits, 1, b));
    assert(read_fault_text(ReadArchiveFault::BadMagic(a, b)) =~= "invalid magic: "@ + digits
        + " (expected \"PA\")"@);
}

/// The view of an archive, and that of an error, are what is in them.
pub proof fn law_archives_are_what_they_hold(archive: Archive, fault: IoFault)
    ensures
        archive@.version == archive.header.version,
        archive@.git_hash == archive.header.git_hash@,
        archive@.events == archive.events@,
        archive_outcome(Ok(archive)) == Ok::<ArchiveView, ReadArchiveFault>(archive@),
        archive_outcome(Err(ReadArchiveError::Decompress(fault))) == Err::<
            ArchiveView,
            ReadArchiveFault,
        >(ReadArchiveFault::Decompress { kind: fault.kind, description: fault.message@ }),
{
}

/// How the events of a file are read one after the other: an event behind a length
/// delimiter, which need not be the shortest, is what its bytes decode to, and reading
/// goes on behind it; a delimiter that does not decode, or that promises more bytes than
/// there are, ends it; and the end of the data is the end of the events.
pub proof fn law_events_follow_each_other<D: Fn(&[u8]) -> Result<Event, String>>(
    decode: D,
    before: Seq<u8>,
    delimiter: Seq<u8>,
    payload: Seq<u8>,
    rest: Seq<u8>,
    event: Event,
    r: Result<Seq<Event>, ReadArchiveFault>,
)
    requires
        1 <= delimiter.len() <= 10,
        continuation_run(delimiter) == delimiter.len() - 1,
        base128(delimiter) <= usize::MAX,
        forall|decoded: Result<Event, String>| #[trigger]
            decodes(decode, payload, decoded) ==> decoded == Ok::<Event, String>(event),
        events_read(decode, before + delimiter + payload + rest, before.len(), r),
    ensures
        base128(delimiter) == payload.len() ==> {
            let next = before.len() + delimiter.len() + payload.len();
            let data = before + delimiter + payload + rest;
            match r {
                Ok(events) => events.len() > 0 && events[0] == event && events_read(
                    decode,
                    data,
                    next,
                    Ok(events.skip(1)),
                ),
                Err(fault) => events_read(decode, data, next, Err(fault)),
            }
        },
        base128(delimiter) > payload.len() + rest.len() ==> r == Err::<
            Seq<Event>,
            ReadArchiveFault,
        >(
            ReadArchiveFault::Overrun {
                at: before.len(),
                promised: base128(delimiter),
                available: payload.len() + rest.len(),
            },
        ),
{
    let data = before + delimiter + payload + rest;
    assert(data.skip(before.len() as int) =~= delimiter + (payload + rest));
    lemma_varint_prefix(delimiter, payload + rest);
    assert(delimiter.take(delimiter.len() as int) =~= delimiter);
    let start = (before.len() + delimiter.len()) as int;
    assert(data.subrange(start, start + payload.len()) =~= payload);
}

/// The end of the data is the end of the events, and a delimiter that does not decode is
/// an error with its place.
pub proof fn law_events_end_with_the_data<D: Fn(&[u8]) -> Result<Event, String>>(
    decode: D,
    data: Seq<u8>,
    cursor: nat,
    r: Result<Seq<Event>, ReadArchiveFault>,
)
    requires
        events_read(decode, data, cursor, r),
    ensures
        cursor >= data.len() ==> r == Ok::<Seq<Event>, ReadArchiveFault>(Seq::empty()),
        cursor < data.len() ==> (parse_length(data.skip(cursor as int)) matches Err(description)
            ==> r == Err::<Seq<Event>, ReadArchiveFault>(
            ReadArchiveFault::BadLength { at: cursor, description },
        )),
{
}

} // verus!
