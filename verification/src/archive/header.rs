//! The header message of an archive.
use crate::fields::{
    decode_key, encode_bool, encode_uint64, law_field_round_trip, lemma_skipped_bytes, merge_bool,
    merge_uint64, parse_key, parse_skipped, parse_uint64, skip_field,
};
use crate::text::{decimal, is_numeral, law_decimal_reads_back, push_decimal};
use crate::wire::{framed, push_framed, varint, varint_field};
use vstd::prelude::*;

verus! {

/// The field number of the time at which an archive was created.
pub const CREATED: u32 = 1;

/// The field number of the mark of low-data archives.
pub const LOW_DATA: u32 = 2;

/// What an archive says of itself.
#[derive(Clone, Copy, Debug, PartialEq, Eq, Structural)]
pub struct ArchiveHeader {
    /// When the archive was created, in milliseconds since the Unix epoch.
    pub created: u64,
    /// Whether the archive leaves out bulky data; archives written before this
    /// field existed do not say.
    pub low_data: Option<bool>,
}

/// The message that holds the fields of `header`.
pub open spec fn header_payload(header: ArchiveHeader) -> Seq<u8> {
    varint_field(CREATED, header.created) + match header.low_data {
        None => Seq::empty(),
        Some(low_data) => varint_field(LOW_DATA, if low_data { 1 } else { 0 }),
    }
}

/// What becomes of `header` when the fields in `s` are read into it, one after
/// the other: a known field takes the value read last, an unknown one is passed
/// over, and the first error ends it.
pub open spec fn parse_header(s: Seq<u8>, header: ArchiveHeader) -> Result<
    ArchiveHeader,
    Seq<char>,
>
    decreases s.len(),
{
    if s.len() == 0 {
        Ok(header)
    } else {
        match parse_key(s) {
            Err(text) => Err(text),
            Ok((tag, wire_type, n)) => {
                let rest = s.skip(n as int);
                if tag == CREATED {
                    match parse_uint64("ArchiveHeader"@, "created"@, wire_type, rest) {
                        Err(text) => Err(text),
                        Ok((value, m)) => parse_header(
                            rest.skip(m as int),
                            ArchiveHeader { created: value, ..header },
                        ),
                    }
                } else if tag == LOW_DATA {
                    match parse_uint64("ArchiveHeader"@, "low_data"@, wire_type, rest) {
                        Err(text) => Err(text),
                        Ok((value, m)) => parse_header(
                            rest.skip(m as int),
                            ArchiveHeader { low_data: Some(value != 0), ..header },
                        ),
                    }
                } else {
                    proof {
                        lemma_skipped_bytes(wire_type, tag, rest);
                    }
                    match parse_skipped(wire_type, tag, rest) {
                        Err(text) => Err(text),
                        Ok(m) => parse_header(rest.skip(m as int), header),
                    }
                }
            },
        }
    }
}

/// The header without any field set.
pub open spec fn empty_header() -> ArchiveHeader {
    ArchiveHeader { created: 0, low_data: None }
}

/// The header that the message `s` holds, or the description of the error.
pub open spec fn decoded_header(s: Seq<u8>) -> Result<ArchiveHeader, Seq<char>> {
    parse_header(s, empty_header())
}

/// The line that shows `header`.
pub open spec fn header_text(header: ArchiveHeader) -> Seq<char> {
    "ArchiveHeader(created="@ + decimal(header.created as nat) + ", low_data="@ + (
    match header.low_data {
        Some(true) => "true"@,
        Some(false) => "false"@,
        None => "unknown"@,
    }) + ")"@
}

/// The clock read with `std::time::SystemTime::elapsed` on the Unix epoch, in
/// milliseconds; nothing where the clock stands before the epoch.
///
/// Trusted, with nothing claimed of the time.
#[verifier::external_body]
pub(crate) fn clock_millis() -> (r: Option<u64>) {
    match std::time::UNIX_EPOCH.elapsed() {
        Ok(elapsed) => Some(elapsed.as_millis() as u64),
        Err(_) => None,
    }
}

/// The timestamp that a reading of the clock stands for: its milliseconds, or 0
/// where the clock stands before the epoch.
pub fn timestamp_of(reading: Option<u64>) -> (r: u64)
    ensures
        r == match reading {
            Some(millis) => millis,
            None => 0,
        },
{
    match reading {
        Some(millis) => millis,
        None => 0,
    }
}

/// The current time in milliseconds since the Unix epoch, or 0 where the clock
/// stands before the epoch: what the clock showed in one reading of it.
pub fn current_timestamp() -> (r: u64)
    ensures
        is_clock_time(r),
{
    let reading = clock_millis();
    assert(is_clock_reading(reading));
    timestamp_of(reading)
}

/// Whether one reading of the clock, in a call of `clock_millis`, can come to
/// `reading`.
pub closed spec fn is_clock_reading(reading: Option<u64>) -> bool {
    call_ensures(clock_millis, (), reading)
}

/// Whether `timestamp` is what a reading of the clock stands for.
pub open spec fn is_clock_time(timestamp: u64) -> bool {
    exists|reading: Option<u64>| #[trigger]
        is_clock_reading(reading) && timestamp == match reading {
            Some(millis) => millis,
            None => 0,
        }
}

impl ArchiveHeader {
    /// The header of an archive that is created now.
    pub fn new(low_data: bool) -> (r: ArchiveHeader)
        ensures
            r.low_data == Some(low_data),
            is_clock_time(r.created),
    {
        ArchiveHeader::created_at(current_timestamp(), low_data)
    }

    /// The header of an archive that is created at the given time.
    pub fn created_at(created: u64, low_data: bool) -> (r: ArchiveHeader)
        ensures
            r == (ArchiveHeader { created, low_data: Some(low_data) }),
    {
        ArchiveHeader { created, low_data: Some(low_data) }
    }

    /// The header message with its length delimiter, as an archive begins.
    pub fn to_bytes(&self) -> (r: Vec<u8>)
        ensures
            r@ == framed(header_payload(*self)),
    {
        let mut payload: Vec<u8> = Vec::new();
        encode_uint64(CREATED, self.created, &mut payload);
        match self.low_data {
            None => {},
            Some(low_data) => {
                encode_bool(LOW_DATA, low_data, &mut payload);
            },
        }
        assert(payload@ =~= header_payload(*self));
        let mut bytes: Vec<u8> = Vec::new();
        push_framed(&mut bytes, payload.as_slice());
        assert(bytes@ =~= framed(header_payload(*self)));
        bytes
    }

    /// The header that a message holds.
    pub fn decode(payload: &[u8]) -> (r: Result<ArchiveHeader, String>)
        ensures
            match decoded_header(payload@) {
                Ok(header) => r == Ok::<ArchiveHeader, String>(header),
                Err(text) => r matches Err(t) && t@ == text,
            },
    {
        let mut header = ArchiveHeader { created: 0, low_data: None };
        let mut rest = payload;
        while rest.len() > 0
            invariant
                decoded_header(payload@) == parse_header(rest@, header),
            decreases rest@.len(),
        {
            let (tag, wire_type, body) = match decode_key(rest) {
                Ok(key) => key,
                Err(text) => {
                    return Err(text);
                },
            };
            if tag == CREATED {
                match merge_uint64("ArchiveHeader", "created", wire_type, body) {
                    Ok((value, behind)) => {
                        header.created = value;
                        rest = behind;
                    },
                    Err(text) => {
                        return Err(text);
                    },
                }
            } else if tag == LOW_DATA {
                match merge_bool("ArchiveHeader", "low_data", wire_type, body) {
                    Ok((value, behind)) => {
                        header.low_data = Some(value);
                        rest = behind;
                    },
                    Err(text) => {
                        return Err(text);
                    },
                }
            } else {
                proof {
                    lemma_skipped_bytes(wire_type, tag, body@);
                }
                match skip_field(wire_type, tag, body) {
                    Ok(behind) => {
                        rest = behind;
                    },
                    Err(text) => {
                        return Err(text);
                    },
                }
            }
        }
        Ok(header)
    }

    /// The line that shows the header.
    pub fn to_text(&self) -> (r: String)
        ensures
            r@ == header_text(*self),
    {
        let mut line = String::new();
        line.append("ArchiveHeader(created=");
        push_decimal(&mut line, self.created);
        line.append(", low_data=");
        match self.low_data {
            Some(true) => line.append("true"),
            Some(false) => line.append("false"),
            None => line.append("unknown"),
        }
        line.append(")");
        assert(line@ =~= header_text(*self));
        line
    }
}

/// Reading a header message gives back the header that was written.
pub proof fn law_header_round_trip(header: ArchiveHeader)
    ensures
        decoded_header(header_payload(header)) == Ok::<ArchiveHeader, Seq<char>>(header),
{
    let low = match header.low_data {
        None => Seq::<u8>::empty(),
        Some(low_data) => varint_field(LOW_DATA, if low_data { 1 } else { 0 }),
    };
    let s = header_payload(header);
    law_field_round_trip("ArchiveHeader"@, "created"@, CREATED, header.created, low);
    let first = ArchiveHeader { created: header.created, low_data: None };
    assert(decoded_header(s) == parse_header(low, first));
    match header.low_data {
        None => {},
        Some(low_data) => {
            let value: u64 = if low_data { 1 } else { 0 };
            let empty = Seq::<u8>::empty();
            assert(low =~= varint_field(LOW_DATA, value) + empty);
            law_field_round_trip("ArchiveHeader"@, "low_data"@, LOW_DATA, value, empty);
            assert(parse_header(low, first) == parse_header(empty, header));
        },
    }
}

/// A field that a header does not know is passed over, wherever it stands, and
/// changes nothing.
pub proof fn law_unknown_field_is_passed_over(
    s: Seq<u8>,
    header: ArchiveHeader,
    tag: u32,
    wire_type: u8,
    key_bytes: nat,
    body_bytes: nat,
)
    requires
        parse_key(s) == Ok::<(u32, u8, nat), Seq<char>>((tag, wire_type, key_bytes)),
        tag != CREATED && tag != LOW_DATA,
        parse_skipped(wire_type, tag, s.skip(key_bytes as int)) == Ok::<nat, Seq<char>>(body_bytes),
    ensures
        parse_header(s, header) == parse_header(
            s.skip((key_bytes + body_bytes) as int),
            header,
        ),
{
    let rest = s.skip(key_bytes as int);
    lemma_skipped_bytes(wire_type, tag, rest);
    assert(rest.skip(body_bytes as int) =~= s.skip((key_bytes + body_bytes) as int));
}

/// A header on the wire: the key of field 1 and the time of its creation, and behind
/// them, where the header says whether the archive leaves out bulky data, the key of
/// field 2 and a byte that is 1 or 0.
pub proof fn law_header_on_the_wire(created: u64)
    ensures
        header_payload(ArchiveHeader { created, low_data: None }) == seq![8u8] + varint(
            created as nat,
        ),
        header_payload(ArchiveHeader { created, low_data: Some(true) }) == seq![8u8] + varint(
            created as nat,
        ) + seq![16u8, 1u8],
        header_payload(ArchiveHeader { created, low_data: Some(false) }) == seq![8u8] + varint(
            created as nat,
        ) + seq![16u8, 0u8],
{
    reveal_with_fuel(varint, 2);
    assert(varint(8) =~= seq![8u8]);
    assert(varint(16) =~= seq![16u8]);
    assert(varint(1) =~= seq![1u8]);
    assert(varint(0) =~= seq![0u8]);
    assert(header_payload(ArchiveHeader { created, low_data: None }) =~= seq![8u8] + varint(
        created as nat,
    ));
    assert(header_payload(ArchiveHeader { created, low_data: Some(true) }) =~= seq![8u8] + varint(
        created as nat,
    ) + seq![16u8, 1u8]);
    assert(header_payload(ArchiveHeader { created, low_data: Some(false) }) =~= seq![8u8] + varint(
        created as nat,
    ) + seq![16u8, 0u8]);
}

/// Reading the field with the time of creation takes that time over whole, leaves the
/// rest of the header as it was, and goes on behind the field; reading the field on
/// bulky data does the same with that.
pub proof fn law_header_fields_are_taken_over(value: u64, rest: Seq<u8>, header: ArchiveHeader)
    ensures
        parse_header(varint_field(1, value) + rest, header) == parse_header(
            rest,
            ArchiveHeader { created: value, low_data: header.low_data },
        ),
        parse_header(varint_field(2, value) + rest, header) == parse_header(
            rest,
            ArchiveHeader { created: header.created, low_data: Some(value != 0) },
        ),
        parse_header(Seq::empty(), header) == Ok::<ArchiveHeader, Seq<char>>(header),
{
    law_field_round_trip("ArchiveHeader"@, "created"@, 1, value, rest);
    law_field_round_trip("ArchiveHeader"@, "low_data"@, 2, value, rest);
}

/// The line of a header shows when it was created, in full, and what it says on bulky
/// data.
pub proof fn law_header_text_reads_back(created: u64)
    ensures
        exists|digits: Seq<char>| #[trigger]
            is_numeral(digits, created as int) && header_text(
                ArchiveHeader { created, low_data: Some(true) },
            ) == "ArchiveHeader(created="@ + digits + ", low_data=true)"@ && header_text(
                ArchiveHeader { created, low_data: Some(false) },
            ) == "ArchiveHeader(created="@ + digits + ", low_data=false)"@ && header_text(
                ArchiveHeader { created, low_data: None },
            ) == "ArchiveHeader(created="@ + digits + ", low_data=unknown)"@,
{
    reveal_strlit(", low_data=");
    reveal_strlit("true");
    reveal_strlit("false");
    reveal_strlit("unknown");
    reveal_strlit(")");
    reveal_strlit(", low_data=true)");
    reveal_strlit(", low_data=false)");
    reveal_strlit(", low_data=unknown)");
    let digits = decimal(created as nat);
    law_decimal_reads_back(created as nat);
    assert(", low_data="@ + "true"@ + ")"@ =~= ", low_data=true)"@);
    assert(", low_data="@ + "false"@ + ")"@ =~= ", low_data=false)"@);
    assert(", low_data="@ + "unknown"@ + ")"@ =~= ", low_data=unknown)"@);
    assert(is_numeral(digits, created as int));
    assert(header_text(ArchiveHeader { created, low_data: Some(true) })
        =~= "ArchiveHeader(created="@ + digits + ", low_data=true)"@);
    assert(header_text(ArchiveHeader { created, low_data: Some(false) })
        =~= "ArchiveHeader(created="@ + digits + ", low_data=false)"@);
    assert(header_text(ArchiveHeader { created, low_data: None })
        =~= "ArchiveHeader(created="@ + digits + ", low_data=unknown)"@);
}

/// The time that a header is created at is what a reading of the clock gave.
pub(crate) proof fn law_clock_time_was_read(timestamp: u64)
    requires
        is_clock_time(timestamp),
    ensures
        call_ensures(clock_millis, (), Some(timestamp)) || (timestamp == 0 && call_ensures(
            clock_millis,
            (),
            None,
        )),
{
}

} // verus!
