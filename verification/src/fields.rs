//! The fields of a protobuf message: keys, unsigned and boolean values, and
//! fields that are passed over.
use crate::text::decimal;
use crate::wire::{
    decode_error, field_error, law_varint_round_trip, parse_varint, varint, varint_field,
};
use vstd::prelude::*;

verus! {

/// The largest field number.
pub const MAX_TAG: u32 = 0x1fff_ffff;

/// The wire type of an unsigned or boolean field.
pub const VARINT: u8 = 0;

/// The wire type of a group's opening key.
pub const START_GROUP: u8 = 3;

/// The wire type of a group's closing key.
pub const END_GROUP: u8 = 4;

/// How many levels deep the fields that are passed over may be nested.
pub const NESTING_LIMIT: u32 = 100;

/// The name of a wire type.
pub open spec fn wire_type_name(wire_type: u8) -> Seq<char> {
    if wire_type == 0 {
        "Varint"@
    } else if wire_type == 1 {
        "SixtyFourBit"@
    } else if wire_type == 2 {
        "LengthDelimited"@
    } else if wire_type == 3 {
        "StartGroup"@
    } else if wire_type == 4 {
        "EndGroup"@
    } else {
        "ThirtyTwoBit"@
    }
}

/// The field number and the wire type in the key at the front of `s`, and the
/// bytes that the key takes, or the description of the error.
pub open spec fn parse_key(s: Seq<u8>) -> Result<(u32, u8, nat), Seq<char>> {
    match parse_varint(s) {
        None => Err(decode_error("invalid varint"@)),
        Some((key, n)) => if key > u32::MAX {
            Err(decode_error("invalid key value: "@ + decimal(key as nat)))
        } else if key % 8 > 5 {
            Err(decode_error("invalid wire type value: "@ + decimal((key % 8) as nat)))
        } else if key / 8 == 0 {
            Err(decode_error("invalid tag value: 0"@))
        } else {
            Ok(((key / 8) as u32, (key % 8) as u8, n))
        },
    }
}

/// The value of an unsigned field that a message of the given name reads from
/// the front of `s`, and the bytes that it takes, or the description of the
/// error.
pub open spec fn parse_uint64(
    message: Seq<char>,
    field: Seq<char>,
    wire_type: u8,
    s: Seq<u8>,
) -> Result<(u64, nat), Seq<char>> {
    if wire_type != VARINT {
        Err(
            field_error(
                message,
                field,
                "invalid wire type: "@ + wire_type_name(wire_type) + " (expected Varint)"@,
            ),
        )
    } else {
        match parse_varint(s) {
            None => Err(field_error(message, field, "invalid varint"@)),
            Some((value, n)) => Ok((value, n)),
        }
    }
}

/// The bytes that a field takes behind its key when nothing is made of it, or the
/// description of the error.
pub open spec fn parse_skipped(wire_type: u8, tag: u32, s: Seq<u8>) -> Result<nat, Seq<char>> {
    skipped_within(NESTING_LIMIT as nat, wire_type, tag, s)
}

/// What `parse_skipped` gives for a field in which groups may be nested `limit`
/// levels deep, counting the field itself.
pub open spec fn skipped_within(limit: nat, wire_type: u8, tag: u32, s: Seq<u8>) -> Result<
    nat,
    Seq<char>,
>
    decreases limit, s.len(), 1nat,
{
    if limit == 0 {
        Err(decode_error("recursion limit reached"@))
    } else if wire_type == VARINT {
        match parse_varint(s) {
            None => Err(decode_error("invalid varint"@)),
            Some((_, n)) => Ok(n),
        }
    } else if wire_type == 2 {
        match parse_varint(s) {
            None => Err(decode_error("invalid varint"@)),
            Some((length, n)) => if length > s.len() - n {
                Err(decode_error("buffer underflow"@))
            } else {
                Ok(n + length as nat)
            },
        }
    } else if wire_type == START_GROUP {
        group_within((limit - 1) as nat, tag, s)
    } else if wire_type == END_GROUP {
        Err(decode_error("unexpected end group tag"@))
    } else {
        let width: nat = if wire_type == 1 {
            8
        } else {
            4
        };
        if s.len() < width {
            Err(decode_error("buffer underflow"@))
        } else {
            Ok(width)
        }
    }
}

/// The bytes that the group with field number `tag` takes behind its opening key: its
/// fields, each of which is passed over, and its closing key. Or the description
/// of the error.
pub open spec fn group_within(limit: nat, tag: u32, s: Seq<u8>) -> Result<nat, Seq<char>>
    decreases limit, s.len(), 0nat,
{
    match parse_key(s) {
        Err(text) => Err(text),
        Ok((inner, wire_type, n)) => if wire_type == END_GROUP {
            if inner == tag {
                Ok(n)
            } else {
                Err(decode_error("unexpected end group tag"@))
            }
        } else {
            match skipped_within(limit, wire_type, inner, s.skip(n as int)) {
                Err(text) => Err(text),
                Ok(m) => if n + m > s.len() {
                    Err(decode_error("buffer underflow"@))
                } else {
                    match group_within(limit, tag, s.skip((n + m) as int)) {
                        Err(text) => Err(text),
                        Ok(k) => Ok(n + m + k),
                    }
                },
            }
        },
    }
}

/// No field that is passed over takes more bytes than there are.
pub proof fn lemma_skipped_bytes(wire_type: u8, tag: u32, s: Seq<u8>)
    ensures
        parse_skipped(wire_type, tag, s) matches Ok(n) ==> n <= s.len(),
{
    lemma_skipped_within(NESTING_LIMIT as nat, wire_type, tag, s);
}

proof fn lemma_skipped_within(limit: nat, wire_type: u8, tag: u32, s: Seq<u8>)
    ensures
        skipped_within(limit, wire_type, tag, s) matches Ok(n) ==> n <= s.len(),
{
    if limit > 0 && wire_type == START_GROUP {
        lemma_group_within((limit - 1) as nat, tag, s);
    }
}

proof fn lemma_group_within(limit: nat, tag: u32, s: Seq<u8>)
    ensures
        group_within(limit, tag, s) matches Ok(n) ==> n <= s.len(),
    decreases s.len(),
{
    if let Ok((inner, wire_type, n)) = parse_key(s) {
        if let Ok(m) = skipped_within(limit, wire_type, inner, s.skip(n as int)) {
            if n + m <= s.len() {
                lemma_group_within(limit, tag, s.skip((n + m) as int));
            }
        }
    }
}

/// A key decoded with `prost::encoding::decode_key`: the field number, the wire
/// type as its number, and what is left of `data` behind the key.
///
/// Trusted: the key is the varint at the front of `data`; its low three bits are
/// the wire type and the rest is the field number; an error comes exactly where
/// there is no such varint, where it does not fit in 32 bits, where no wire type
/// has that number or where the field number is zero, the first of these that
/// holds, and is described accordingly.
#[verifier::external_body]
pub(crate) fn decode_key<'a>(data: &'a [u8]) -> (r: Result<(u32, u8, &'a [u8]), String>)
    ensures
        match parse_key(data@) {
            Ok((tag, wire_type, n)) => r matches Ok((t, w, rest)) && t == tag && w == wire_type
                && rest@ == data@.skip(n as int),
            Err(text) => r matches Err(t) && t@ == text,
        },
{
    let mut rest = data;
    match prost::encoding::decode_key(&mut rest) {
        Ok((tag, wire_type)) => Ok((tag, wire_type as u8, rest)),
        Err(error) => Err(error.to_string()),
    }
}

/// An unsigned field decoded with `prost::encoding::uint64::merge`, where an
/// error is put down to a field of a message with `prost::DecodeError::push`:
/// the value, and what is left of `data` behind it.
///
/// Trusted: the value is the varint at the front of `data`; an error comes
/// exactly where the wire type is not that of varints or where there is no such
/// varint, and is described accordingly, with the names of message and field.
#[verifier::external_body]
pub(crate) fn merge_uint64<'a>(
    message: &'static str,
    field: &'static str,
    wire_type: u8,
    data: &'a [u8],
) -> (r: Result<(u64, &'a [u8]), String>)
    requires
        wire_type <= 5,
    ensures
        match parse_uint64(message@, field@, wire_type, data@) {
            Ok((value, n)) => r matches Ok((v, rest)) && v == value && rest@ == data@.skip(
                n as int,
            ),
            Err(text) => r matches Err(t) && t@ == text,
        },
{
    let mut rest = data;
    let mut value: u64 = 0;
    let wire_type = match prost::encoding::WireType::try_from(u64::from(wire_type)) {
        Ok(wire_type) => wire_type,
        Err(error) => return Err(error.to_string()),
    };
    let context = prost::encoding::DecodeContext::default();
    match prost::encoding::uint64::merge(wire_type, &mut value, &mut rest, context) {
        Ok(()) => Ok((value, rest)),
        Err(mut error) => {
            error.push(message, field);
            Err(error.to_string())
        },
    }
}

/// A boolean field decoded with `prost::encoding::bool::merge`, where an error is
/// put down to a field of a message with `prost::DecodeError::push`: the value,
/// and what is left of `data` behind it.
///
/// Trusted: the value is whether the varint at the front of `data` is not zero;
/// errors are those of an unsigned field.
#[verifier::external_body]
pub(crate) fn merge_bool<'a>(
    message: &'static str,
    field: &'static str,
    wire_type: u8,
    data: &'a [u8],
) -> (r: Result<(bool, &'a [u8]), String>)
    requires
        wire_type <= 5,
    ensures
        match parse_uint64(message@, field@, wire_type, data@) {
            Ok((value, n)) => r matches Ok((v, rest)) && v == (value != 0) && rest@ == data@.skip(
                n as int,
            ),
            Err(text) => r matches Err(t) && t@ == text,
        },
{
    let mut rest = data;
    let mut value: bool = false;
    let wire_type = match prost::encoding::WireType::try_from(u64::from(wire_type)) {
        Ok(wire_type) => wire_type,
        Err(error) => return Err(error.to_string()),
    };
    let context = prost::encoding::DecodeContext::default();
    match prost::encoding::bool::merge(wire_type, &mut value, &mut rest, context) {
        Ok(()) => Ok((value, rest)),
        Err(mut error) => {
            error.push(message, field);
            Err(error.to_string())
        },
    }
}

/// A field passed over with `prost::encoding::skip_field`: what is left of `data`
/// behind it.
///
/// Trusted: a varint is passed over as a whole, a field of fixed width by its
/// four or eight bytes, a length-delimited one by its delimiter and that many
/// bytes, and a group by its fields and the closing key with its number. An error
/// comes exactly where one of these is not there, where a closing key does not
/// belong to the group, or where groups are nested too deep, and is described
/// accordingly.
#[verifier::external_body]
pub(crate) fn skip_field<'a>(wire_type: u8, tag: u32, data: &'a [u8]) -> (r: Result<
    &'a [u8],
    String,
>)
    requires
        wire_type <= 5,
    ensures
        match parse_skipped(wire_type, tag, data@) {
            Ok(n) => r matches Ok(rest) && rest@ == data@.skip(n as int),
            Err(text) => r matches Err(t) && t@ == text,
        },
{
    let mut rest = data;
    let wire_type = match prost::encoding::WireType::try_from(u64::from(wire_type)) {
        Ok(wire_type) => wire_type,
        Err(error) => return Err(error.to_string()),
    };
    let context = prost::encoding::DecodeContext::default();
    match prost::encoding::skip_field(wire_type, tag, &mut rest, context) {
        Ok(()) => Ok(rest),
        Err(error) => Err(error.to_string()),
    }
}

/// An unsigned field appended with `prost::encoding::uint64::encode`.
///
/// Trusted: what is appended is the key of field `tag` with the wire type of
/// varints, and then the shortest varint of `value`.
#[verifier::external_body]
pub(crate) fn encode_uint64(tag: u32, value: u64, out: &mut Vec<u8>)
    requires
        1 <= tag <= MAX_TAG,
    ensures
        final(out)@ == old(out)@ + varint_field(tag, value),
{
    prost::encoding::uint64::encode(tag, &value, out);
}

/// A boolean field appended with `prost::encoding::bool::encode`.
///
/// Trusted: what is appended is the key of field `tag` with the wire type of
/// varints, and then the byte 1 for true or 0 for false.
#[verifier::external_body]
pub(crate) fn encode_bool(tag: u32, value: bool, out: &mut Vec<u8>)
    requires
        1 <= tag <= MAX_TAG,
    ensures
        final(out)@ == old(out)@ + varint_field(tag, if value { 1 } else { 0 }),
{
    prost::encoding::bool::encode(tag, &value, out);
}

/// A field that was written is read back: its key, its value, and where they
/// end.
pub proof fn law_field_round_trip(
    message: Seq<char>,
    field: Seq<char>,
    tag: u32,
    value: u64,
    rest: Seq<u8>,
)
    requires
        1 <= tag <= MAX_TAG,
    ensures
        ({
            let s = varint_field(tag, value) + rest;
            let key_bytes = varint((8 * tag) as nat).len();
            &&& parse_key(s) == Ok::<(u32, u8, nat), Seq<char>>((tag, VARINT, key_bytes))
            &&& s.skip(key_bytes as int) == varint(value as nat) + rest
            &&& parse_uint64(message, field, VARINT, s.skip(key_bytes as int)) == Ok::<
                (u64, nat),
                Seq<char>,
            >((value, varint(value as nat).len()))
            &&& s.skip(key_bytes as int).skip(varint(value as nat).len() as int) == rest
        }),
{
    let s = varint_field(tag, value) + rest;
    let key = varint((8 * tag) as nat);
    assert(s =~= key + (varint(value as nat) + rest));
    law_varint_round_trip((8 * tag) as u64, varint(value as nat) + rest);
    assert(s.skip(key.len() as int) =~= varint(value as nat) + rest);
    law_varint_round_trip(value, rest);
    assert((varint(value as nat) + rest).skip(varint(value as nat).len() as int) =~= rest);
}

} // verus!
