//! The protobuf wire format as far as archives use it: base-128 varints, the
//! length delimiters in front of messages, and the fields inside them.
use vstd::prelude::*;

verus! {

/// The longest varint, in bytes.
pub const MAX_VARINT_BYTES: usize = 10;

/// How many bytes at the front of `s` have their continuation bit set.
pub open spec fn continuation_run(s: Seq<u8>) -> nat
    decreases s.len(),
{
    if s.len() == 0 || s[0] < 0x80 {
        0
    } else {
        1 + continuation_run(s.skip(1))
    }
}

/// The number whose base-128 digits are the low seven bits of each byte, least
/// significant first.
pub open spec fn base128(s: Seq<u8>) -> nat
    decreases s.len(),
{
    if s.len() == 0 {
        0
    } else {
        (s[0] as nat) % 128 + 128 * base128(s.skip(1))
    }
}

/// The varint at the front of `s` and the number of bytes it takes: all bytes
/// up to the first one without continuation bit, provided that they are at most
/// ten and that their value fits in 64 bits.
pub open spec fn parse_varint(s: Seq<u8>) -> Option<(u64, nat)> {
    let n = continuation_run(s);
    if n < s.len() && n < MAX_VARINT_BYTES && base128(s.take(n as int + 1)) <= u64::MAX {
        Some((base128(s.take(n as int + 1)) as u64, n + 1))
    } else {
        None
    }
}

/// The shortest varint of `value`.
pub open spec fn varint(value: nat) -> Seq<u8>
    decreases value,
{
    if value < 128 {
        seq![value as u8]
    } else {
        seq![(value % 128 + 128) as u8] + varint(value / 128)
    }
}

/// A message with its length delimiter in front.
pub open spec fn framed(payload: Seq<u8>) -> Seq<u8> {
    varint(payload.len()) + payload
}

/// Several messages, each with its length delimiter, one after the other.
pub open spec fn framed_all(payloads: Seq<Seq<u8>>) -> Seq<u8>
    decreases payloads.len(),
{
    if payloads.len() == 0 {
        Seq::empty()
    } else {
        framed(payloads[0]) + framed_all(payloads.skip(1))
    }
}

/// An unsigned or boolean field: its key, then its value.
pub open spec fn varint_field(tag: u32, value: u64) -> Seq<u8> {
    varint((8 * tag) as nat) + varint(value as nat)
}

/// What the description of a decoding error says, behind its fixed beginning.
pub open spec fn decode_error(reason: Seq<char>) -> Seq<char> {
    "failed to decode Protobuf message: "@ + reason
}

/// What the description of a decoding error says that concerns one field of a
/// message.
pub open spec fn field_error(message: Seq<char>, field: Seq<char>, reason: Seq<char>) -> Seq<char> {
    decode_error(message + "."@ + field + ": "@ + reason)
}

/// The value that a length delimiter at the front of `s` gives and the bytes
/// that it takes, or the description of the error.
pub open spec fn parse_length(s: Seq<u8>) -> Result<(usize, nat), Seq<char>> {
    match parse_varint(s) {
        None => Err(decode_error("invalid varint"@)),
        Some((value, n)) => if value > usize::MAX {
            Err(decode_error("length delimiter exceeds maximum usize value"@))
        } else {
            Ok((value as usize, n))
        },
    }
}

/// A length delimiter decoded with `prost::decode_length_delimiter`: the length
/// and what is left of `data` behind the delimiter.
///
/// Trusted: the length is the varint at the front of `data`; an error comes
/// exactly where there is no such varint or where it does not fit in `usize`,
/// and is described accordingly.
#[verifier::external_body]
pub(crate) fn decode_length<'a>(data: &'a [u8]) -> (r: Result<(usize, &'a [u8]), String>)
    ensures
        match parse_length(data@) {
            Ok((length, n)) => r matches Ok((l, rest)) && l == length && rest@ == data@.skip(
                n as int,
            ),
            Err(text) => r matches Err(t) && t@ == text,
        },
{
    let mut rest = data;
    match prost::decode_length_delimiter(&mut rest) {
        Ok(length) => Ok((length, rest)),
        Err(error) => Err(error.to_string()),
    }
}

/// A varint appended with `prost::encoding::encode_varint`.
///
/// Trusted: what is appended is the shortest varint of `value`.
#[verifier::external_body]
pub(crate) fn encode_varint(value: u64, out: &mut Vec<u8>)
    ensures
        final(out)@ == old(out)@ + varint(value as nat),
{
    prost::encoding::encode_varint(value, out);
}

/// Appends `payload` with its length delimiter in front.
pub fn push_framed(out: &mut Vec<u8>, payload: &[u8])
    ensures
        final(out)@ == old(out)@ + framed(payload@),
{
    encode_varint(payload.len() as u64, out);
    let ghost before = out@;
    out.extend_from_slice(payload);
    assert(out@ =~= before + payload@);
    assert(out@ =~= old(out)@ + framed(payload@));
}

/// 128 to the power of `n`.
spec fn pow128(n: nat) -> nat
    decreases n,
{
    if n == 0 {
        1
    } else {
        128 * pow128((n - 1) as nat)
    }
}

proof fn lemma_varint_shape_bounded(value: nat, n: nat)
    requires
        n >= 1,
        value < pow128(n),
    ensures
        1 <= varint(value).len() <= n,
        continuation_run(varint(value)) == varint(value).len() - 1,
        base128(varint(value)) == value,
    decreases n,
{
    if value < 128 {
        assert(varint(value).skip(1) =~= Seq::<u8>::empty());
        assert(base128(varint(value).skip(1)) == 0);
    } else {
        if n == 1 {
            assert(pow128(1) == 128 * pow128(0));
            assert(pow128(0) == 1);
        }
        assert(pow128(n) == 128 * pow128((n - 1) as nat));
        lemma_varint_shape_bounded(value / 128, (n - 1) as nat);
        assert(varint(value).skip(1) =~= varint(value / 128));
    }
}

/// A varint is never empty and at most ten bytes long, its last byte is the only
/// one without continuation bit, and its digits give back the value.
pub proof fn lemma_varint_shape(value: nat)
    requires
        value <= u64::MAX,
    ensures
        1 <= varint(value).len() <= MAX_VARINT_BYTES,
        continuation_run(varint(value)) == varint(value).len() - 1,
        base128(varint(value)) == value,
{
    assert(value < pow128(10)) by {
        reveal_with_fuel(pow128, 11);
    }
    lemma_varint_shape_bounded(value, MAX_VARINT_BYTES as nat);
}

/// The continuation run ends inside `s` or spans all of it; a bound on its
/// bytes.
pub proof fn lemma_continuation_run(s: Seq<u8>)
    ensures
        continuation_run(s) <= s.len(),
        forall|i: int| 0 <= i < continuation_run(s) ==> s[i] >= 0x80,
        continuation_run(s) < s.len() ==> s[continuation_run(s) as int] < 0x80,
    decreases s.len(),
{
    if s.len() > 0 && s[0] >= 0x80 {
        lemma_continuation_run(s.skip(1));
        assert forall|i: int| 0 <= i < continuation_run(s) implies s[i] >= 0x80 by {
            if i > 0 {
                assert(s[i] == s.skip(1)[i - 1]);
            }
        }
    }
}

/// A run of continuation bytes that ends at `n` has length `n`.
pub proof fn lemma_continuation_run_is(s: Seq<u8>, n: nat)
    requires
        n <= s.len(),
        forall|i: int| 0 <= i < n ==> s[i] >= 0x80,
        n < s.len() ==> s[n as int] < 0x80,
    ensures
        continuation_run(s) == n,
{
    lemma_continuation_run(s);
}

/// What stands behind a varint does not change how it is read.
pub proof fn lemma_varint_prefix(s: Seq<u8>, more: Seq<u8>)
    requires
        continuation_run(s) < s.len(),
    ensures
        continuation_run(s + more) == continuation_run(s),
        parse_varint(s + more) == parse_varint(s),
{
    let n = continuation_run(s);
    lemma_continuation_run(s);
    lemma_continuation_run_is(s + more, n);
    assert((s + more).take(n as int + 1) =~= s.take(n as int + 1));
}

/// Reading a varint gives back the value that was written, and stops where its
/// bytes end, whatever follows them.
pub proof fn law_varint_round_trip(value: u64, rest: Seq<u8>)
    ensures
        parse_varint(varint(value as nat) + rest) == Some(
            (value, varint(value as nat).len()),
        ),
{
    let v = varint(value as nat);
    lemma_varint_shape(value as nat);
    assert(v.take(v.len() as int) =~= v);
    lemma_varint_prefix(v, rest);
}

/// One more message behind others.
pub proof fn lemma_framed_all_push(payloads: Seq<Seq<u8>>, payload: Seq<u8>)
    ensures
        framed_all(payloads.push(payload)) == framed_all(payloads) + framed(payload),
    decreases payloads.len(),
{
    if payloads.len() == 0 {
        assert(payloads.push(payload).skip(1) =~= Seq::empty());
        assert(framed_all(payloads.push(payload).skip(1)) =~= Seq::empty());
        assert(framed_all(payloads.push(payload)) =~= framed(payload));
        assert(framed_all(payloads) + framed(payload) =~= framed(payload));
    } else {
        lemma_framed_all_push(payloads.skip(1), payload);
        assert(payloads.push(payload).skip(1) =~= payloads.skip(1).push(payload));
        assert(framed_all(payloads.push(payload)) =~= framed_all(payloads) + framed(payload));
    }
}

} // verus!
