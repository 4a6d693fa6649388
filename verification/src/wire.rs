//! The wire grammar shared by every field of an envelope: base-128 varints,
//! field keys, length-delimited bodies and the skipping of fields that the
//! schema does not name.
//!
//! Every reader here takes the unread bytes and hands back what it read
//! together with the bytes that follow, so what a reader does is stated as
//! a function from a byte sequence to a value and the remaining sequence.

use vstd::prelude::*;

verus! {

/// How the value of a field is laid out after its key.
#[derive(Clone, Copy, Debug, PartialEq, Eq, Structural)]
pub enum WireType {
    Varint,
    SixtyFourBit,
    LengthDelimited,
    StartGroup,
    EndGroup,
    ThirtyTwoBit,
}

/// Why a byte sequence is not an envelope.
#[derive(Clone, Copy, Debug, PartialEq, Eq, Structural)]
pub enum MalformedEnvelope {
    /// A varint is missing, runs past ten bytes or past the end of the
    /// buffer, or does not fit in 64 bits.
    InvalidVarint,
    /// A field key does not fit in 32 bits.
    InvalidKey,
    /// A field key names wire type 6 or 7.
    InvalidWireType,
    /// A field key names field number 0.
    InvalidTag,
    /// A field of the schema arrives with another wire type than the schema gives it.
    UnexpectedWireType,
    /// A field announces more bytes than the buffer holds.
    BufferUnderflow,
    /// The fields of a nested message run past the length announced for it.
    DelimitedLengthExceeded,
    /// A group is closed that was not opened, or closed under another number.
    UnexpectedEndGroupTag,
    /// A text field does not hold UTF-8.
    InvalidString,
    /// Groups are nested deeper than a reader follows.
    RecursionLimitReached,
}

/// The smallest field number.
pub const MIN_TAG: u32 = 1;

/// The largest field number: a key holds the number above three bits of wire type.
pub const MAX_TAG: u32 = 0x1fff_ffff;

/// How many levels of nesting a reader follows before it gives up.
pub const RECURSION_LIMIT: u32 = 100;

/// The base-128 encoding of `v`, least significant group first; every byte
/// but the last has its high bit set.
pub open spec fn varint_bytes(v: nat) -> Seq<u8>
    decreases v,
{
    if v < 128 {
        seq![v as u8]
    } else {
        seq![(128 + v % 128) as u8] + varint_bytes(v / 128)
    }
}

/// The values that a varint of at most `room` bytes may hold. The last of
/// ten bytes carries a single bit, so ten bytes hold exactly 64 bits.
pub open spec fn varint_bound(room: nat) -> nat
    decreases room,
{
    if room == 0 {
        0
    } else if room == 1 {
        2
    } else {
        128 * varint_bound((room - 1) as nat)
    }
}

/// Reads a varint of at most `room` bytes from the front of `s`: the value
/// and the bytes after it. `None` where `s` ends first, where no byte
/// within `room` ends the varint, or where the last permitted byte holds
/// more than one bit.
pub open spec fn varint_prefix(s: Seq<u8>, room: nat) -> Option<(nat, Seq<u8>)>
    decreases room,
{
    if room == 0 || s.len() == 0 {
        None
    } else if s[0] < 128 {
        if room == 1 && s[0] >= 2 {
            None
        } else {
            Some((s[0] as nat, s.drop_first()))
        }
    } else {
        match varint_prefix(s.drop_first(), (room - 1) as nat) {
            Some((high, rest)) => Some(((s[0] - 128) as nat + 128 * high, rest)),
            None => None,
        }
    }
}

/// Reads a 64-bit varint from the front of `s`.
pub open spec fn parse_varint(s: Seq<u8>) -> Option<(u64, Seq<u8>)> {
    match varint_prefix(s, 10) {
        Some((v, rest)) => Some((v as u64, rest)),
        None => None,
    }
}

/// Ten bytes hold exactly the 64-bit values.
pub proof fn lemma_varint_bound_ten()
    ensures
        varint_bound(10) == 0x1_0000_0000_0000_0000,
{
    reveal_with_fuel(varint_bound, 11);
}

/// With room for a byte, every value of a single byte's seven bits that the
/// reader accepts is within the bound.
pub proof fn lemma_varint_bound_grows(room: nat)
    ensures
        room >= 1 ==> varint_bound(room) >= 2,
        room >= 2 ==> varint_bound(room) >= 128,
    decreases room,
{
    if room >= 2 {
        lemma_varint_bound_grows((room - 1) as nat);
    }
}

/// What a successful read leaves is a proper suffix of the input, at most
/// `room` bytes shorter, and the value is within the bound for `room`.
pub proof fn lemma_varint_prefix_shape(s: Seq<u8>, room: nat)
    ensures
        varint_prefix(s, room) matches Some((v, rest)) ==> {
            &&& v < varint_bound(room)
            &&& rest.len() < s.len()
            &&& s.len() - rest.len() <= room
            &&& rest == s.skip(s.len() - rest.len())
        },
    decreases room,
{
    lemma_varint_bound_grows(room);
    if room == 0 || s.len() == 0 {
    } else if s[0] < 128 {
        assert(s.drop_first() =~= s.skip(1));
    } else {
        let tail = s.drop_first();
        lemma_varint_prefix_shape(tail, (room - 1) as nat);
        match varint_prefix(tail, (room - 1) as nat) {
            Some((high, rest)) => {
                assert(rest =~= s.skip(s.len() - rest.len()));
            },
            None => {},
        }
    }
}

/// A read depends only on the bytes it takes: what follows them is handed
/// back untouched, whatever it is.
pub proof fn lemma_varint_round_trip(v: nat, rest: Seq<u8>, room: nat)
    requires
        v < varint_bound(room),
    ensures
        varint_prefix(varint_bytes(v) + rest, room) == Some((v, rest)),
        varint_bytes(v).len() <= room,
    decreases v,
{
    let s = varint_bytes(v) + rest;
    if v < 128 {
        assert(s.drop_first() =~= rest);
    } else {
        assert(room >= 2);
        lemma_varint_round_trip(v / 128, rest, (room - 1) as nat);
        assert(s.drop_first() =~= varint_bytes(v / 128) + rest);
    }
}

/// Every 64-bit value is read back from its encoding, and its encoding has
/// between one and ten bytes.
pub proof fn lemma_parse_varint_round_trip(v: u64, rest: Seq<u8>)
    ensures
        parse_varint(varint_bytes(v as nat) + rest) == Some((v, rest)),
        1 <= varint_bytes(v as nat).len() <= 10,
{
    lemma_varint_bound_ten();
    lemma_varint_round_trip(v as nat, rest, 10);
}

/// What a successful 64-bit read leaves is a proper suffix of the input.
pub proof fn lemma_parse_varint_shape(s: Seq<u8>)
    ensures
        parse_varint(s) matches Some((v, rest)) ==> {
            &&& varint_prefix(s, 10) == Some((v as nat, rest))
            &&& rest.len() < s.len()
            &&& rest == s.skip(s.len() - rest.len())
        },
{
    lemma_varint_bound_ten();
    lemma_varint_prefix_shape(s, 10);
}

/// Appends the varint of `value` to `buf` by `prost::encoding::encode_varint`.
/// Trusted: that function writes `value` in base 128, low group first, with
/// the high bit set on every byte but the last, and leaves what `buf` held
/// in front of it.
#[verifier::external_body]
pub(crate) fn put_varint(value: u64, buf: &mut Vec<u8>)
    ensures
        final(buf)@ == old(buf)@ + varint_bytes(value as nat),
{
    prost::encoding::encode_varint(value, buf);
}

/// Reads a varint from the front of `input` by `prost::encoding::decode_varint`.
/// Trusted: that function takes bytes up to the first one below 128, at
/// most ten, sums their low seven bits by position, and advances the slice
/// past them; it fails on an empty slice, where no byte within the first ten
/// ends the varint, and where the tenth byte is 2 or more.
#[verifier::external_body]
pub(crate) fn take_varint<'a>(input: &'a [u8]) -> (r: Option<(u64, &'a [u8])>)
    ensures
        match parse_varint(input@) {
            Some((v, rest)) => r matches Some((value, tail)) && value == v && tail@ == rest,
            None => r is None,
        },
{
    let mut tail: &[u8] = input;
    match prost::encoding::decode_varint(&mut tail) {
        Ok(value) => Some((value, tail)),
        Err(_) => None,
    }
}

/// The three bits that stand for a wire type in a key.
pub open spec fn wire_type_code(wire_type: WireType) -> nat {
    match wire_type {
        WireType::Varint => 0,
        WireType::SixtyFourBit => 1,
        WireType::LengthDelimited => 2,
        WireType::StartGroup => 3,
        WireType::EndGroup => 4,
        WireType::ThirtyTwoBit => 5,
    }
}

/// The wire type that `code` stands for; codes 6 and 7 stand for none.
pub open spec fn wire_type_of(code: nat) -> WireType {
    if code == 0 {
        WireType::Varint
    } else if code == 1 {
        WireType::SixtyFourBit
    } else if code == 2 {
        WireType::LengthDelimited
    } else if code == 3 {
        WireType::StartGroup
    } else if code == 4 {
        WireType::EndGroup
    } else {
        WireType::ThirtyTwoBit
    }
}

/// The key of a field: its number above three bits of wire type, as a varint.
pub open spec fn key_bytes(tag: u32, wire_type: WireType) -> Seq<u8> {
    varint_bytes(tag as nat * 8 + wire_type_code(wire_type))
}

/// Reads the key of a field from the front of `s`: the field's number, its
/// wire type and the bytes after the key.
pub open spec fn parse_key(s: Seq<u8>) -> Result<(u32, WireType, Seq<u8>), MalformedEnvelope> {
    match parse_varint(s) {
        None => Err(MalformedEnvelope::InvalidVarint),
        Some((key, rest)) => {
            if key > u32::MAX {
                Err(MalformedEnvelope::InvalidKey)
            } else if key % 8 > 5 {
                Err(MalformedEnvelope::InvalidWireType)
            } else if key / 8 == 0 {
                Err(MalformedEnvelope::InvalidTag)
            } else {
                Ok(((key / 8) as u32, wire_type_of((key % 8) as nat), rest))
            }
        },
    }
}

/// Reads a length and as many bytes as it says from the front of `s`: those
/// bytes and the bytes after them.
pub open spec fn parse_delimited(s: Seq<u8>) -> Result<(Seq<u8>, Seq<u8>), MalformedEnvelope> {
    match parse_varint(s) {
        None => Err(MalformedEnvelope::InvalidVarint),
        Some((len, rest)) => {
            if len > rest.len() {
                Err(MalformedEnvelope::BufferUnderflow)
            } else {
                Ok((rest.subrange(0, len as int), rest.skip(len as int)))
            }
        },
    }
}

/// The bytes after a field's value, for a field that is no group: a varint,
/// four or eight bytes, or a length and that many bytes. The key of a group
/// has no value of this kind.
pub open spec fn after_scalar(wire_type: WireType, s: Seq<u8>) -> Result<
    Seq<u8>,
    MalformedEnvelope,
> {
    match wire_type {
        WireType::Varint => match parse_varint(s) {
            None => Err(MalformedEnvelope::InvalidVarint),
            Some((_, rest)) => Ok(rest),
        },
        WireType::ThirtyTwoBit => if s.len() < 4 {
            Err(MalformedEnvelope::BufferUnderflow)
        } else {
            Ok(s.skip(4))
        },
        WireType::SixtyFourBit => if s.len() < 8 {
            Err(MalformedEnvelope::BufferUnderflow)
        } else {
            Ok(s.skip(8))
        },
        WireType::LengthDelimited => match parse_delimited(s) {
            Err(fault) => Err(fault),
            Ok((_, rest)) => Ok(rest),
        },
        WireType::StartGroup | WireType::EndGroup => Err(MalformedEnvelope::UnexpectedEndGroupTag),
    }
}

/// The bytes after the end of the outermost of the groups in `open`, which
/// lists the numbers of the groups entered and not yet left, innermost
/// last. `depth` is the nesting budget of the field that opened the
/// outermost group: a field `depth` groups deep is not followed, though the
/// end of a group that deep still is.
pub open spec fn after_groups(s: Seq<u8>, open: Seq<u32>, depth: nat) -> Result<
    Seq<u8>,
    MalformedEnvelope,
>
    decreases s.len(),
{
    if open.len() == 0 {
        Ok(s)
    } else {
        match parse_key(s) {
            Err(fault) => Err(fault),
            Ok((tag, wire_type, rest)) => {
                if wire_type == WireType::EndGroup {
                    if tag != open.last() {
                        Err(MalformedEnvelope::UnexpectedEndGroupTag)
                    } else {
                        proof {
                            lemma_parse_key_shape(s);
                        }
                        after_groups(rest, open.drop_last(), depth)
                    }
                } else if open.len() >= depth {
                    Err(MalformedEnvelope::RecursionLimitReached)
                } else if wire_type == WireType::StartGroup {
                    proof {
                        lemma_parse_key_shape(s);
                    }
                    after_groups(rest, open.push(tag), depth)
                } else {
                    match after_scalar(wire_type, rest) {
                        Err(fault) => Err(fault),
                        Ok(rest2) => {
                            proof {
                                lemma_parse_key_shape(s);
                                lemma_after_scalar_shape(wire_type, rest);
                            }
                            after_groups(rest2, open, depth)
                        },
                    }
                }
            },
        }
    }
}

/// The bytes after a field that the schema does not name. `depth` is the
/// nesting budget left where the field stands.
pub open spec fn after_field(wire_type: WireType, tag: u32, s: Seq<u8>, depth: nat) -> Result<
    Seq<u8>,
    MalformedEnvelope,
> {
    if depth == 0 {
        Err(MalformedEnvelope::RecursionLimitReached)
    } else {
        match wire_type {
            WireType::StartGroup => after_groups(s, seq![tag], depth),
            WireType::EndGroup => Err(MalformedEnvelope::UnexpectedEndGroupTag),
            _ => after_scalar(wire_type, s),
        }
    }
}

/// A key takes at least one byte, and what follows it is a suffix of the input.
pub proof fn lemma_parse_key_shape(s: Seq<u8>)
    ensures
        parse_key(s) matches Ok((tag, wire_type, rest)) ==> {
            &&& MIN_TAG <= tag <= MAX_TAG
            &&& rest.len() < s.len()
            &&& rest == s.skip(s.len() - rest.len())
        },
{
    lemma_parse_varint_shape(s);
}

/// What follows a length-delimited body is a suffix of the input, and body
/// and rest together are what followed the length.
pub proof fn lemma_parse_delimited_shape(s: Seq<u8>)
    ensures
        parse_delimited(s) matches Ok((body, rest)) ==> {
            &&& body.len() + rest.len() < s.len()
            &&& rest == s.skip(s.len() - rest.len())
            &&& body + rest == s.skip(s.len() - rest.len() - body.len())
        },
{
    lemma_parse_varint_shape(s);
    match parse_varint(s) {
        Some((len, after_len)) => {
            if len <= after_len.len() {
                let body = after_len.subrange(0, len as int);
                let rest = after_len.skip(len as int);
                assert(rest =~= s.skip(s.len() - rest.len()));
                assert(body + rest =~= s.skip(s.len() - rest.len() - body.len()));
            }
        },
        None => {},
    }
}

/// What follows a skipped scalar is a suffix of the input.
pub proof fn lemma_after_scalar_shape(wire_type: WireType, s: Seq<u8>)
    ensures
        after_scalar(wire_type, s) matches Ok(rest) ==> {
            &&& rest.len() <= s.len()
            &&& rest == s.skip(s.len() - rest.len())
        },
{
    lemma_parse_varint_shape(s);
    lemma_parse_delimited_shape(s);
}

/// What follows skipped groups is a suffix of the input.
pub proof fn lemma_after_groups_shape(s: Seq<u8>, open: Seq<u32>, depth: nat)
    ensures
        after_groups(s, open, depth) matches Ok(rest) ==> {
            &&& rest.len() <= s.len()
            &&& open.len() > 0 ==> rest.len() < s.len()
            &&& rest == s.skip(s.len() - rest.len())
        },
    decreases s.len(),
{
    if open.len() == 0 {
        assert(s =~= s.skip(0));
    } else {
        lemma_parse_key_shape(s);
        match parse_key(s) {
            Err(_) => {},
            Ok((tag, wire_type, rest)) => {
                if wire_type == WireType::EndGroup {
                    if tag == open.last() {
                        lemma_after_groups_shape(rest, open.drop_last(), depth);
                        lemma_suffix_of_suffix(s, rest, after_groups(s, open, depth));
                    }
                } else if open.len() >= depth {
                } else if wire_type == WireType::StartGroup {
                    lemma_after_groups_shape(rest, open.push(tag), depth);
                    lemma_suffix_of_suffix(s, rest, after_groups(s, open, depth));
                } else {
                    lemma_after_scalar_shape(wire_type, rest);
                    match after_scalar(wire_type, rest) {
                        Err(_) => {},
                        Ok(rest2) => {
                            lemma_after_groups_shape(rest2, open, depth);
                            lemma_suffix_of_suffix(s, rest, Ok(rest2));
                            lemma_suffix_of_suffix(s, rest2, after_groups(s, open, depth));
                        },
                    }
                }
            },
        }
    }
}

/// A suffix of a suffix of `s` is a suffix of `s`.
pub proof fn lemma_suffix_of_suffix(
    s: Seq<u8>,
    mid: Seq<u8>,
    last: Result<Seq<u8>, MalformedEnvelope>,
)
    requires
        mid.len() <= s.len(),
        mid == s.skip(s.len() - mid.len()),
        last matches Ok(rest) ==> rest.len() <= mid.len() && rest == mid.skip(
            mid.len() - rest.len(),
        ),
    ensures
        last matches Ok(rest) ==> rest.len() <= s.len() && rest == s.skip(s.len() - rest.len()),
{
    match last {
        Ok(rest) => {
            assert(rest =~= s.skip(s.len() - rest.len()));
        },
        Err(_) => {},
    }
}

/// What follows a skipped field is a suffix of the input.
pub proof fn lemma_after_field_shape(wire_type: WireType, tag: u32, s: Seq<u8>, depth: nat)
    ensures
        after_field(wire_type, tag, s, depth) matches Ok(rest) ==> {
            &&& rest.len() <= s.len()
            &&& rest == s.skip(s.len() - rest.len())
        },
{
    lemma_after_scalar_shape(wire_type, s);
    lemma_after_groups_shape(s, seq![tag], depth);
}

/// A key is read back from its bytes, whatever follows them.
pub proof fn lemma_parse_key_round_trip(tag: u32, wire_type: WireType, rest: Seq<u8>)
    requires
        MIN_TAG <= tag <= MAX_TAG,
    ensures
        parse_key(key_bytes(tag, wire_type) + rest) == Ok::<
            (u32, WireType, Seq<u8>),
            MalformedEnvelope,
        >((tag, wire_type, rest)),
{
    let key = (tag as nat * 8 + wire_type_code(wire_type)) as u64;
    lemma_parse_varint_round_trip(key, rest);
}

/// A length-delimited body is read back from its length and bytes, whatever
/// follows them.
pub proof fn lemma_parse_delimited_round_trip(body: Seq<u8>, rest: Seq<u8>)
    requires
        body.len() <= u64::MAX,
    ensures
        parse_delimited(varint_bytes(body.len()) + body + rest) == Ok::<
            (Seq<u8>, Seq<u8>),
            MalformedEnvelope,
        >((body, rest)),
{
    let after_len = body + rest;
    lemma_parse_varint_round_trip(body.len() as u64, after_len);
    assert(varint_bytes(body.len()) + body + rest =~= varint_bytes(body.len()) + after_len);
    assert(after_len.subrange(0, body.len() as int) =~= body);
    assert(after_len.skip(body.len() as int) =~= rest);
}

/// Appends `bytes` to `buf`.
pub fn put_bytes(bytes: &[u8], buf: &mut Vec<u8>)
    ensures
        final(buf)@ == old(buf)@ + bytes@,
{
    buf.extend_from_slice(bytes);
    assert(buf@ =~= old(buf)@ + bytes@);
}

/// The number that stands for `wire_type` in a key.
pub fn wire_code(wire_type: WireType) -> (code: u64)
    ensures
        code == wire_type_code(wire_type),
{
    match wire_type {
        WireType::Varint => 0,
        WireType::SixtyFourBit => 1,
        WireType::LengthDelimited => 2,
        WireType::StartGroup => 3,
        WireType::EndGroup => 4,
        WireType::ThirtyTwoBit => 5,
    }
}

/// Appends the key of field `tag` with `wire_type` to `buf`.
pub fn put_key(tag: u32, wire_type: WireType, buf: &mut Vec<u8>)
    requires
        MIN_TAG <= tag <= MAX_TAG,
    ensures
        final(buf)@ == old(buf)@ + key_bytes(tag, wire_type),
{
    let wide: u64 = tag as u64;
    put_varint(wide * 8 + wire_code(wire_type), buf);
}

/// Appends field `tag` with a length-delimited `body` to `buf`: the key,
/// the length of `body`, then `body`.
pub fn put_delimited(tag: u32, body: &[u8], buf: &mut Vec<u8>)
    requires
        MIN_TAG <= tag <= MAX_TAG,
    ensures
        final(buf)@ == old(buf)@ + key_bytes(tag, WireType::LengthDelimited) + varint_bytes(
            body@.len(),
        ) + body@,
{
    put_key(tag, WireType::LengthDelimited, buf);
    put_varint(body.len() as u64, buf);
    put_bytes(body, buf);
}

/// The wire type that `code` stands for, if it stands for one.
pub fn wire_type_for(code: u64) -> (r: Option<WireType>)
    ensures
        r is Some <==> code <= 5,
        r matches Some(wire_type) ==> wire_type == wire_type_of(code as nat),
{
    if code == 0 {
        Some(WireType::Varint)
    } else if code == 1 {
        Some(WireType::SixtyFourBit)
    } else if code == 2 {
        Some(WireType::LengthDelimited)
    } else if code == 3 {
        Some(WireType::StartGroup)
    } else if code == 4 {
        Some(WireType::EndGroup)
    } else if code == 5 {
        Some(WireType::ThirtyTwoBit)
    } else {
        None
    }
}

/// Takes the key of a field from the front of `input`.
pub fn take_key<'a>(input: &'a [u8]) -> (r: Result<(u32, WireType, &'a [u8]), MalformedEnvelope>)
    ensures
        match parse_key(input@) {
            Ok((tag, wire_type, rest)) => r matches Ok((t, w, tail)) && t == tag && w == wire_type
                && tail@ == rest,
            Err(fault) => r matches Err(f) && f == fault,
        },
{
    match take_varint(input) {
        None => Err(MalformedEnvelope::InvalidVarint),
        Some((key, tail)) => {
            if key > 0xffff_ffff {
                return Err(MalformedEnvelope::InvalidKey);
            }
            match wire_type_for(key % 8) {
                None => Err(MalformedEnvelope::InvalidWireType),
                Some(wire_type) => {
                    let tag: u32 = (key / 8) as u32;
                    if tag < MIN_TAG {
                        Err(MalformedEnvelope::InvalidTag)
                    } else {
                        Ok((tag, wire_type, tail))
                    }
                },
            }
        },
    }
}

/// Takes a length and the bytes it announces from the front of `input`.
pub fn take_delimited<'a>(input: &'a [u8]) -> (r: Result<(&'a [u8], &'a [u8]), MalformedEnvelope>)
    ensures
        match parse_delimited(input@) {
            Ok((body, rest)) => r matches Ok((b, tail)) && b@ == body && tail@ == rest,
            Err(fault) => r matches Err(f) && f == fault,
        },
{
    match take_varint(input) {
        None => Err(MalformedEnvelope::InvalidVarint),
        Some((len, tail)) => {
            if len > tail.len() as u64 {
                Err(MalformedEnvelope::BufferUnderflow)
            } else {
                let n: usize = len as usize;
                let body = vstd::slice::slice_subrange(tail, 0, n);
                let rest = vstd::slice::slice_subrange(tail, n, tail.len());
                Ok((body, rest))
            }
        },
    }
}

/// Skips the value of a field that is no group.
pub fn skip_scalar<'a>(wire_type: WireType, input: &'a [u8]) -> (r: Result<
    &'a [u8],
    MalformedEnvelope,
>)
    ensures
        match after_scalar(wire_type, input@) {
            Ok(rest) => r matches Ok(tail) && tail@ == rest,
            Err(fault) => r matches Err(f) && f == fault,
        },
{
    match wire_type {
        WireType::Varint => match take_varint(input) {
            None => Err(MalformedEnvelope::InvalidVarint),
            Some((_, tail)) => Ok(tail),
        },
        WireType::ThirtyTwoBit => if input.len() < 4 {
            Err(MalformedEnvelope::BufferUnderflow)
        } else {
            Ok(vstd::slice::slice_subrange(input, 4, input.len()))
        },
        WireType::SixtyFourBit => if input.len() < 8 {
            Err(MalformedEnvelope::BufferUnderflow)
        } else {
            Ok(vstd::slice::slice_subrange(input, 8, input.len()))
        },
        WireType::LengthDelimited => match take_delimited(input) {
            Err(fault) => Err(fault),
            Ok((_, tail)) => Ok(tail),
        },
        WireType::StartGroup => Err(MalformedEnvelope::UnexpectedEndGroupTag),
        WireType::EndGroup => Err(MalformedEnvelope::UnexpectedEndGroupTag),
    }
}

/// Skips to the end of the group numbered `tag`, whose opening key has been
/// taken, through whatever groups are nested in it.
pub fn skip_group<'a>(tag: u32, input: &'a [u8], depth: u32) -> (r: Result<
    &'a [u8],
    MalformedEnvelope,
>)
    ensures
        match after_groups(input@, seq![tag], depth as nat) {
            Ok(rest) => r matches Ok(tail) && tail@ == rest,
            Err(fault) => r matches Err(f) && f == fault,
        },
{
    let mut open: Vec<u32> = Vec::new();
    open.push(tag);
    let mut cur: &[u8] = input;
    while open.len() > 0
        invariant
            after_groups(input@, seq![tag], depth as nat) == after_groups(
                cur@,
                open@,
                depth as nat,
            ),
        decreases cur@.len(),
    {
        proof {
            lemma_parse_key_shape(cur@);
        }
        match take_key(cur) {
            Err(fault) => {
                return Err(fault);
            },
            Ok((inner, wire_type, tail)) => {
                match wire_type {
                    WireType::EndGroup => {
                        if inner != open[open.len() - 1] {
                            return Err(MalformedEnvelope::UnexpectedEndGroupTag);
                        }
                        open.pop();
                        cur = tail;
                    },
                    WireType::StartGroup => {
                        if open.len() >= depth as usize {
                            return Err(MalformedEnvelope::RecursionLimitReached);
                        }
                        open.push(inner);
                        cur = tail;
                    },
                    _ => {
                        if open.len() >= depth as usize {
                            return Err(MalformedEnvelope::RecursionLimitReached);
                        }
                        proof {
                            lemma_after_scalar_shape(wire_type, tail@);
                        }
                        match skip_scalar(wire_type, tail) {
                            Err(fault) => {
                                return Err(fault);
                            },
                            Ok(tail2) => {
                                cur = tail2;
                            },
                        }
                    },
                }
            },
        }
    }
    Ok(cur)
}

/// Skips a field that the schema does not name, whose key has been taken.
/// `depth` is the nesting budget left where the field stands.
pub fn skip_field<'a>(wire_type: WireType, tag: u32, input: &'a [u8], depth: u32) -> (r: Result<
    &'a [u8],
    MalformedEnvelope,
>)
    ensures
        match after_field(wire_type, tag, input@, depth as nat) {
            Ok(rest) => r matches Ok(tail) && tail@ == rest,
            Err(fault) => r matches Err(f) && f == fault,
        },
{
    if depth == 0 {
        return Err(MalformedEnvelope::RecursionLimitReached);
    }
    match wire_type {
        WireType::StartGroup => skip_group(tag, input, depth),
        WireType::EndGroup => Err(MalformedEnvelope::UnexpectedEndGroupTag),
        _ => skip_scalar(wire_type, input),
    }
}

} // verus!
