//! The analytics envelope: the record that travels over the topic, its
//! bytes on the wire, and the reading of those bytes back into a record.
//!
//! A record is written as its fields in ascending field number, each text
//! field as a length-delimited UTF-8 body and the time stamp as a nested
//! message of two varints; a field that holds its default is left out. A
//! reader takes the fields in whatever order they come, keeps the last
//! value of a field that comes twice, and passes over fields it does not
//! know.

use crate::wire::{
    after_field, key_bytes, lemma_after_field_shape, lemma_parse_delimited_round_trip,
    lemma_parse_delimited_shape, lemma_parse_key_round_trip, lemma_parse_key_shape,
    lemma_parse_varint_round_trip, lemma_parse_varint_shape, lemma_suffix_of_suffix,
    parse_delimited, wire_type_code,
    parse_key, parse_varint, put_delimited, put_key, put_varint, skip_field, take_delimited,
    take_key, take_varint, varint_bytes, MalformedEnvelope, WireType, MAX_TAG, MIN_TAG,
    RECURSION_LIMIT,
};
use vstd::prelude::*;
use vstd::utf8::{decode_utf8, encode_utf8, valid_utf8};

verus! {

/// Field number of the event identifier.
pub const TAG_EVENT_ID: u32 = 1;

/// Field number of the event name.
pub const TAG_EVENT_NAME: u32 = 2;

/// Field number of the emitting service's name.
pub const TAG_SERVICE_NAME: u32 = 3;

/// Field number of the emitting service's version.
pub const TAG_SERVICE_VERSION: u32 = 4;

/// Field number of the time stamp.
pub const TAG_TIMESTAMP: u32 = 5;

/// Field number of the payload.
pub const TAG_PAYLOAD: u32 = 6;

/// Field number of the seconds inside a time stamp.
pub const TAG_SECONDS: u32 = 1;

/// Field number of the nanoseconds inside a time stamp.
pub const TAG_NANOS: u32 = 2;

/// A point in time: seconds since the Unix epoch, UTC, and the nanoseconds
/// past that second.
#[derive(Clone, Copy, Debug, PartialEq, Eq, Structural)]
pub struct Timestamp {
    pub seconds: i64,
    pub nanos: i32,
}

/// The structured unit exchanged over the topic.
#[derive(Clone, Debug, PartialEq, Eq)]
pub struct AnalyticsEvent {
    /// Identifier of the event instance.
    pub event_id: String,
    /// Logical name of the event type; its suffix is the schema's version.
    pub event_name: String,
    /// The emitting application.
    pub service_name: String,
    /// The emitting application's version.
    pub service_version: String,
    /// Wall-clock time of encoding, where the envelope carries one.
    pub timestamp: Option<Timestamp>,
    /// The text the operator typed.
    pub payload: String,
}

/// An event as a mathematical value: its texts as character sequences.
pub struct EventView {
    pub event_id: Seq<char>,
    pub event_name: Seq<char>,
    pub service_name: Seq<char>,
    pub service_version: Seq<char>,
    pub timestamp: Option<Timestamp>,
    pub payload: Seq<char>,
}

impl View for AnalyticsEvent {
    type V = EventView;

    open spec fn view(&self) -> EventView {
        EventView {
            event_id: self.event_id@,
            event_name: self.event_name@,
            service_name: self.service_name@,
            service_version: self.service_version@,
            timestamp: self.timestamp,
            payload: self.payload@,
        }
    }
}

/// The event whose every field holds its default: what a reader starts from.
pub open spec fn empty_event() -> EventView {
    EventView {
        event_id: Seq::empty(),
        event_name: Seq::empty(),
        service_name: Seq::empty(),
        service_version: Seq::empty(),
        timestamp: None,
        payload: Seq::empty(),
    }
}

/// The time stamp whose fields hold their defaults.
pub open spec fn zero_timestamp() -> Timestamp {
    Timestamp { seconds: 0, nanos: 0 }
}

/// Whether `tag` numbers one of the five text fields.
pub open spec fn is_text_tag(tag: u32) -> bool {
    tag == TAG_EVENT_ID || tag == TAG_EVENT_NAME || tag == TAG_SERVICE_NAME || tag
        == TAG_SERVICE_VERSION || tag == TAG_PAYLOAD
}

/// The text field of `event` numbered `tag`.
pub open spec fn text_of(event: EventView, tag: u32) -> Seq<char> {
    if tag == TAG_EVENT_ID {
        event.event_id
    } else if tag == TAG_EVENT_NAME {
        event.event_name
    } else if tag == TAG_SERVICE_NAME {
        event.service_name
    } else if tag == TAG_SERVICE_VERSION {
        event.service_version
    } else {
        event.payload
    }
}

/// `event` with its text field numbered `tag` replaced by `text`.
pub open spec fn with_text(event: EventView, tag: u32, text: Seq<char>) -> EventView {
    if tag == TAG_EVENT_ID {
        EventView { event_id: text, ..event }
    } else if tag == TAG_EVENT_NAME {
        EventView { event_name: text, ..event }
    } else if tag == TAG_SERVICE_NAME {
        EventView { service_name: text, ..event }
    } else if tag == TAG_SERVICE_VERSION {
        EventView { service_version: text, ..event }
    } else {
        EventView { payload: text, ..event }
    }
}

/// Whether every text of `event` can announce its length on the wire.
pub open spec fn fits_wire(event: EventView) -> bool {
    &&& encode_utf8(event.event_id).len() <= u64::MAX
    &&& encode_utf8(event.event_name).len() <= u64::MAX
    &&& encode_utf8(event.service_name).len() <= u64::MAX
    &&& encode_utf8(event.service_version).len() <= u64::MAX
    &&& encode_utf8(event.payload).len() <= u64::MAX
}

/// A field with a length-delimited body: key, length, body.
pub open spec fn delimited_field(tag: u32, body: Seq<u8>) -> Seq<u8> {
    key_bytes(tag, WireType::LengthDelimited) + varint_bytes(body.len()) + body
}

/// A text field on the wire: nothing for the empty text, else the text's
/// UTF-8 bytes as a length-delimited field.
pub open spec fn text_field(tag: u32, text: Seq<char>) -> Seq<u8> {
    if encode_utf8(text).len() == 0 {
        Seq::empty()
    } else {
        delimited_field(tag, encode_utf8(text))
    }
}

/// A signed field on the wire: nothing for zero, else key and the value's
/// 64-bit two's complement as a varint.
pub open spec fn int_field(tag: u32, value: i64) -> Seq<u8> {
    if value == 0 {
        Seq::empty()
    } else {
        key_bytes(tag, WireType::Varint) + varint_bytes((value as u64) as nat)
    }
}

/// The nested message of a time stamp: seconds, then nanoseconds.
pub open spec fn timestamp_body(t: Timestamp) -> Seq<u8> {
    int_field(TAG_SECONDS, t.seconds) + int_field(TAG_NANOS, t.nanos as i64)
}

/// The time stamp field on the wire: nothing where there is none, else the
/// nested message as a length-delimited field, also where it is empty.
pub open spec fn timestamp_field(tag: u32, t: Option<Timestamp>) -> Seq<u8> {
    match t {
        None => Seq::empty(),
        Some(t) => delimited_field(tag, timestamp_body(t)),
    }
}

/// The bytes of an event on the wire: its fields in ascending number.
pub open spec fn envelope_bytes(event: EventView) -> Seq<u8> {
    text_field(TAG_EVENT_ID, event.event_id) + (text_field(TAG_EVENT_NAME, event.event_name) + (
    text_field(TAG_SERVICE_NAME, event.service_name) + (text_field(
        TAG_SERVICE_VERSION,
        event.service_version,
    ) + (timestamp_field(TAG_TIMESTAMP, event.timestamp) + text_field(
        TAG_PAYLOAD,
        event.payload,
    )))))
}

/// Reads the value of a text field, whose key has been read, from the front
/// of `s`: the text and the bytes after it.
pub open spec fn parse_text(wire_type: WireType, s: Seq<u8>) -> Result<
    (Seq<char>, Seq<u8>),
    MalformedEnvelope,
> {
    if wire_type != WireType::LengthDelimited {
        Err(MalformedEnvelope::UnexpectedWireType)
    } else {
        match parse_delimited(s) {
            Err(fault) => Err(fault),
            Ok((body, rest)) => {
                if valid_utf8(body) {
                    Ok((decode_utf8(body), rest))
                } else {
                    Err(MalformedEnvelope::InvalidString)
                }
            },
        }
    }
}

/// Reads one field of a time stamp, whose key has been read, into `acc`.
pub open spec fn timestamp_entry(tag: u32, wire_type: WireType, s: Seq<u8>, acc: Timestamp) -> Result<
    (Timestamp, Seq<u8>),
    MalformedEnvelope,
> {
    if tag == TAG_SECONDS || tag == TAG_NANOS {
        if wire_type != WireType::Varint {
            Err(MalformedEnvelope::UnexpectedWireType)
        } else {
            match parse_varint(s) {
                None => Err(MalformedEnvelope::InvalidVarint),
                Some((v, rest)) => {
                    if tag == TAG_SECONDS {
                        Ok((Timestamp { seconds: v as i64, nanos: acc.nanos }, rest))
                    } else {
                        Ok((Timestamp { seconds: acc.seconds, nanos: v as i32 }, rest))
                    }
                },
            }
        }
    } else {
        match after_field(wire_type, tag, s, (RECURSION_LIMIT - 1) as nat) {
            Err(fault) => Err(fault),
            Ok(rest) => Ok((acc, rest)),
        }
    }
}

/// Reads the fields of a time stamp into `acc` until exactly `limit` bytes
/// are left: the time stamp and those bytes. The fields are read from the
/// whole of what is unread, so one that crosses the limit is found out only
/// after it.
pub open spec fn timestamp_entries(s: Seq<u8>, limit: nat, acc: Timestamp) -> Result<
    (Timestamp, Seq<u8>),
    MalformedEnvelope,
>
    decreases s.len(),
{
    if s.len() == limit {
        Ok((acc, s))
    } else if s.len() < limit {
        Err(MalformedEnvelope::DelimitedLengthExceeded)
    } else {
        match parse_key(s) {
            Err(fault) => Err(fault),
            Ok((tag, wire_type, rest)) => match timestamp_entry(tag, wire_type, rest, acc) {
                Err(fault) => Err(fault),
                Ok((next, rest2)) => {
                    proof {
                        lemma_parse_key_shape(s);
                        lemma_timestamp_entry_shape(tag, wire_type, rest, acc);
                    }
                    timestamp_entries(rest2, limit, next)
                },
            },
        }
    }
}

/// Reads the time stamp field, whose key has been read, from the front of
/// `s`. A time stamp that came before is carried on: the fields that this
/// one names replace its fields, the others stay.
pub open spec fn parse_timestamp(wire_type: WireType, s: Seq<u8>, acc: Option<Timestamp>) -> Result<
    (Timestamp, Seq<u8>),
    MalformedEnvelope,
> {
    if wire_type != WireType::LengthDelimited {
        Err(MalformedEnvelope::UnexpectedWireType)
    } else {
        match parse_varint(s) {
            None => Err(MalformedEnvelope::InvalidVarint),
            Some((len, rest)) => {
                if len > rest.len() {
                    Err(MalformedEnvelope::BufferUnderflow)
                } else {
                    timestamp_entries(
                        rest,
                        (rest.len() - len) as nat,
                        match acc {
                            Some(t) => t,
                            None => zero_timestamp(),
                        },
                    )
                }
            },
        }
    }
}

/// Reads one field of an envelope, whose key has been read, into `acc`.
pub open spec fn envelope_entry(tag: u32, wire_type: WireType, s: Seq<u8>, acc: EventView) -> Result<
    (EventView, Seq<u8>),
    MalformedEnvelope,
> {
    if is_text_tag(tag) {
        match parse_text(wire_type, s) {
            Err(fault) => Err(fault),
            Ok((text, rest)) => Ok((with_text(acc, tag, text), rest)),
        }
    } else if tag == TAG_TIMESTAMP {
        match parse_timestamp(wire_type, s, acc.timestamp) {
            Err(fault) => Err(fault),
            Ok((t, rest)) => Ok((EventView { timestamp: Some(t), ..acc }, rest)),
        }
    } else {
        match after_field(wire_type, tag, s, RECURSION_LIMIT as nat) {
            Err(fault) => Err(fault),
            Ok(rest) => Ok((acc, rest)),
        }
    }
}

/// Reads fields into `acc` until `s` is used up.
pub open spec fn envelope_entries(s: Seq<u8>, acc: EventView) -> Result<
    EventView,
    MalformedEnvelope,
>
    decreases s.len(),
{
    if s.len() == 0 {
        Ok(acc)
    } else {
        match parse_key(s) {
            Err(fault) => Err(fault),
            Ok((tag, wire_type, rest)) => match envelope_entry(tag, wire_type, rest, acc) {
                Err(fault) => Err(fault),
                Ok((next, rest2)) => {
                    proof {
                        lemma_parse_key_shape(s);
                        lemma_envelope_entry_shape(tag, wire_type, rest, acc);
                    }
                    envelope_entries(rest2, next)
                },
            },
        }
    }
}

/// The event that `s` holds, or why `s` is no envelope.
pub open spec fn parse_envelope(s: Seq<u8>) -> Result<EventView, MalformedEnvelope> {
    envelope_entries(s, empty_event())
}

/// What follows a field of a time stamp is a suffix of the input.
pub proof fn lemma_timestamp_entry_shape(tag: u32, wire_type: WireType, s: Seq<u8>, acc: Timestamp)
    ensures
        timestamp_entry(tag, wire_type, s, acc) matches Ok((_, rest)) ==> {
            &&& rest.len() <= s.len()
            &&& rest == s.skip(s.len() - rest.len())
        },
{
    lemma_parse_varint_shape(s);
    lemma_after_field_shape(wire_type, tag, s, (RECURSION_LIMIT - 1) as nat);
}

/// What follows the fields of a time stamp is the last `limit` bytes of the input.
pub proof fn lemma_timestamp_entries_shape(s: Seq<u8>, limit: nat, acc: Timestamp)
    ensures
        timestamp_entries(s, limit, acc) matches Ok((_, rest)) ==> {
            &&& rest.len() == limit
            &&& limit <= s.len()
            &&& rest == s.skip(s.len() - limit)
        },
    decreases s.len(),
{
    if s.len() == limit {
        assert(s =~= s.skip(0));
    } else if s.len() < limit {
    } else {
        lemma_parse_key_shape(s);
        match parse_key(s) {
            Err(_) => {},
            Ok((tag, wire_type, rest)) => {
                lemma_timestamp_entry_shape(tag, wire_type, rest, acc);
                match timestamp_entry(tag, wire_type, rest, acc) {
                    Err(_) => {},
                    Ok((next, rest2)) => {
                        lemma_timestamp_entries_shape(rest2, limit, next);
                        lemma_suffix_of_suffix(s, rest, Ok(rest2));
                        match timestamp_entries(rest2, limit, next) {
                            Ok((_, last)) => {
                                lemma_suffix_of_suffix(s, rest2, Ok(last));
                            },
                            Err(_) => {},
                        }
                    },
                }
            },
        }
    }
}

/// What follows a field of an envelope is a suffix of the input.
pub proof fn lemma_envelope_entry_shape(tag: u32, wire_type: WireType, s: Seq<u8>, acc: EventView)
    ensures
        envelope_entry(tag, wire_type, s, acc) matches Ok((_, rest)) ==> {
            &&& rest.len() <= s.len()
            &&& rest == s.skip(s.len() - rest.len())
        },
{
    lemma_parse_delimited_shape(s);
    lemma_after_field_shape(wire_type, tag, s, RECURSION_LIMIT as nat);
    lemma_parse_varint_shape(s);
    match parse_varint(s) {
        Some((len, rest)) => {
            if len <= rest.len() {
                let start = match acc.timestamp {
                    Some(t) => t,
                    None => zero_timestamp(),
                };
                lemma_timestamp_entries_shape(rest, (rest.len() - len) as nat, start);
                match timestamp_entries(rest, (rest.len() - len) as nat, start) {
                    Ok((_, last)) => {
                        lemma_suffix_of_suffix(s, rest, Ok(last));
                    },
                    Err(_) => {},
                }
            }
        },
        None => {},
    }
}

/// Turns bytes into text by `String::from_utf8`. Trusted: that function
/// succeeds exactly on well-formed UTF-8, and the text it gives is the one
/// that those bytes encode.
#[verifier::external_body]
pub(crate) fn text_from_utf8(bytes: Vec<u8>) -> (r: Option<String>)
    ensures
        r is Some <==> valid_utf8(bytes@),
        r matches Some(text) ==> text@ == decode_utf8(bytes@),
{
    match String::from_utf8(bytes) {
        Ok(text) => Some(text),
        Err(_) => None,
    }
}

/// Appends the text field numbered `tag` to `buf`. The bytes of a text in
/// memory are few enough to announce their number.
pub fn put_text(tag: u32, text: &str, buf: &mut Vec<u8>)
    requires
        MIN_TAG <= tag <= MAX_TAG,
    ensures
        final(buf)@ == old(buf)@ + text_field(tag, text@),
        encode_utf8(text@).len() <= usize::MAX,
{
    let bytes = text.as_bytes();
    if bytes.len() != 0 {
        put_delimited(tag, bytes, buf);
        assert(buf@ =~= old(buf)@ + text_field(tag, text@));
    } else {
        assert(buf@ =~= old(buf)@ + text_field(tag, text@));
    }
}

/// Appends the signed field numbered `tag` to `buf`.
pub fn put_int(tag: u32, value: i64, buf: &mut Vec<u8>)
    requires
        MIN_TAG <= tag <= MAX_TAG,
    ensures
        final(buf)@ == old(buf)@ + int_field(tag, value),
{
    if value != 0 {
        put_key(tag, WireType::Varint, buf);
        put_varint(value as u64, buf);
        assert(buf@ =~= old(buf)@ + int_field(tag, value));
    } else {
        assert(buf@ =~= old(buf)@ + int_field(tag, value));
    }
}

/// Appends the time stamp field numbered `tag` to `buf`.
pub fn put_timestamp(tag: u32, t: Option<Timestamp>, buf: &mut Vec<u8>)
    requires
        MIN_TAG <= tag <= MAX_TAG,
    ensures
        final(buf)@ == old(buf)@ + timestamp_field(tag, t),
{
    match t {
        None => {
            assert(buf@ =~= old(buf)@ + timestamp_field(tag, t));
        },
        Some(t) => {
            let mut body: Vec<u8> = Vec::new();
            put_int(TAG_SECONDS, t.seconds, &mut body);
            put_int(TAG_NANOS, t.nanos as i64, &mut body);
            assert(body@ =~= timestamp_body(t));
            put_delimited(tag, body.as_slice(), buf);
        },
    }
}

/// The bytes of `event` on the wire.
pub fn encode_event(event: &AnalyticsEvent) -> (bytes: Vec<u8>)
    ensures
        bytes@ == envelope_bytes(event@),
        parse_envelope(bytes@) == Ok::<EventView, MalformedEnvelope>(event@),
{
    let mut buf: Vec<u8> = Vec::new();
    put_text(TAG_EVENT_ID, event.event_id.as_str(), &mut buf);
    put_text(TAG_EVENT_NAME, event.event_name.as_str(), &mut buf);
    put_text(TAG_SERVICE_NAME, event.service_name.as_str(), &mut buf);
    put_text(TAG_SERVICE_VERSION, event.service_version.as_str(), &mut buf);
    put_timestamp(TAG_TIMESTAMP, event.timestamp, &mut buf);
    put_text(TAG_PAYLOAD, event.payload.as_str(), &mut buf);
    assert(buf@ =~= envelope_bytes(event@));
    proof {
        lemma_round_trip(event@);
    }
    buf
}

/// Takes the value of a text field, whose key has been taken, from the
/// front of `input`.
pub fn take_text<'a>(wire_type: WireType, input: &'a [u8]) -> (r: Result<
    (String, &'a [u8]),
    MalformedEnvelope,
>)
    ensures
        match parse_text(wire_type, input@) {
            Ok((text, rest)) => r matches Ok((t, tail)) && t@ == text && tail@ == rest,
            Err(fault) => r matches Err(f) && f == fault,
        },
{
    match wire_type {
        WireType::LengthDelimited => {},
        _ => {
            return Err(MalformedEnvelope::UnexpectedWireType);
        },
    }
    match take_delimited(input) {
        Err(fault) => Err(fault),
        Ok((body, tail)) => match text_from_utf8(vstd::slice::slice_to_vec(body)) {
            Some(text) => Ok((text, tail)),
            None => Err(MalformedEnvelope::InvalidString),
        },
    }
}

/// Takes one field of a time stamp, whose key has been taken, into `acc`.
pub fn take_timestamp_entry<'a>(
    tag: u32,
    wire_type: WireType,
    input: &'a [u8],
    acc: Timestamp,
) -> (r: Result<(Timestamp, &'a [u8]), MalformedEnvelope>)
    ensures
        match timestamp_entry(tag, wire_type, input@, acc) {
            Ok((t, rest)) => r matches Ok((got, tail)) && got == t && tail@ == rest,
            Err(fault) => r matches Err(f) && f == fault,
        },
{
    if tag == TAG_SECONDS || tag == TAG_NANOS {
        match wire_type {
            WireType::Varint => {},
            _ => {
                return Err(MalformedEnvelope::UnexpectedWireType);
            },
        }
        match take_varint(input) {
            None => Err(MalformedEnvelope::InvalidVarint),
            Some((v, tail)) => {
                if tag == TAG_SECONDS {
                    Ok((Timestamp { seconds: v as i64, nanos: acc.nanos }, tail))
                } else {
                    Ok((Timestamp { seconds: acc.seconds, nanos: v as i32 }, tail))
                }
            },
        }
    } else {
        match skip_field(wire_type, tag, input, RECURSION_LIMIT - 1) {
            Err(fault) => Err(fault),
            Ok(tail) => Ok((acc, tail)),
        }
    }
}

/// Takes the time stamp field, whose key has been taken, from the front of
/// `input`, carrying on from `acc`.
pub fn take_timestamp<'a>(wire_type: WireType, input: &'a [u8], acc: Option<Timestamp>) -> (r:
    Result<(Timestamp, &'a [u8]), MalformedEnvelope>)
    ensures
        match parse_timestamp(wire_type, input@, acc) {
            Ok((t, rest)) => r matches Ok((got, tail)) && got == t && tail@ == rest,
            Err(fault) => r matches Err(f) && f == fault,
        },
{
    match wire_type {
        WireType::LengthDelimited => {},
        _ => {
            return Err(MalformedEnvelope::UnexpectedWireType);
        },
    }
    match take_varint(input) {
        None => Err(MalformedEnvelope::InvalidVarint),
        Some((len, body_and_rest)) => {
            if len > body_and_rest.len() as u64 {
                return Err(MalformedEnvelope::BufferUnderflow);
            }
            let limit: usize = body_and_rest.len() - len as usize;
            let mut t: Timestamp = match acc {
                Some(t) => t,
                None => Timestamp { seconds: 0, nanos: 0 },
            };
            let mut cur: &[u8] = body_and_rest;
            while cur.len() > limit
                invariant
                    parse_timestamp(wire_type, input@, acc) == timestamp_entries(
                        cur@,
                        limit as nat,
                        t,
                    ),
                decreases cur@.len(),
            {
                proof {
                    lemma_parse_key_shape(cur@);
                }
                match take_key(cur) {
                    Err(fault) => {
                        return Err(fault);
                    },
                    Ok((tag, inner, tail)) => {
                        proof {
                            lemma_timestamp_entry_shape(tag, inner, tail@, t);
                        }
                        match take_timestamp_entry(tag, inner, tail, t) {
                            Err(fault) => {
                                return Err(fault);
                            },
                            Ok((next, tail2)) => {
                                t = next;
                                cur = tail2;
                            },
                        }
                    },
                }
            }
            if cur.len() != limit {
                return Err(MalformedEnvelope::DelimitedLengthExceeded);
            }
            Ok((t, cur))
        },
    }
}

/// Reads an event from `bytes`. Bytes that hold an envelope give the event
/// they hold, whole; bytes that hold none give the fault and nothing of an
/// event, however much of them could be read before the fault.
pub fn decode(bytes: &[u8]) -> (r: Result<AnalyticsEvent, MalformedEnvelope>)
    ensures
        r is Ok <==> parse_envelope(bytes@) is Ok,
        r matches Ok(event) ==> parse_envelope(bytes@) == Ok::<EventView, MalformedEnvelope>(
            event@,
        ),
        r matches Err(fault) ==> parse_envelope(bytes@) == Err::<EventView, MalformedEnvelope>(
            fault,
        ),
{
    let mut event = AnalyticsEvent {
        event_id: String::new(),
        event_name: String::new(),
        service_name: String::new(),
        service_version: String::new(),
        timestamp: None,
        payload: String::new(),
    };
    let mut cur: &[u8] = bytes;
    assert(event@ == empty_event());
    while cur.len() > 0
        invariant
            parse_envelope(bytes@) == envelope_entries(cur@, event@),
        decreases cur@.len(),
    {
        proof {
            lemma_parse_key_shape(cur@);
        }
        match take_key(cur) {
            Err(fault) => {
                return Err(fault);
            },
            Ok((tag, wire_type, tail)) => {
                proof {
                    lemma_envelope_entry_shape(tag, wire_type, tail@, event@);
                }
                if tag == TAG_TIMESTAMP {
                    match take_timestamp(wire_type, tail, event.timestamp) {
                        Err(fault) => {
                            return Err(fault);
                        },
                        Ok((t, tail2)) => {
                            event.timestamp = Some(t);
                            cur = tail2;
                        },
                    }
                } else if tag == TAG_EVENT_ID || tag == TAG_EVENT_NAME || tag == TAG_SERVICE_NAME
                    || tag == TAG_SERVICE_VERSION || tag == TAG_PAYLOAD {
                    match take_text(wire_type, tail) {
                        Err(fault) => {
                            return Err(fault);
                        },
                        Ok((text, tail2)) => {
                            if tag == TAG_EVENT_ID {
                                event.event_id = text;
                            } else if tag == TAG_EVENT_NAME {
                                event.event_name = text;
                            } else if tag == TAG_SERVICE_NAME {
                                event.service_name = text;
                            } else if tag == TAG_SERVICE_VERSION {
                                event.service_version = text;
                            } else {
                                event.payload = text;
                            }
                            cur = tail2;
                        },
                    }
                } else {
                    match skip_field(wire_type, tag, tail, RECURSION_LIMIT) {
                        Err(fault) => {
                            return Err(fault);
                        },
                        Ok(tail2) => {
                            cur = tail2;
                        },
                    }
                }
            },
        }
    }
    Ok(event)
}

/// A signed value comes back from its 64-bit two's complement, and a
/// 32-bit one from the low half of its sign extension.
pub proof fn lemma_signed_round_trip(seconds: i64, nanos: i32)
    ensures
        ((seconds as u64) as i64) == seconds,
        (((nanos as i64) as u64) as i32) == nanos,
        (nanos as i64 == 0) <==> (nanos == 0),
{
    assert(((seconds as u64) as i64) == seconds) by (bit_vector);
    assert((((nanos as i64) as u64) as i32) == nanos) by (bit_vector);
}

/// A delimited field is read as its key and then its length and body.
proof fn lemma_delimited_field_split(tag: u32, body: Seq<u8>, rest: Seq<u8>)
    requires
        MIN_TAG <= tag <= MAX_TAG,
        body.len() <= u64::MAX,
    ensures
        (delimited_field(tag, body) + rest).len() > 0,
        parse_key(delimited_field(tag, body) + rest) == Ok::<
            (u32, WireType, Seq<u8>),
            MalformedEnvelope,
        >((tag, WireType::LengthDelimited, varint_bytes(body.len()) + body + rest)),
        parse_delimited(varint_bytes(body.len()) + body + rest) == Ok::<
            (Seq<u8>, Seq<u8>),
            MalformedEnvelope,
        >((body, rest)),
        parse_varint(varint_bytes(body.len()) + body + rest) == Some(
            (body.len() as u64, body + rest),
        ),
{
    let after_key = varint_bytes(body.len()) + body + rest;
    lemma_parse_key_round_trip(tag, WireType::LengthDelimited, after_key);
    lemma_parse_varint_round_trip(
        (tag as nat * 8 + wire_type_code(WireType::LengthDelimited)) as u64,
        after_key,
    );
    assert(delimited_field(tag, body) + rest =~= key_bytes(tag, WireType::LengthDelimited)
        + after_key);
    lemma_parse_delimited_round_trip(body, rest);
    lemma_parse_varint_round_trip(body.len() as u64, body + rest);
    assert(after_key =~= varint_bytes(body.len()) + (body + rest));
}

/// Reading a text field that was written sets that text and goes on with
/// what follows the field. A text left out leaves the reader's default.
pub proof fn lemma_text_field_read(tag: u32, text: Seq<char>, rest: Seq<u8>, acc: EventView)
    requires
        is_text_tag(tag),
        encode_utf8(text).len() <= u64::MAX,
        text_of(acc, tag) == Seq::<char>::empty(),
    ensures
        envelope_entries(text_field(tag, text) + rest, acc) == envelope_entries(
            rest,
            with_text(acc, tag, text),
        ),
{
    let body = encode_utf8(text);
    vstd::utf8::encode_utf8_decode_utf8(text);
    vstd::utf8::encode_utf8_valid_utf8(text);
    if body.len() == 0 {
        assert(decode_utf8(body) =~= Seq::<char>::empty());
        assert(text_field(tag, text) + rest =~= rest);
        assert(with_text(acc, tag, text) == acc);
    } else {
        lemma_delimited_field_split(tag, body, rest);
    }
}

/// Reading a signed field of a time stamp that was written sets that field
/// and goes on with what follows it.
proof fn lemma_int_field_read(tag: u32, value: i64, rest: Seq<u8>, limit: nat, acc: Timestamp)
    requires
        tag == TAG_SECONDS || tag == TAG_NANOS,
        value != 0,
        limit <= rest.len(),
    ensures
        timestamp_entries(int_field(tag, value) + rest, limit, acc) == timestamp_entries(
            rest,
            limit,
            if tag == TAG_SECONDS {
                Timestamp { seconds: (value as u64) as i64, nanos: acc.nanos }
            } else {
                Timestamp { seconds: acc.seconds, nanos: (value as u64) as i32 }
            },
        ),
        1 <= int_field(tag, value).len() <= 11,
{
    let after_key = varint_bytes((value as u64) as nat) + rest;
    lemma_parse_key_round_trip(tag, WireType::Varint, after_key);
    lemma_parse_varint_round_trip(
        (tag as nat * 8 + wire_type_code(WireType::Varint)) as u64,
        after_key,
    );
    lemma_parse_varint_round_trip(value as u64, rest);
    assert(int_field(tag, value) + rest =~= key_bytes(tag, WireType::Varint) + after_key);
    assert(key_bytes(tag, WireType::Varint).len() == 1) by {
        reveal_with_fuel(varint_bytes, 2);
    }
}

/// The fields of a time stamp that was written are read back as that time
/// stamp, up to what follows them.
pub proof fn lemma_timestamp_body_read(t: Timestamp, rest: Seq<u8>)
    ensures
        timestamp_entries(timestamp_body(t) + rest, rest.len(), zero_timestamp()) == Ok::<
            (Timestamp, Seq<u8>),
            MalformedEnvelope,
        >((t, rest)),
        timestamp_body(t).len() <= 22,
{
    lemma_signed_round_trip(t.seconds, t.nanos);
    let nanos_part = int_field(TAG_NANOS, t.nanos as i64);
    let after_seconds = nanos_part + rest;
    let with_seconds = Timestamp { seconds: t.seconds, nanos: 0 };
    assert(timestamp_body(t) + rest =~= int_field(TAG_SECONDS, t.seconds) + after_seconds);
    if t.nanos != 0 {
        lemma_int_field_read(TAG_NANOS, t.nanos as i64, rest, rest.len(), with_seconds);
    } else {
        assert(after_seconds =~= rest);
    }
    assert(timestamp_entries(after_seconds, rest.len(), with_seconds) == Ok::<
        (Timestamp, Seq<u8>),
        MalformedEnvelope,
    >((t, rest)));
    if t.seconds != 0 {
        lemma_int_field_read(
            TAG_SECONDS,
            t.seconds,
            after_seconds,
            rest.len(),
            zero_timestamp(),
        );
    } else {
        assert(int_field(TAG_SECONDS, t.seconds) + after_seconds =~= after_seconds);
    }
}

/// Reading a time stamp field that was written sets that time stamp and
/// goes on with what follows the field. One left out leaves none.
pub proof fn lemma_timestamp_field_read(t: Option<Timestamp>, rest: Seq<u8>, acc: EventView)
    requires
        acc.timestamp is None,
    ensures
        envelope_entries(timestamp_field(TAG_TIMESTAMP, t) + rest, acc) == envelope_entries(
            rest,
            EventView { timestamp: t, ..acc },
        ),
{
    match t {
        None => {
            assert(timestamp_field(TAG_TIMESTAMP, t) + rest =~= rest);
            assert(EventView { timestamp: t, ..acc } == acc);
        },
        Some(stamp) => {
            let body = timestamp_body(stamp);
            lemma_timestamp_body_read(stamp, rest);
            lemma_delimited_field_split(TAG_TIMESTAMP, body, rest);
            assert((body + rest).len() - body.len() == rest.len());
        },
    }
}

/// Reading what was written gives back what was written: every event whose
/// texts can announce their length is read back, field for field, from its
/// bytes. This holds of the empty payload and of an event without a time
/// stamp as of any other.
pub proof fn lemma_round_trip(event: EventView)
    requires
        fits_wire(event),
    ensures
        parse_envelope(envelope_bytes(event)) == Ok::<EventView, MalformedEnvelope>(event),
{
    let f1 = text_field(TAG_EVENT_ID, event.event_id);
    let f2 = text_field(TAG_EVENT_NAME, event.event_name);
    let f3 = text_field(TAG_SERVICE_NAME, event.service_name);
    let f4 = text_field(TAG_SERVICE_VERSION, event.service_version);
    let f5 = timestamp_field(TAG_TIMESTAMP, event.timestamp);
    let f6 = text_field(TAG_PAYLOAD, event.payload);
    let r6 = Seq::<u8>::empty();
    let r5 = f6;
    let r4 = f5 + r5;
    let r3 = f4 + r4;
    let r2 = f3 + r3;
    let r1 = f2 + r2;
    let a0 = empty_event();
    let a1 = EventView { event_id: event.event_id, ..a0 };
    let a2 = EventView { event_name: event.event_name, ..a1 };
    let a3 = EventView { service_name: event.service_name, ..a2 };
    let a4 = EventView { service_version: event.service_version, ..a3 };
    let a5 = EventView { timestamp: event.timestamp, ..a4 };
    assert(envelope_bytes(event) == f1 + r1);
    assert(envelope_entries(f1 + r1, a0) == envelope_entries(r1, a1)) by {
        lemma_text_field_read(TAG_EVENT_ID, event.event_id, r1, a0);
    }
    assert(envelope_entries(r1, a1) == envelope_entries(r2, a2)) by {
        lemma_text_field_read(TAG_EVENT_NAME, event.event_name, r2, a1);
    }
    assert(envelope_entries(r2, a2) == envelope_entries(r3, a3)) by {
        lemma_text_field_read(TAG_SERVICE_NAME, event.service_name, r3, a2);
    }
    assert(envelope_entries(r3, a3) == envelope_entries(r4, a4)) by {
        lemma_text_field_read(TAG_SERVICE_VERSION, event.service_version, r4, a3);
    }
    assert(envelope_entries(r4, a4) == envelope_entries(r5, a5)) by {
        lemma_timestamp_field_read(event.timestamp, r5, a4);
    }
    assert(envelope_entries(r5, a5) == envelope_entries(r6, event)) by {
        lemma_text_field_read(TAG_PAYLOAD, event.payload, r6, a5);
        assert(f6 + r6 =~= f6);
        assert(with_text(a5, TAG_PAYLOAD, event.payload) == event);
    }
}

/// Texts that were read can be written: whatever fields a reader adds to an
/// event whose texts can announce their length, the texts of the event it
/// ends with can announce theirs.
pub proof fn lemma_read_fits_wire(s: Seq<u8>, acc: EventView)
    requires
        fits_wire(acc),
    ensures
        envelope_entries(s, acc) matches Ok(event) ==> fits_wire(event),
    decreases s.len(),
{
    if s.len() != 0 {
        lemma_parse_key_shape(s);
        match parse_key(s) {
            Err(_) => {},
            Ok((tag, wire_type, rest)) => {
                lemma_envelope_entry_shape(tag, wire_type, rest, acc);
                match envelope_entry(tag, wire_type, rest, acc) {
                    Err(_) => {},
                    Ok((next, rest2)) => {
                        if is_text_tag(tag) {
                            match parse_delimited(rest) {
                                Ok((body, _)) => {
                                    lemma_parse_delimited_shape(rest);
                                    vstd::utf8::decode_utf8_encode_utf8(body);
                                },
                                Err(_) => {},
                            }
                        }
                        lemma_read_fits_wire(rest2, next);
                    },
                }
            },
        }
    }
}

/// What is read can be written and read again: the event that a reader
/// takes from any bytes it accepts is whole, in that its own bytes give the
/// same event back.
pub proof fn lemma_read_then_round_trip(s: Seq<u8>)
    ensures
        parse_envelope(s) matches Ok(event) ==> parse_envelope(envelope_bytes(event)) == Ok::<
            EventView,
            MalformedEnvelope,
        >(event),
{
    assert(encode_utf8(Seq::<char>::empty()) =~= Seq::<u8>::empty());
    lemma_read_fits_wire(s, empty_event());
    match parse_envelope(s) {
        Ok(event) => {
            lemma_round_trip(event);
        },
        Err(_) => {},
    }
}

/// The identifier that every event built here carries: a placeholder, the
/// same for all.
pub open spec fn placeholder_event_id() -> Seq<char> {
    "123"@
}

/// The logical name of the events built here; its suffix names the schema's version.
pub open spec fn event_name_v1() -> Seq<char> {
    "analytics.publish.v1"@
}

/// The name under which this application emits.
pub open spec fn own_service_name() -> Seq<char> {
    "dispatch-play"@
}

/// The version under which this application emits.
pub open spec fn own_service_version() -> Seq<char> {
    "0.1.0"@
}

/// The event that carries `text` on behalf of a service, stamped `now`.
pub open spec fn event_of(
    text: Seq<char>,
    service_name: Seq<char>,
    service_version: Seq<char>,
    event_name: Seq<char>,
    now: Timestamp,
) -> EventView {
    EventView {
        event_id: placeholder_event_id(),
        event_name,
        service_name,
        service_version,
        timestamp: Some(now),
        payload: text,
    }
}

/// The event that this application publishes for a typed line.
pub open spec fn analytics_v1(payload: Seq<char>, now: Timestamp) -> EventView {
    event_of(payload, own_service_name(), own_service_version(), event_name_v1(), now)
}

/// Builds the event that carries `text` on behalf of a service, stamped `now`.
pub fn build_event(
    text: &str,
    service_name: &str,
    service_version: &str,
    event_name: &str,
    now: Timestamp,
) -> (event: AnalyticsEvent)
    ensures
        event@ == event_of(text@, service_name@, service_version@, event_name@, now),
{
    AnalyticsEvent {
        event_id: "123".to_owned(),
        event_name: event_name.to_owned(),
        service_name: service_name.to_owned(),
        service_version: service_version.to_owned(),
        timestamp: Some(now),
        payload: text.to_owned(),
    }
}

/// The bytes of the event that carries `text` on behalf of a service,
/// stamped `now`. The same values give the same bytes, and reading the
/// bytes gives the event back.
pub fn encode(
    text: &str,
    service_name: &str,
    service_version: &str,
    event_name: &str,
    now: Timestamp,
) -> (bytes: Vec<u8>)
    ensures
        bytes@ == envelope_bytes(
            event_of(text@, service_name@, service_version@, event_name@, now),
        ),
        parse_envelope(bytes@) == Ok::<EventView, MalformedEnvelope>(
            event_of(text@, service_name@, service_version@, event_name@, now),
        ),
{
    let event = build_event(text, service_name, service_version, event_name, now);
    encode_event(&event)
}

/// Builds the event that this application publishes for the typed line
/// `payload` at the time `now`: the line is carried as it is.
pub fn build_analytics_v1(payload: &str, now: Timestamp) -> (event: AnalyticsEvent)
    ensures
        event@ == analytics_v1(payload@, now),
{
    build_event(payload, "dispatch-play", "0.1.0", "analytics.publish.v1", now)
}

/// The time stamp of a clock reading: whole seconds since the epoch and the
/// nanoseconds past them, each kept in the width that the envelope gives it.
pub open spec fn timestamp_of(seconds: u64, subsec_nanos: u32) -> Timestamp {
    Timestamp { seconds: seconds as i64, nanos: subsec_nanos as i32 }
}

/// The time stamp of a clock reading.
pub fn timestamp_from_clock(seconds: u64, subsec_nanos: u32) -> (t: Timestamp)
    ensures
        t == timestamp_of(seconds, subsec_nanos),
{
    Timestamp { seconds: seconds as i64, nanos: subsec_nanos as i32 }
}

} // verus!
