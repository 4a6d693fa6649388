//! The duplex relay: one interactive session in which typed lines are
//! published as envelopes and arriving envelopes are printed.
//!
//! The relay decides; it does no waiting, reading or sending itself. Each
//! iteration it asks for a prompt, is told which of the two waits resolved
//! first, and answers with the one thing to do about it. A session is thus a
//! function from the arrivals, in the order they resolved, to the actions
//! asked for, and what the operator sees and what the broker gets are read
//! off those actions.

use crate::envelope::{
    analytics_v1, build_analytics_v1, decode, encode_event, envelope_bytes, parse_envelope,
    Timestamp,
};
use crate::wire::{put_bytes, MalformedEnvelope};
use vstd::prelude::*;
use vstd::utf8::encode_utf8;

verus! {

/// Why a session ended.
#[derive(Clone, Copy, Debug, PartialEq, Eq, Structural)]
pub enum RelayError {
    /// No producer or consumer could be had from the broker client.
    BrokerUnavailable,
    /// The broker client did not take a record.
    PublishFailed,
    /// The broker client failed to hand over a message, or handed over one
    /// without a payload.
    ReceiveFailed,
    /// The payload of a message is no envelope.
    MalformedEnvelope(MalformedEnvelope),
    /// The terminal's input is used up or cannot be read.
    InputClosed,
}

/// Where a session stands.
#[derive(Clone, Copy, Debug, PartialEq, Eq, Structural)]
pub enum RelayState {
    Running,
    Terminated(RelayError),
}

/// What the broker's side of a wait resolved to.
#[derive(Clone, Debug, PartialEq, Eq)]
pub enum Delivery {
    /// A message with these payload bytes.
    Payload(Vec<u8>),
    /// A message that carries no payload.
    NoPayload,
    /// The broker client reported a failure.
    Failed,
}

/// What the terminal's side of a wait resolved to.
#[derive(Clone, Debug, PartialEq, Eq)]
pub enum LineRead {
    /// A line of text, without its line end; it may be empty.
    Line(String),
    /// The input is used up.
    Closed,
    /// The input could not be read.
    Failed,
}

/// What happened while the relay waited.
#[derive(Clone, Debug, PartialEq, Eq)]
pub enum Event {
    /// The broker's side resolved first.
    Message(Delivery),
    /// The terminal's side resolved first.
    Input(LineRead),
    /// The record that the relay last asked to publish was not taken.
    PublishFailed,
    /// The broker client could not be set up.
    BrokerUnavailable,
}

/// An event together with the clock's reading when it is handled.
#[derive(Clone, Debug, PartialEq, Eq)]
pub struct Arrival {
    pub event: Event,
    pub now: Timestamp,
}

/// A record for the broker: the topic and the payload bytes, without a key.
#[derive(Clone, Debug, PartialEq, Eq)]
pub struct Record {
    pub topic: String,
    pub payload: Vec<u8>,
}

/// What the relay asks the outside to do.
#[derive(Clone, Debug, PartialEq, Eq)]
pub enum Action {
    /// Write the prompt to the terminal and wait for the next event.
    Prompt,
    /// Write these bytes to the terminal.
    Print(Vec<u8>),
    /// Hand this record to the broker and await its acknowledgement.
    Publish(Record),
    /// Stop: the session is over, for this reason.
    Stop(RelayError),
}

/// A record as a mathematical value.
pub struct RecordView {
    pub topic: Seq<char>,
    pub payload: Seq<u8>,
}

/// An action as a mathematical value.
pub enum ActionView {
    Prompt,
    Print(Seq<u8>),
    Publish(RecordView),
    Stop(RelayError),
}

impl View for Record {
    type V = RecordView;

    open spec fn view(&self) -> RecordView {
        RecordView { topic: self.topic@, payload: self.payload@ }
    }
}

impl View for Action {
    type V = ActionView;

    open spec fn view(&self) -> ActionView {
        match self {
            Action::Prompt => ActionView::Prompt,
            Action::Print(bytes) => ActionView::Print(bytes@),
            Action::Publish(record) => ActionView::Publish(record@),
            Action::Stop(error) => ActionView::Stop(*error),
        }
    }
}

/// The prompt: a greater-than sign and a space.
pub open spec fn prompt_bytes() -> Seq<u8> {
    seq![62u8, 32u8]
}

/// The line end that follows a printed payload.
pub open spec fn line_end() -> Seq<u8> {
    seq![10u8]
}

/// What is printed for a message: the payload text of its envelope and a
/// line end; or why the session ends over it.
pub open spec fn printed_for(message: Delivery) -> Result<Seq<u8>, RelayError> {
    match message {
        Delivery::Payload(bytes) => match parse_envelope(bytes@) {
            Ok(event) => Ok(encode_utf8(event.payload) + line_end()),
            Err(fault) => Err(RelayError::MalformedEnvelope(fault)),
        },
        Delivery::NoPayload => Err(RelayError::ReceiveFailed),
        Delivery::Failed => Err(RelayError::ReceiveFailed),
    }
}

/// What is published for a read from the terminal: the envelope of the
/// line, stamped `now`, for `topic`; or why the session ends over it.
pub open spec fn record_for(topic: Seq<char>, line: LineRead, now: Timestamp) -> Result<
    RecordView,
    RelayError,
> {
    match line {
        LineRead::Line(text) => Ok(
            RecordView { topic, payload: envelope_bytes(analytics_v1(text@, now)) },
        ),
        LineRead::Closed => Err(RelayError::InputClosed),
        LineRead::Failed => Err(RelayError::InputClosed),
    }
}

/// The transition of the relay: from a state and an arrival to the next
/// state and the action asked for. A session that is over stays over and
/// asks for nothing but to stop.
pub open spec fn step_of(state: RelayState, topic: Seq<char>, arrival: Arrival) -> (
    RelayState,
    ActionView,
) {
    match state {
        RelayState::Terminated(error) => (state, ActionView::Stop(error)),
        RelayState::Running => match arrival.event {
            Event::Message(message) => match printed_for(message) {
                Ok(bytes) => (RelayState::Running, ActionView::Print(bytes)),
                Err(error) => (RelayState::Terminated(error), ActionView::Stop(error)),
            },
            Event::Input(line) => match record_for(topic, line, arrival.now) {
                Ok(record) => (RelayState::Running, ActionView::Publish(record)),
                Err(error) => (RelayState::Terminated(error), ActionView::Stop(error)),
            },
            Event::PublishFailed => (
                RelayState::Terminated(RelayError::PublishFailed),
                ActionView::Stop(RelayError::PublishFailed),
            ),
            Event::BrokerUnavailable => (
                RelayState::Terminated(RelayError::BrokerUnavailable),
                ActionView::Stop(RelayError::BrokerUnavailable),
            ),
        },
    }
}

/// The actions of a session from `state` on, given what arrives: while it
/// runs, a prompt, then the action for the next arrival, and so on. Once
/// over, nothing. A session still running when the arrivals are used up has
/// asked for one more prompt and waits.
pub open spec fn session(state: RelayState, topic: Seq<char>, arrivals: Seq<Arrival>) -> Seq<
    ActionView,
>
    decreases arrivals.len(),
{
    if state != RelayState::Running {
        Seq::empty()
    } else if arrivals.len() == 0 {
        seq![ActionView::Prompt]
    } else {
        let (next, action) = step_of(state, topic, arrivals[0]);
        seq![ActionView::Prompt, action] + session(next, topic, arrivals.drop_first())
    }
}

/// The state of a session from `state` on after what arrives.
pub open spec fn state_after(state: RelayState, topic: Seq<char>, arrivals: Seq<Arrival>) -> RelayState
    decreases arrivals.len(),
{
    if state != RelayState::Running || arrivals.len() == 0 {
        state
    } else {
        state_after(step_of(state, topic, arrivals[0]).0, topic, arrivals.drop_first())
    }
}

/// The actions in `actions` as mathematical values.
pub open spec fn actions_view(actions: Seq<Action>) -> Seq<ActionView> {
    actions.map_values(|a: Action| a@)
}

/// What shows on the terminal after `actions`: prompts and printed bytes,
/// in order.
pub open spec fn terminal_output(actions: Seq<ActionView>) -> Seq<u8>
    decreases actions.len(),
{
    if actions.len() == 0 {
        Seq::empty()
    } else {
        (match actions[0] {
            ActionView::Prompt => prompt_bytes(),
            ActionView::Print(bytes) => bytes,
            _ => Seq::empty(),
        }) + terminal_output(actions.drop_first())
    }
}

/// The lines printed by `actions`, in order.
pub open spec fn printed(actions: Seq<ActionView>) -> Seq<Seq<u8>>
    decreases actions.len(),
{
    if actions.len() == 0 {
        Seq::empty()
    } else {
        (match actions[0] {
            ActionView::Print(bytes) => seq![bytes],
            _ => Seq::empty(),
        }) + printed(actions.drop_first())
    }
}

/// The records that `actions` asked to publish, in order.
pub open spec fn published(actions: Seq<ActionView>) -> Seq<RecordView>
    decreases actions.len(),
{
    if actions.len() == 0 {
        Seq::empty()
    } else {
        (match actions[0] {
            ActionView::Publish(record) => seq![record],
            _ => Seq::empty(),
        }) + published(actions.drop_first())
    }
}

/// Decides what to print for a message from the broker.
pub fn handle_message(message: &Delivery) -> (r: Result<Vec<u8>, RelayError>)
    ensures
        match printed_for(*message) {
            Ok(bytes) => r matches Ok(out) && out@ == bytes,
            Err(error) => r matches Err(e) && e == error,
        },
{
    match message {
        Delivery::Payload(bytes) => match decode(bytes.as_slice()) {
            Ok(event) => {
                let mut out: Vec<u8> = Vec::new();
                put_bytes(event.payload.as_str().as_bytes(), &mut out);
                out.push(10u8);
                assert(out@ =~= encode_utf8(event@.payload) + line_end());
                Ok(out)
            },
            Err(fault) => Err(RelayError::MalformedEnvelope(fault)),
        },
        Delivery::NoPayload => Err(RelayError::ReceiveFailed),
        Delivery::Failed => Err(RelayError::ReceiveFailed),
    }
}

/// Decides what to publish for a read from the terminal at the time `now`.
pub fn handle_input(topic: &str, line: &LineRead, now: Timestamp) -> (r: Result<
    Record,
    RelayError,
>)
    ensures
        match record_for(topic@, *line, now) {
            Ok(record) => r matches Ok(out) && out@ == record,
            Err(error) => r matches Err(e) && e == error,
        },
{
    match line {
        LineRead::Line(text) => {
            let event = build_analytics_v1(text.as_str(), now);
            let payload = encode_event(&event);
            Ok(Record { topic: topic.to_owned(), payload })
        },
        LineRead::Closed => Err(RelayError::InputClosed),
        LineRead::Failed => Err(RelayError::InputClosed),
    }
}

/// One running session: its state and the topic it relays.
pub struct Relay {
    pub state: RelayState,
    pub topic: String,
}

impl Relay {
    /// A session ready to run on `topic`.
    pub fn new(topic: &str) -> (relay: Relay)
        ensures
            relay.state == RelayState::Running,
            relay.topic@ == topic@,
    {
        Relay { state: RelayState::Running, topic: topic.to_owned() }
    }

    /// Whether the session still runs.
    pub fn is_running(&self) -> (running: bool)
        ensures
            running == (self.state == RelayState::Running),
    {
        match self.state {
            RelayState::Running => true,
            RelayState::Terminated(_) => false,
        }
    }

    /// The bytes of the prompt.
    pub fn prompt() -> (bytes: Vec<u8>)
        ensures
            bytes@ == prompt_bytes(),
    {
        let mut bytes: Vec<u8> = Vec::new();
        bytes.push(62u8);
        bytes.push(32u8);
        assert(bytes@ =~= prompt_bytes());
        bytes
    }

    /// Takes one arrival: moves to the next state and says what to do.
    pub fn step(&mut self, arrival: &Arrival) -> (action: Action)
        ensures
            (final(self).state, action@) == step_of(old(self).state, old(self).topic@, *arrival),
            final(self).topic == old(self).topic,
    {
        match self.state {
            RelayState::Terminated(error) => Action::Stop(error),
            RelayState::Running => {
                let outcome: Result<Action, RelayError> = match &arrival.event {
                    Event::Message(message) => match handle_message(message) {
                        Ok(bytes) => Ok(Action::Print(bytes)),
                        Err(error) => Err(error),
                    },
                    Event::Input(line) => match handle_input(
                        self.topic.as_str(),
                        line,
                        arrival.now,
                    ) {
                        Ok(record) => Ok(Action::Publish(record)),
                        Err(error) => Err(error),
                    },
                    Event::PublishFailed => Err(RelayError::PublishFailed),
                    Event::BrokerUnavailable => Err(RelayError::BrokerUnavailable),
                };
                match outcome {
                    Ok(action) => action,
                    Err(error) => {
                        self.state = RelayState::Terminated(error);
                        Action::Stop(error)
                    },
                }
            },
        }
    }

    /// Runs the session over `arrivals`, in order: every action asked for,
    /// prompts included, until the session is over or the arrivals are used
    /// up.
    pub fn run(&mut self, arrivals: &Vec<Arrival>) -> (trace: Vec<Action>)
        ensures
            actions_view(trace@) == session(old(self).state, old(self).topic@, arrivals@),
            final(self).state == state_after(old(self).state, old(self).topic@, arrivals@),
            final(self).topic == old(self).topic,
    {
        let mut trace: Vec<Action> = Vec::new();
        let mut i: usize = 0;
        assert(arrivals@.skip(0) =~= arrivals@);
        assert(actions_view(trace@) =~= Seq::<ActionView>::empty());
        while i < arrivals.len() && self.is_running()
            invariant
                i <= arrivals.len(),
                self.topic == old(self).topic,
                session(old(self).state, old(self).topic@, arrivals@) == actions_view(trace@)
                    + session(self.state, self.topic@, arrivals@.skip(i as int)),
                state_after(old(self).state, old(self).topic@, arrivals@) == state_after(
                    self.state,
                    self.topic@,
                    arrivals@.skip(i as int),
                ),
            decreases arrivals.len() - i,
        {
            let ghost before = actions_view(trace@);
            let ghost rest = arrivals@.skip(i as int);
            trace.push(Action::Prompt);
            let action = self.step(&arrivals[i]);
            trace.push(action);
            i = i + 1;
            proof {
                assert(rest.drop_first() =~= arrivals@.skip(i as int));
                assert(actions_view(trace@) =~= before + seq![ActionView::Prompt, action@]);
                assert(before + (seq![ActionView::Prompt, action@] + session(
                    self.state,
                    self.topic@,
                    arrivals@.skip(i as int),
                )) =~= actions_view(trace@) + session(
                    self.state,
                    self.topic@,
                    arrivals@.skip(i as int),
                ));
            }
        }
        if self.is_running() {
            proof {
                assert(actions_view(trace@.push(Action::Prompt)) =~= actions_view(trace@)
                    + seq![ActionView::Prompt]);
            }
            trace.push(Action::Prompt);
        } else {
            assert(actions_view(trace@) + Seq::<ActionView>::empty() =~= actions_view(trace@));
        }
        trace
    }
}

/// What shows on the terminal after the actions of `trace`.
pub fn terminal_bytes(trace: &Vec<Action>) -> (out: Vec<u8>)
    ensures
        out@ == terminal_output(actions_view(trace@)),
{
    let mut out: Vec<u8> = Vec::new();
    let mut i: usize = 0;
    let ghost all = actions_view(trace@);
    assert(all.skip(0) =~= all);
    while i < trace.len()
        invariant
            i <= trace.len(),
            all == actions_view(trace@),
            terminal_output(all) == out@ + terminal_output(all.skip(i as int)),
        decreases trace.len() - i,
    {
        let ghost before = out@;
        let ghost rest = all.skip(i as int);
        assert(rest[0] == trace@[i as int]@);
        assert(rest.drop_first() =~= all.skip(i + 1));
        match &trace[i] {
            Action::Prompt => {
                out.push(62u8);
                out.push(32u8);
                assert(out@ =~= before + prompt_bytes());
            },
            Action::Print(bytes) => {
                put_bytes(bytes.as_slice(), &mut out);
            },
            Action::Publish(_) => {
                assert(out@ =~= before + Seq::<u8>::empty());
            },
            Action::Stop(_) => {
                assert(out@ =~= before + Seq::<u8>::empty());
            },
        }
        i = i + 1;
        assert(terminal_output(all) =~= out@ + terminal_output(all.skip(i as int)));
    }
    assert(terminal_output(all.skip(i as int)) =~= Seq::<u8>::empty());
    assert(out@ + Seq::<u8>::empty() =~= out@);
    out
}

/// Whether an arrival is a typed line or a message that holds an envelope:
/// the arrivals over which a session goes on.
pub open spec fn keeps_running(arrival: Arrival) -> bool {
    match arrival.event {
        Event::Input(LineRead::Line(_)) => true,
        Event::Message(Delivery::Payload(bytes)) => parse_envelope(bytes@) is Ok,
        _ => false,
    }
}

/// Whether an arrival says that the terminal's input has ended.
pub open spec fn ends_input(arrival: Arrival) -> bool {
    match arrival.event {
        Event::Input(LineRead::Closed) => true,
        Event::Input(LineRead::Failed) => true,
        _ => false,
    }
}

/// The lines that the envelopes among `arrivals` ask to print, in the
/// order of their delivery.
pub open spec fn delivered_lines(arrivals: Seq<Arrival>) -> Seq<Seq<u8>>
    decreases arrivals.len(),
{
    if arrivals.len() == 0 {
        Seq::empty()
    } else {
        (match arrivals[0].event {
            Event::Message(message) => match printed_for(message) {
                Ok(bytes) => seq![bytes],
                Err(_) => Seq::empty(),
            },
            _ => Seq::empty(),
        }) + delivered_lines(arrivals.drop_first())
    }
}

/// The records for the lines typed among `arrivals`, in the order typed.
pub open spec fn typed_records(topic: Seq<char>, arrivals: Seq<Arrival>) -> Seq<RecordView>
    decreases arrivals.len(),
{
    if arrivals.len() == 0 {
        Seq::empty()
    } else {
        (match arrivals[0].event {
            Event::Input(line) => match record_for(topic, line, arrivals[0].now) {
                Ok(record) => seq![record],
                Err(_) => Seq::empty(),
            },
            _ => Seq::empty(),
        }) + typed_records(topic, arrivals.drop_first())
    }
}

/// What shows on the terminal over `arrivals` while the session goes on: a
/// prompt before every wait, and after it the line of a message; a typed
/// line adds nothing.
pub open spec fn terminal_over(arrivals: Seq<Arrival>) -> Seq<u8>
    decreases arrivals.len(),
{
    if arrivals.len() == 0 {
        prompt_bytes()
    } else {
        prompt_bytes() + (match arrivals[0].event {
            Event::Message(message) => match printed_for(message) {
                Ok(bytes) => bytes,
                Err(_) => Seq::empty(),
            },
            _ => Seq::empty(),
        }) + terminal_over(arrivals.drop_first())
    }
}

/// How many of `arrivals` are messages from the broker.
pub open spec fn messages_among(arrivals: Seq<Arrival>) -> nat
    decreases arrivals.len(),
{
    if arrivals.len() == 0 {
        0
    } else {
        (if arrivals[0].event is Message {
            1nat
        } else {
            0nat
        }) + messages_among(arrivals.drop_first())
    }
}

/// How many of `arrivals` are reads from the terminal.
pub open spec fn inputs_among(arrivals: Seq<Arrival>) -> nat
    decreases arrivals.len(),
{
    if arrivals.len() == 0 {
        0
    } else {
        (if arrivals[0].event is Input {
            1nat
        } else {
            0nat
        }) + inputs_among(arrivals.drop_first())
    }
}

/// What one iteration adds to the terminal, to the printed lines and to the
/// published records.
proof fn lemma_iteration(action: ActionView, rest: Seq<ActionView>)
    ensures
        printed(seq![ActionView::Prompt, action] + rest) == (match action {
            ActionView::Print(bytes) => seq![bytes],
            _ => Seq::empty(),
        }) + printed(rest),
        published(seq![ActionView::Prompt, action] + rest) == (match action {
            ActionView::Publish(record) => seq![record],
            _ => Seq::empty(),
        }) + published(rest),
        terminal_output(seq![ActionView::Prompt, action] + rest) == prompt_bytes() + (match action {
            ActionView::Prompt => prompt_bytes(),
            ActionView::Print(bytes) => bytes,
            _ => Seq::empty(),
        }) + terminal_output(rest),
{
    let all = seq![ActionView::Prompt, action] + rest;
    let tail = seq![action] + rest;
    assert(all.drop_first() =~= tail);
    assert(tail.drop_first() =~= rest);
    assert(printed(all) =~= printed(tail));
    assert(published(all) =~= published(tail));
    assert(terminal_output(all) =~= prompt_bytes() + terminal_output(tail));
}

/// A lone prompt prints and publishes nothing, and neither does no action.
proof fn lemma_quiet()
    ensures
        seq![ActionView::Prompt].drop_first() == Seq::<ActionView>::empty(),
        printed(seq![ActionView::Prompt]) == Seq::<Seq<u8>>::empty(),
        published(seq![ActionView::Prompt]) == Seq::<RecordView>::empty(),
        printed(Seq::<ActionView>::empty()) == Seq::<Seq<u8>>::empty(),
        published(Seq::<ActionView>::empty()) == Seq::<RecordView>::empty(),
{
    let only = seq![ActionView::Prompt];
    assert(only.drop_first() =~= Seq::<ActionView>::empty());
    assert(printed(only.drop_first()) =~= Seq::<Seq<u8>>::empty());
    assert(published(only.drop_first()) =~= Seq::<RecordView>::empty());
    assert(printed(only) =~= Seq::<Seq<u8>>::empty());
    assert(published(only) =~= Seq::<RecordView>::empty());
}

/// Lines and messages in any interleaving: as long as every arrival is a
/// typed line or a message that holds an envelope, the session keeps
/// running, prints exactly one line per message, in the order in which the
/// broker delivered them, and publishes exactly one record per typed line,
/// in the order typed. A publish shows nothing on the terminal.
pub proof fn lemma_interleaving(topic: Seq<char>, arrivals: Seq<Arrival>)
    requires
        forall|i: int| 0 <= i < arrivals.len() ==> keeps_running(#[trigger] arrivals[i]),
    ensures
        state_after(RelayState::Running, topic, arrivals) == RelayState::Running,
        printed(session(RelayState::Running, topic, arrivals)) == delivered_lines(arrivals),
        published(session(RelayState::Running, topic, arrivals)) == typed_records(
            topic,
            arrivals,
        ),
        delivered_lines(arrivals).len() == messages_among(arrivals),
        typed_records(topic, arrivals).len() == inputs_among(arrivals),
        terminal_output(session(RelayState::Running, topic, arrivals)) == terminal_over(arrivals),
    decreases arrivals.len(),
{
    if arrivals.len() == 0 {
        lemma_quiet();
        let only = seq![ActionView::Prompt];
        assert(terminal_output(only.drop_first()) =~= Seq::<u8>::empty());
        assert(terminal_output(only) =~= prompt_bytes());
    } else {
        let rest = arrivals.drop_first();
        assert(keeps_running(arrivals[0]));
        assert forall|i: int| 0 <= i < rest.len() implies keeps_running(#[trigger] rest[i]) by {
            assert(rest[i] == arrivals[i + 1]);
        }
        lemma_interleaving(topic, rest);
        let (next, action) = step_of(RelayState::Running, topic, arrivals[0]);
        assert(next == RelayState::Running);
        lemma_iteration(action, session(RelayState::Running, topic, rest));
    }
}

/// The end of input ends a running session at once: one prompt, the order
/// to stop, and nothing for whatever arrives later.
proof fn lemma_closing(topic: Seq<char>, closing: Arrival, later: Seq<Arrival>)
    requires
        ends_input(closing),
    ensures
        session(RelayState::Running, topic, seq![closing] + later) == seq![
            ActionView::Prompt,
            ActionView::Stop(RelayError::InputClosed),
        ],
        state_after(RelayState::Running, topic, seq![closing] + later) == RelayState::Terminated(
            RelayError::InputClosed,
        ),
{
    let all = seq![closing] + later;
    let over = RelayState::Terminated(RelayError::InputClosed);
    assert(all[0] == closing);
    assert(step_of(RelayState::Running, topic, closing) == (
        over,
        ActionView::Stop(RelayError::InputClosed),
    ));
    assert(session(over, topic, all.drop_first()) =~= Seq::<ActionView>::empty());
    assert(state_after(over, topic, all.drop_first()) == over);
    assert(session(RelayState::Running, topic, all) =~= seq![
        ActionView::Prompt,
        ActionView::Stop(RelayError::InputClosed),
    ]);
}

/// Nothing follows the end of input: once the terminal's input has ended,
/// whatever arrives later changes nothing. The session is over, the actions
/// are those up to the end of input, and no record is published and no
/// line printed beyond those that the arrivals before it called for.
pub proof fn lemma_end_of_input(
    state: RelayState,
    topic: Seq<char>,
    before: Seq<Arrival>,
    closing: Arrival,
    later: Seq<Arrival>,
)
    requires
        ends_input(closing),
    ensures
        state_after(state, topic, before + seq![closing] + later) is Terminated,
        session(state, topic, before + seq![closing] + later) == session(
            state,
            topic,
            before + seq![closing],
        ),
        published(session(state, topic, before + seq![closing] + later)) == published(
            session(state, topic, before),
        ),
        printed(session(state, topic, before + seq![closing] + later)) == printed(
            session(state, topic, before),
        ),
    decreases before.len(),
{
    let short = before + seq![closing];
    let long = before + seq![closing] + later;
    if state != RelayState::Running {
    } else if before.len() == 0 {
        let stop = seq![ActionView::Prompt, ActionView::Stop(RelayError::InputClosed)];
        assert(long =~= seq![closing] + later);
        assert(short =~= seq![closing] + Seq::<Arrival>::empty());
        lemma_closing(topic, closing, later);
        lemma_closing(topic, closing, Seq::<Arrival>::empty());
        lemma_quiet();
        assert(printed(stop) == Seq::<Seq<u8>>::empty() && published(stop) == Seq::<
            RecordView,
        >::empty()) by {
            lemma_iteration(
                ActionView::Stop(RelayError::InputClosed),
                Seq::<ActionView>::empty(),
            );
            assert(stop + Seq::<ActionView>::empty() =~= stop);
            lemma_quiet();
        }
    } else {
        let (next, action) = step_of(state, topic, before[0]);
        let rest = before.drop_first();
        assert(long[0] == before[0]);
        assert(short[0] == before[0]);
        assert(long.drop_first() =~= rest + seq![closing] + later);
        assert(short.drop_first() =~= rest + seq![closing]);
        lemma_end_of_input(next, topic, rest, closing, later);
        assert(published(session(state, topic, long)) == published(session(state, topic, before))
            && printed(session(state, topic, long)) == printed(session(state, topic, before)))
            by {
            lemma_iteration(action, session(next, topic, rest + seq![closing] + later));
            lemma_iteration(action, session(next, topic, rest));
        }
    }
}

} // verus!
