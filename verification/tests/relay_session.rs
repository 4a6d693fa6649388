use dispatch_play::envelope::{decode, encode, Timestamp};
use dispatch_play::relay::{
    handle_input, handle_message, terminal_bytes, Action, Arrival, Delivery, Event, LineRead,
    Record, Relay, RelayError, RelayState,
};
use dispatch_play::wire::MalformedEnvelope;

const TOPIC: &str = "events.test.producer";

fn at(seconds: i64) -> Timestamp {
    Timestamp { seconds, nanos: 500 }
}

fn typed(text: &str, seconds: i64) -> Arrival {
    Arrival { event: Event::Input(LineRead::Line(text.to_string())), now: at(seconds) }
}

fn envelope(text: &str) -> Vec<u8> {
    encode(text, "dispatch-play", "0.1.0", "analytics.publish.v1", at(1))
}

fn delivered(text: &str) -> Arrival {
    Arrival { event: Event::Message(Delivery::Payload(envelope(text))), now: at(0) }
}

fn happened(event: Event) -> Arrival {
    Arrival { event, now: at(0) }
}

fn printed(trace: &[Action]) -> Vec<Vec<u8>> {
    trace
        .iter()
        .filter_map(|action| match action {
            Action::Print(bytes) => Some(bytes.clone()),
            _ => None,
        })
        .collect()
}

fn published(trace: &[Action]) -> Vec<Record> {
    trace
        .iter()
        .filter_map(|action| match action {
            Action::Publish(record) => Some(record.clone()),
            _ => None,
        })
        .collect()
}

#[test]
fn scenario_operator_types_hello() {
    let mut relay = Relay::new(TOPIC);
    let trace = relay.run(&vec![typed("hello", 42)]);
    let records = published(&trace);
    assert_eq!(records.len(), 1);
    assert_eq!(records[0].topic, TOPIC);
    let event = decode(&records[0].payload).unwrap();
    assert_eq!(event.payload, "hello");
    assert_eq!(event.event_name, "analytics.publish.v1");
    assert_eq!(event.service_name, "dispatch-play");
    assert_eq!(event.service_version, "0.1.0");
    assert_eq!(event.timestamp, Some(at(42)));
    assert_eq!(
        trace,
        vec![
            Action::Prompt,
            Action::Publish(Record {
                topic: TOPIC.to_string(),
                payload: encode("hello", "dispatch-play", "0.1.0", "analytics.publish.v1", at(42)),
            }),
            Action::Prompt,
        ]
    );
    assert_eq!(terminal_bytes(&trace), b"> > ".to_vec());
    assert_eq!(relay.state, RelayState::Running);
}

#[test]
fn scenario_message_arrives_before_any_line() {
    let mut relay = Relay::new(TOPIC);
    let trace = relay.run(&vec![delivered("world")]);
    assert_eq!(
        trace,
        vec![Action::Prompt, Action::Print(b"world\n".to_vec()), Action::Prompt]
    );
    assert_eq!(terminal_bytes(&trace), b"> world\n> ".to_vec());
    assert!(published(&trace).is_empty());
    assert!(relay.is_running());
}

#[test]
fn scenario_input_closed_at_once() {
    let mut relay = Relay::new(TOPIC);
    let trace = relay.run(&vec![happened(Event::Input(LineRead::Closed))]);
    assert_eq!(trace, vec![Action::Prompt, Action::Stop(RelayError::InputClosed)]);
    assert!(published(&trace).is_empty());
    assert_eq!(relay.state, RelayState::Terminated(RelayError::InputClosed));
    assert!(!relay.is_running());
}

#[test]
fn a_session_without_arrivals_waits_at_its_prompt() {
    let mut relay = Relay::new(TOPIC);
    let trace = relay.run(&vec![]);
    assert_eq!(trace, vec![Action::Prompt]);
    assert!(relay.is_running());
}

#[test]
fn the_prompt_is_a_sign_and_a_space() {
    assert_eq!(Relay::prompt(), b"> ".to_vec());
}

#[test]
fn lines_and_messages_interleave() {
    let arrivals = vec![
        typed("one", 1),
        delivered("alpha"),
        delivered("beta"),
        typed("two", 2),
        typed("", 3),
        delivered(""),
        delivered("gamma"),
        typed("three", 4),
    ];
    let mut relay = Relay::new(TOPIC);
    let trace = relay.run(&arrivals);
    assert_eq!(
        printed(&trace),
        vec![b"alpha\n".to_vec(), b"beta\n".to_vec(), b"\n".to_vec(), b"gamma\n".to_vec()]
    );
    let records = published(&trace);
    assert_eq!(records.len(), 4);
    let texts: Vec<String> =
        records.iter().map(|r| decode(&r.payload).unwrap().payload).collect();
    assert_eq!(texts, vec!["one", "two", "", "three"]);
    let stamps: Vec<Option<Timestamp>> =
        records.iter().map(|r| decode(&r.payload).unwrap().timestamp).collect();
    assert_eq!(stamps, vec![Some(at(1)), Some(at(2)), Some(at(3)), Some(at(4))]);
    assert_eq!(terminal_bytes(&trace), b"> > alpha\n> beta\n> > > \n> gamma\n> > ".to_vec());
    assert_eq!(trace.len(), 17);
    assert!(relay.is_running());
}

#[test]
fn printed_order_is_delivery_order_in_every_interleaving() {
    let lines = ["l0", "l1", "l2"];
    let messages = ["m0", "m1", "m2"];
    for pattern in 0u32..64 {
        if pattern.count_ones() != 3 {
            continue;
        }
        let mut arrivals = Vec::new();
        let (mut next_line, mut next_message) = (0, 0);
        for slot in 0..6 {
            if pattern & (1 << slot) != 0 {
                arrivals.push(typed(lines[next_line], slot));
                next_line += 1;
            } else {
                arrivals.push(delivered(messages[next_message]));
                next_message += 1;
            }
        }
        let mut relay = Relay::new(TOPIC);
        let trace = relay.run(&arrivals);
        assert_eq!(
            printed(&trace),
            vec![b"m0\n".to_vec(), b"m1\n".to_vec(), b"m2\n".to_vec()]
        );
        let texts: Vec<String> = published(&trace)
            .iter()
            .map(|r| decode(&r.payload).unwrap().payload)
            .collect();
        assert_eq!(texts, vec!["l0", "l1", "l2"]);
        assert!(relay.is_running());
    }
}

#[test]
fn nothing_follows_the_end_of_input() {
    let before = vec![typed("kept", 1), delivered("shown")];
    let mut all = before.clone();
    all.push(happened(Event::Input(LineRead::Closed)));
    all.push(typed("lost", 2));
    all.push(delivered("unseen"));
    all.push(typed("lost too", 3));
    let mut until_close = before.clone();
    until_close.push(happened(Event::Input(LineRead::Closed)));

    let mut relay = Relay::new(TOPIC);
    let trace = relay.run(&all);
    let mut shorter = Relay::new(TOPIC);
    assert_eq!(trace, shorter.run(&until_close));
    let mut earlier = Relay::new(TOPIC);
    let reference = earlier.run(&before);
    assert_eq!(published(&trace), published(&reference));
    assert_eq!(printed(&trace), printed(&reference));
    assert_eq!(published(&trace).len(), 1);
    assert_eq!(printed(&trace), vec![b"shown\n".to_vec()]);
    assert_eq!(trace.last(), Some(&Action::Stop(RelayError::InputClosed)));
    assert_eq!(terminal_bytes(&trace), b"> > shown\n> ".to_vec());
    assert_eq!(relay.state, RelayState::Terminated(RelayError::InputClosed));
}

#[test]
fn a_read_error_ends_the_session_like_the_end_of_input() {
    let mut relay = Relay::new(TOPIC);
    let trace = relay.run(&vec![happened(Event::Input(LineRead::Failed)), typed("lost", 1)]);
    assert_eq!(trace, vec![Action::Prompt, Action::Stop(RelayError::InputClosed)]);
    assert_eq!(relay.state, RelayState::Terminated(RelayError::InputClosed));
}

#[test]
fn an_empty_line_is_a_line() {
    let mut relay = Relay::new(TOPIC);
    let action = relay.step(&typed("", 9));
    match action {
        Action::Publish(record) => {
            let event = decode(&record.payload).unwrap();
            assert_eq!(event.payload, "");
            assert_eq!(event.timestamp, Some(at(9)));
        }
        other => panic!("expected a publish, got {:?}", other),
    }
    assert!(relay.is_running());
}

#[test]
fn a_malformed_envelope_ends_the_session() {
    let mut relay = Relay::new(TOPIC);
    let arrivals = vec![
        delivered("fine"),
        happened(Event::Message(Delivery::Payload(vec![0x0a, 5, b'a']))),
        delivered("never"),
        typed("never", 1),
    ];
    let trace = relay.run(&arrivals);
    let reason = RelayError::MalformedEnvelope(MalformedEnvelope::BufferUnderflow);
    assert_eq!(
        trace,
        vec![
            Action::Prompt,
            Action::Print(b"fine\n".to_vec()),
            Action::Prompt,
            Action::Stop(reason),
        ]
    );
    assert_eq!(relay.state, RelayState::Terminated(reason));
}

#[test]
fn a_failed_receive_ends_the_session() {
    let mut relay = Relay::new(TOPIC);
    let action = relay.step(&happened(Event::Message(Delivery::Failed)));
    assert_eq!(action, Action::Stop(RelayError::ReceiveFailed));
    assert_eq!(relay.state, RelayState::Terminated(RelayError::ReceiveFailed));
}

#[test]
fn a_message_without_payload_ends_the_session() {
    let mut relay = Relay::new(TOPIC);
    let action = relay.step(&happened(Event::Message(Delivery::NoPayload)));
    assert_eq!(action, Action::Stop(RelayError::ReceiveFailed));
    assert_eq!(relay.state, RelayState::Terminated(RelayError::ReceiveFailed));
}

#[test]
fn a_failed_publish_ends_the_session() {
    let mut relay = Relay::new(TOPIC);
    let trace = relay.run(&vec![
        typed("sent", 1),
        happened(Event::PublishFailed),
        typed("not sent", 2),
    ]);
    assert_eq!(published(&trace).len(), 1);
    assert_eq!(trace.last(), Some(&Action::Stop(RelayError::PublishFailed)));
    assert_eq!(relay.state, RelayState::Terminated(RelayError::PublishFailed));
}

#[test]
fn an_unavailable_broker_ends_the_session() {
    let mut relay = Relay::new(TOPIC);
    let action = relay.step(&happened(Event::BrokerUnavailable));
    assert_eq!(action, Action::Stop(RelayError::BrokerUnavailable));
    assert_eq!(relay.state, RelayState::Terminated(RelayError::BrokerUnavailable));
}

#[test]
fn a_session_that_is_over_stays_over() {
    let mut relay = Relay::new(TOPIC);
    relay.step(&happened(Event::Message(Delivery::Failed)));
    for arrival in [
        typed("late", 1),
        delivered("late"),
        happened(Event::Input(LineRead::Closed)),
        happened(Event::PublishFailed),
        happened(Event::BrokerUnavailable),
    ] {
        assert_eq!(relay.step(&arrival), Action::Stop(RelayError::ReceiveFailed));
        assert_eq!(relay.state, RelayState::Terminated(RelayError::ReceiveFailed));
    }
    assert_eq!(relay.run(&vec![typed("late", 2)]), Vec::<Action>::new());
}

#[test]
fn a_message_is_printed_as_its_payload_and_a_line_end() {
    assert_eq!(
        handle_message(&Delivery::Payload(envelope("gr\u{fc}\u{df}e"))),
        Ok("gr\u{fc}\u{df}e\n".as_bytes().to_vec())
    );
    assert_eq!(handle_message(&Delivery::Payload(Vec::new())), Ok(b"\n".to_vec()));
    assert_eq!(
        handle_message(&Delivery::Payload(vec![0x32, 1, 0xff])),
        Err(RelayError::MalformedEnvelope(MalformedEnvelope::InvalidString))
    );
    assert_eq!(handle_message(&Delivery::NoPayload), Err(RelayError::ReceiveFailed));
    assert_eq!(handle_message(&Delivery::Failed), Err(RelayError::ReceiveFailed));
}

#[test]
fn a_line_becomes_a_record_for_the_topic() {
    let record = handle_input("some.topic", &LineRead::Line("text".to_string()), at(8)).unwrap();
    assert_eq!(record.topic, "some.topic");
    assert_eq!(
        record.payload,
        encode("text", "dispatch-play", "0.1.0", "analytics.publish.v1", at(8))
    );
    assert_eq!(handle_input("t", &LineRead::Closed, at(8)), Err(RelayError::InputClosed));
    assert_eq!(handle_input("t", &LineRead::Failed, at(8)), Err(RelayError::InputClosed));
}

#[test]
fn a_relay_keeps_its_topic() {
    let mut relay = Relay::new("another.topic");
    assert_eq!(relay.topic, "another.topic");
    relay.run(&vec![typed("a", 1), happened(Event::Input(LineRead::Closed))]);
    assert_eq!(relay.topic, "another.topic");
}

#[test]
fn only_prompts_and_printed_lines_show_on_the_terminal() {
    let trace = vec![
        Action::Prompt,
        Action::Publish(Record { topic: TOPIC.to_string(), payload: vec![1, 2, 3] }),
        Action::Print(b"abc\n".to_vec()),
        Action::Stop(RelayError::PublishFailed),
        Action::Print(Vec::new()),
        Action::Prompt,
    ];
    assert_eq!(terminal_bytes(&trace), b"> abc\n> ".to_vec());
    assert_eq!(terminal_bytes(&Vec::new()), Vec::<u8>::new());
}
