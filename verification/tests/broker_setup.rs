use dispatch_play::broker::{consumer_config, consumer_group_id, new_consumer, new_producer};

#[test]
fn producer_configuration() {
    let config = new_producer("localhost:9092");
    assert_eq!(config.get("bootstrap.servers"), Some("localhost:9092"));
    assert_eq!(config.get("queue.buffering.max.ms"), Some("0"));
    assert_eq!(config.get("group.id"), None);
    assert_eq!(config.config_map().len(), 2);
}

#[test]
fn producer_configuration_takes_the_server_it_is_given() {
    let config = new_producer("broker-1:19092,broker-2:19092");
    assert_eq!(config.get("bootstrap.servers"), Some("broker-1:19092,broker-2:19092"));
}

#[test]
fn consumer_configuration() {
    let config = consumer_config("localhost:9092", "consumer-some-group");
    assert_eq!(config.get("bootstrap.servers"), Some("localhost:9092"));
    assert_eq!(config.get("enable.partition.eof"), Some("false"));
    assert_eq!(config.get("group.id"), Some("consumer-some-group"));
    assert_eq!(config.get("queue.buffering.max.ms"), None);
    assert_eq!(config.config_map().len(), 3);
}

#[test]
fn group_name_is_made_from_the_identifier() {
    assert_eq!(consumer_group_id("abc"), "consumer-abc");
    assert_eq!(consumer_group_id(""), "consumer-");
    assert_eq!(
        consumer_group_id("67e55044-10b1-426f-9247-bb680e5fe0c8"),
        "consumer-67e55044-10b1-426f-9247-bb680e5fe0c8"
    );
}

#[test]
fn consumer_setup_names_a_fresh_group() {
    let setup = new_consumer("localhost:9092", "events.test.producer");
    assert_eq!(setup.topics, vec!["events.test.producer".to_string()]);
    assert_eq!(setup.config.get("bootstrap.servers"), Some("localhost:9092"));
    assert_eq!(setup.config.get("enable.partition.eof"), Some("false"));
    assert_eq!(setup.config.get("group.id"), Some(setup.group_id.as_str()));
    assert_eq!(setup.config.config_map().len(), 3);

    assert!(setup.group_id.starts_with("consumer-"));
    let identifier = &setup.group_id["consumer-".len()..];
    assert_eq!(identifier.len(), 36);
    for (i, c) in identifier.chars().enumerate() {
        if i == 8 || i == 13 || i == 18 || i == 23 {
            assert_eq!(c, '-');
        } else {
            assert!(c.is_ascii_digit() || ('a'..='f').contains(&c));
        }
    }
    assert_eq!(identifier.as_bytes()[14], b'4');
    let parsed = uuid::Uuid::parse_str(identifier).unwrap();
    assert_eq!(parsed.get_version_num(), 4);
}

#[test]
fn every_consumer_setup_has_its_own_group() {
    let first = new_consumer("localhost:9092", "t");
    let second = new_consumer("localhost:9092", "t");
    assert_ne!(first.group_id, second.group_id);
}
