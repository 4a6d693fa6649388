//! What the session asks of the broker client before it starts: the
//! configuration of its producer and of its consumer, and the consumer
//! group under which this run subscribes.
//!
//! The group is new with every run, so no two runs share committed offsets
//! and a run sees only what is published while it lasts.

use rdkafka::config::ClientConfig;
use vstd::prelude::*;
use vstd::string::StringExecFns;

verus! {

/// The broker client's configuration, `rdkafka::config::ClientConfig`: a
/// value that this library fills and hands on without looking inside.
#[verifier::external_type_specification]
#[verifier::external_body]
pub struct ExClientConfig(rdkafka::config::ClientConfig);

/// The parameters that a configuration holds, by key.
pub uninterp spec fn config_entries(config: ClientConfig) -> Map<Seq<char>, Seq<char>>;

/// A configuration without parameters, by `ClientConfig::new`. Trusted:
/// that function starts from an empty map of parameters.
#[verifier::external_body]
pub(crate) fn empty_config() -> (config: ClientConfig)
    ensures
        config_entries(config) == no_settings(),
{
    ClientConfig::new()
}

/// Sets one parameter, by `ClientConfig::set`. Trusted: that function
/// stores `value` under `key`, in place of what was stored under it, and
/// leaves every other parameter as it was.
#[verifier::external_body]
pub(crate) fn set_parameter(config: &mut ClientConfig, key: &str, value: &str)
    ensures
        config_entries(*final(config)) == config_entries(*old(config)).insert(key@, value@),
{
    config.set(key, value);
}

/// A random identifier as text, by `uuid::Uuid::new_v4` and its `Display`.
/// Trusted: whatever the random bits, the text has the hyphenated form of a
/// version 4 identifier in lower-case hexadecimal.
#[verifier::external_body]
pub(crate) fn fresh_uuid() -> (text: String)
    ensures
        is_hyphenated_uuid(text@),
{
    uuid::Uuid::new_v4().to_string()
}

/// Whether `c` is a hexadecimal digit in lower case.
pub open spec fn is_lower_hex(c: char) -> bool {
    (48 <= c as u32 <= 57) || (97 <= c as u32 <= 102)
}

/// Whether `text` has the hyphenated form of a version 4 identifier: 36
/// characters, hyphens after the 8th, 12th, 16th and 20th digit, lower-case
/// hexadecimal digits elsewhere, and the digit 4 leading the third group.
pub open spec fn is_hyphenated_uuid(text: Seq<char>) -> bool {
    &&& text.len() == 36
    &&& text[8] == '-' && text[13] == '-' && text[18] == '-' && text[23] == '-'
    &&& text[14] == '4'
    &&& forall|i: int|
        0 <= i < 36 && i != 8 && i != 13 && i != 18 && i != 23 ==> is_lower_hex(#[trigger] text[i])
}

/// No parameters at all.
pub open spec fn no_settings() -> Map<Seq<char>, Seq<char>> {
    Map::empty()
}

/// The parameters of the producer: where to find the broker, and no
/// lingering of records in the client's queue.
pub open spec fn producer_settings(bootstrap_server: Seq<char>) -> Map<Seq<char>, Seq<char>> {
    no_settings().insert("bootstrap.servers"@, bootstrap_server).insert(
        "queue.buffering.max.ms"@,
        "0"@,
    )
}

/// The parameters of the consumer: where to find the broker, no event at
/// the end of a partition, and the group to subscribe under.
pub open spec fn consumer_settings(bootstrap_server: Seq<char>, group_id: Seq<char>) -> Map<
    Seq<char>,
    Seq<char>,
> {
    no_settings().insert("bootstrap.servers"@, bootstrap_server).insert(
        "enable.partition.eof"@,
        "false"@,
    ).insert("group.id"@, group_id)
}

/// The name of the consumer group made from an identifier.
pub open spec fn group_id_of(identifier: Seq<char>) -> Seq<char> {
    "consumer-"@ + identifier
}

/// The configuration from which the producer is created.
pub fn new_producer(bootstrap_server: &str) -> (config: ClientConfig)
    ensures
        config_entries(config) == producer_settings(bootstrap_server@),
{
    let mut config = empty_config();
    set_parameter(&mut config, "bootstrap.servers", bootstrap_server);
    set_parameter(&mut config, "queue.buffering.max.ms", "0");
    config
}

/// The name of the consumer group made from `identifier`.
pub fn consumer_group_id(identifier: &str) -> (group_id: String)
    ensures
        group_id@ == group_id_of(identifier@),
{
    let mut group_id = "consumer-".to_owned();
    group_id.append(identifier);
    group_id
}

/// The configuration from which a consumer in the group `group_id` is created.
pub fn consumer_config(bootstrap_server: &str, group_id: &str) -> (config: ClientConfig)
    ensures
        config_entries(config) == consumer_settings(bootstrap_server@, group_id@),
{
    let mut config = empty_config();
    set_parameter(&mut config, "bootstrap.servers", bootstrap_server);
    set_parameter(&mut config, "enable.partition.eof", "false");
    set_parameter(&mut config, "group.id", group_id);
    config
}

/// What it takes to start the consumer: its configuration, the group that
/// the configuration names, and the topics to subscribe to.
pub struct ConsumerSetup {
    pub config: ClientConfig,
    pub group_id: String,
    pub topics: Vec<String>,
}

/// Prepares a consumer of `topic` under a group that is new with this call.
/// Whatever identifier was drawn, the group is named after it, the
/// configuration names that group, and `topic` is the one topic subscribed.
pub fn new_consumer(bootstrap_server: &str, topic: &str) -> (setup: ConsumerSetup)
    ensures
        exists|identifier: Seq<char>|
            is_hyphenated_uuid(identifier) && setup.group_id@ == #[trigger] group_id_of(
                identifier,
            ),
        config_entries(setup.config) == consumer_settings(bootstrap_server@, setup.group_id@),
        setup.topics@.len() == 1,
        setup.topics@[0]@ == topic@,
{
    let identifier = fresh_uuid();
    let group_id = consumer_group_id(identifier.as_str());
    let config = consumer_config(bootstrap_server, group_id.as_str());
    let mut topics: Vec<String> = Vec::new();
    topics.push(topic.to_owned());
    assert(group_id@ == group_id_of(identifier@));
    ConsumerSetup { config, group_id, topics }
}

} // verus!
