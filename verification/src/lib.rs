//! A terminal client that relays typed lines to a broker topic as analytics
//! envelopes and prints the payload of every envelope that arrives.

pub mod broker;
pub mod envelope;
pub mod relay;
pub mod wire;
