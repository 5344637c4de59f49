//! A self-defending network node: a packet classifier that drops traffic from
//! blacklisted IPv4 prefixes, paired stack-timing probes that build a latency
//! histogram, and the decisions of the control process that propagates
//! blacklist updates over a gossip overlay.
pub mod blacklist;
pub mod classifier;
pub mod control;
pub mod gossip;
pub mod probes;
