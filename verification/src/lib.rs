//! Core of an MQTT-SN 1.2 broker: wire codec, connection state machine,
//! subscription index and QoS engine, with their contracts.
pub mod asleep_msg_cache;
pub mod biset;
pub mod broker_lib;
pub mod buf;
pub mod connect;
pub mod connection;
pub mod delivery;
pub mod disconnect;
pub mod egress;
pub mod error;
pub mod exactly_once;
pub mod filter;
pub mod flags;
pub mod invariants;
pub mod keep_alive;
pub mod liveness;
pub mod message;
pub mod model;
pub mod msg_hdr;
pub mod peer_set;
pub mod ping_req;
pub mod pub_ack;
pub mod pub_msg_cache;
pub mod pub_rec;
pub mod pub_rel;
pub mod publish;
pub mod register;
pub mod retain;
pub mod retransmit;
pub mod subscribe;
pub mod subscriber;
pub mod table;
pub mod topic_registry;
pub mod wire;
