//! Connections: one record per peer, and the states that a connection
//! passes through.
use crate::buf::buf_bytes;
use crate::error::BrokerError;
use crate::msg_hdr::PeerAddr;
use crate::table::{has_key, lemma_mapped, lookup, mapped, with, without, Table, TableKey};
use bytes::BytesMut;
use vstd::prelude::*;

verus! {

impl TableKey for PeerAddr {
    open spec fn peer_of(&self) -> Option<PeerAddr> {
        Some(*self)
    }

    fn same(&self, other: &Self) -> (r: bool) {
        self.v6 == other.v6 && self.ip == other.ip && self.port == other.port && self.flowinfo
            == other.flowinfo && self.scope_id == other.scope_id
    }

    fn of_peer(&self, addr: &PeerAddr) -> (r: bool) {
        self.same(addr)
    }
}

impl TableKey for u16 {
    open spec fn peer_of(&self) -> Option<PeerAddr> {
        None
    }

    fn same(&self, other: &Self) -> (r: bool) {
        *self == *other
    }

    fn of_peer(&self, addr: &PeerAddr) -> (r: bool) {
        false
    }
}

/// The state of a connection.
#[allow(non_camel_case_types)]
#[derive(Clone, Copy, Debug, PartialEq, Eq, Structural)]
pub enum StateEnum2 {
    /// CONNECT announced a will; its topic is awaited.
    AWAITING_WILL_TOPIC,
    /// The will's topic came; its message is awaited.
    AWAITING_WILL_MSG,
    ACTIVE,
    ASLEEP,
    /// An asleep peer asked for what was kept for it.
    AWAKE,
    DISCONNECTED,
    /// The peer was not heard of in time.
    LOST,
}

/// What the broker knows of a peer.
#[derive(Debug)]
pub struct Connection {
    pub socket_addr: PeerAddr,
    pub flags: u8,
    pub protocol_id: u8,
    /// The keep-alive duration in seconds that the peer announced.
    pub duration: u16,
    pub client_id: BytesMut,
    pub state: StateEnum2,
    /// The id of the will's topic, where a will was set.
    pub will_topic_id: Option<u16>,
    /// The flags of the will: its QoS and its retain bit.
    pub will_flags: u8,
    pub will_message: BytesMut,
}

/// What the broker knows of a peer, as a value.
pub struct ConnModel {
    pub socket_addr: PeerAddr,
    pub flags: u8,
    pub protocol_id: u8,
    pub duration: u16,
    pub client_id: Seq<u8>,
    pub state: StateEnum2,
    pub will_topic_id: Option<u16>,
    pub will_flags: u8,
    pub will_message: Seq<u8>,
}

impl View for Connection {
    type V = ConnModel;

    open spec fn view(&self) -> ConnModel {
        ConnModel {
            socket_addr: self.socket_addr,
            flags: self.flags,
            protocol_id: self.protocol_id,
            duration: self.duration,
            client_id: buf_bytes(self.client_id),
            state: self.state,
            will_topic_id: self.will_topic_id,
            will_flags: self.will_flags,
            will_message: buf_bytes(self.will_message),
        }
    }
}

/// The connections, in the order in which they were made.
pub type ConnectionTable = Table<PeerAddr, Connection>;

/// The connections as values.
pub open spec fn conn_models(conns: Seq<(PeerAddr, Connection)>) -> Seq<(PeerAddr, ConnModel)> {
    mapped(conns, |c: Connection| c@)
}

/// The state of a peer's connection, if it has one.
pub open spec fn state_of(conns: Seq<(PeerAddr, ConnModel)>, addr: PeerAddr) -> Option<
    StateEnum2,
> {
    match lookup(conns, addr) {
        Some(c) => Some(c.state),
        None => None,
    }
}

impl ConnModel {
    /// The record with another state.
    pub open spec fn with_state(self, state: StateEnum2) -> ConnModel {
        ConnModel { state, ..self }
    }
}

impl Connection {

    /// Whether the peer has a connection.
    pub fn contains_key(conns: &ConnectionTable, addr: PeerAddr) -> (r: bool)
        ensures
            r == has_key(conns@, addr),
    {
        conns.find(&addr).is_some()
    }

    /// The state of a peer's connection.
    pub fn get_state(conns: &ConnectionTable, addr: &PeerAddr) -> (r: Result<
        StateEnum2,
        BrokerError,
    >)
        requires
            conns.wf(),
        ensures
            match r {
                Ok(s) => state_of(conn_models(conns@), *addr) == Some(s),
                Err(e) => e == BrokerError::NotConnected && state_of(conn_models(conns@), *addr)
                    == None::<StateEnum2>,
            },
    {
        proof {
            lemma_mapped(conns@, |c: Connection| c@);
        }
        match conns.find(addr) {
            Some(i) => Ok(conns.value_at(i).state),
            None => Err(BrokerError::NotConnected),
        }
    }

    /// Puts a peer's connection into another state.
    pub fn update_state(conns: &mut ConnectionTable, addr: &PeerAddr, state: StateEnum2) -> (r:
        Result<(), BrokerError>)
        requires
            old(conns).wf(),
        ensures
            final(conns).wf(),
            match r {
                Ok(_) => lookup(conn_models(old(conns)@), *addr) is Some && conn_models(
                    final(conns)@,
                ) == with(
                    conn_models(old(conns)@),
                    *addr,
                    lookup(conn_models(old(conns)@), *addr)->0.with_state(state),
                ),
                Err(e) => e == BrokerError::NotConnected && !has_key(old(conns)@, *addr)
                    && final(conns)@ == old(conns)@,
            },
    {
        proof {
            lemma_mapped(conns@, |c: Connection| c@);
        }
        match conns.find(addr) {
            Some(i) => {
                let (k, c) = conns.take_at(i);
                let updated = Connection { state, ..c };
                proof {
                    crate::table::lemma_position(old(conns)@, i as int);
                    crate::table::lemma_without(old(conns)@, *addr);
                }
                conns.insert_at(i, k, updated);
                assert(conns@ =~= with(old(conns)@, *addr, updated));
                assert(conn_models(conns@) =~= with(
                    conn_models(old(conns)@),
                    *addr,
                    lookup(conn_models(old(conns)@), *addr)->0.with_state(state),
                ));
                Ok(())
            },
            None => Err(BrokerError::NotConnected),
        }
    }

    /// Takes a peer's connection out of the table.
    pub fn remove(conns: &mut ConnectionTable, addr: &PeerAddr) -> (r: Result<
        Connection,
        BrokerError,
    >)
        requires
            old(conns).wf(),
        ensures
            final(conns).wf(),
            final(conns)@ == without(old(conns)@, *addr),
            match r {
                Ok(c) => lookup(old(conns)@, *addr) == Some(c),
                Err(e) => e == BrokerError::NotConnected && !has_key(old(conns)@, *addr),
            },
    {
        match conns.take(addr) {
            Some(c) => Ok(c),
            None => Err(BrokerError::NotConnected),
        }
    }
}

} // verus!
