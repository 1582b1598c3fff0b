//! Routing between the network interface and the sessions.
use crate::config::{checked, settings_problem, validate_tun, TunSettings};
use crate::error::Error;
use crate::ipv4::{
    ipv4_destination, network_of, plain_ipv4, subnet_of, subnets_are_aligned, valid_ipv4,
};
use crate::metrics::{count, counted};
use crate::wire::{be_value, get_u32, numbers_are_big_endian, same_bytes, text, text_of_ascii};
use std::collections::HashMap;
use vstd::prelude::*;

verus! {

/// How often the server registers with the helper, in milliseconds.
pub const HELPER_REGISTRATION_INTERVAL: u64 = 1000;

/// How long the server tries to reach the helper when it starts, in milliseconds.
pub const HELPER_CONNECT_TIMEOUT: u64 = 10_000;

/// How long the server waits between two tries, in milliseconds.
pub const HELPER_RETRY_INTERVAL: u64 = 100;

/// What the server sends to register with the helper.
pub fn helper_registration() -> (message: &'static [u8])
    ensures
        message@ == text("RSN1"),
{
    "RSN1".as_bytes()
}

/// What the helper answers.
pub fn helper_acknowledgement() -> (message: &'static [u8])
    ensures
        message@ == text("RSA1"),
{
    "RSA1".as_bytes()
}

/// How often each thing happened to a packet. The counters wrap around.
#[derive(Clone, Copy, Debug, PartialEq, Eq, Structural)]
pub struct PacketCounters {
    pub received: u64,
    pub routed: u64,
    pub unrouted: u64,
    pub invalid: u64,
    pub dropped: u64,
}

/// A session's claim on its address.
pub struct SessionLease {
    ip: [u8; 4],
    id: u64,
}

impl SessionLease {
    /// The number of the address.
    pub closed spec fn address(&self) -> u32 {
        be_value(self.ip@) as u32
    }

    /// The number of the lease.
    pub closed spec fn number(&self) -> u64 {
        self.id
    }

    /// The number of the lease, by which packets for the session are told.
    pub fn id(&self) -> (id: u64)
        ensures
            id == self.number(),
    {
        self.id
    }
}

/// Routing as values. Addresses are numbers.
#[verifier::ext_equal]
pub struct NetworkModel {
    pub helper: bool,
    pub sessions: Map<u32, u64>,
    pub next_id: u64,
    pub session_queue: usize,
    pub ready: bool,
    pub registration_pending: bool,
    pub registration_failed: bool,
    pub receive_failed: bool,
    pub counters: PacketCounters,
}

/// What arrived at the interface.
pub enum Arrival {
    /// The helper acknowledged the registration.
    Acknowledged,
    /// A packet for a session.
    Route(u64),
    /// A packet for no session.
    Unrouted,
    /// No IPv4 packet.
    Invalid,
}

/// What to do after receiving failed.
#[derive(Clone, Copy, Debug, PartialEq, Eq, Structural)]
pub struct ReceivePause {
    pub warn: bool,
    pub milliseconds: u64,
}

/// What became of sending to the helper or the interface.
#[derive(Clone, Copy, Debug, PartialEq, Eq, Structural)]
pub enum Sent {
    /// This many bytes were sent.
    Written(usize),
    /// Nobody listens at the other end.
    Unreachable,
    /// Anything else went wrong.
    Failed,
}

/// What to do after sending a packet.
#[derive(Clone, Copy, Debug, PartialEq, Eq, Structural)]
pub enum SendStep {
    Done,
    /// Connect to the helper anew, and send once more.
    Reconnect,
    Fail(Error),
}

/// The number of the address that a packet goes to.
pub open spec fn destination_number(packet: Seq<u8>) -> u32 {
    be_value(packet.subrange(16, 20)) as u32
}

impl NetworkModel {
    /// Routing before anything arrived. An interface of one's own is ready at once, a
    /// helper when it has acknowledged the registration.
    pub open spec fn fresh(helper: bool, session_queue: usize) -> Self {
        NetworkModel {
            helper,
            sessions: Map::empty(),
            next_id: 1,
            session_queue,
            ready: !helper,
            registration_pending: false,
            registration_failed: false,
            receive_failed: false,
            counters: PacketCounters { received: 0, routed: 0, unrouted: 0, invalid: 0, dropped: 0 },
        }
    }

    /// Nothing but the helper's acknowledgement.
    pub open spec fn acknowledged(self, data: Seq<u8>) -> bool {
        self.helper && data == text("RSA1")
    }

    /// What arrived.
    pub open spec fn arrival(self, data: Seq<u8>) -> Arrival {
        if self.acknowledged(data) {
            Arrival::Acknowledged
        } else if !plain_ipv4(data) {
            Arrival::Invalid
        } else if self.sessions.contains_key(destination_number(data)) {
            Arrival::Route(self.sessions[destination_number(data)])
        } else {
            Arrival::Unrouted
        }
    }

    /// Routing once something arrived.
    pub open spec fn after_arrival(self, data: Seq<u8>) -> Self {
        if self.acknowledged(data) {
            NetworkModel {
                registration_pending: false,
                ready: true,
                receive_failed: false,
                ..self
            }
        } else {
            let arrival = self.arrival(data);
            NetworkModel {
                ready: self.ready || !self.helper,
                receive_failed: self.receive_failed && !self.helper,
                counters: PacketCounters {
                    received: counted(self.counters.received),
                    unrouted: if arrival is Unrouted {
                        counted(self.counters.unrouted)
                    } else {
                        self.counters.unrouted
                    },
                    invalid: if arrival is Invalid {
                        counted(self.counters.invalid)
                    } else {
                        self.counters.invalid
                    },
                    ..self.counters
                },
                ..self
            }
        }
    }

    /// Routing once a session's queue took a packet, or had no room for it.
    pub open spec fn after_delivery(self, delivered: bool) -> Self {
        NetworkModel {
            counters: PacketCounters {
                routed: if delivered {
                    counted(self.counters.routed)
                } else {
                    self.counters.routed
                },
                dropped: if delivered {
                    self.counters.dropped
                } else {
                    counted(self.counters.dropped)
                },
                ..self.counters
            },
            ..self
        }
    }

    /// Routing once receiving failed.
    pub open spec fn after_receive_failure(self) -> Self {
        NetworkModel { ready: false, receive_failed: self.receive_failed || self.helper, ..self }
    }

    /// Routing when it is time to register: a registration that was not acknowledged
    /// since the last time means that the helper is gone.
    pub open spec fn registering(self) -> Self {
        NetworkModel {
            ready: self.ready && !self.registration_pending,
            registration_pending: true,
            ..self
        }
    }

    /// Routing once the registration was sent.
    pub open spec fn after_registration(self, sent: Sent) -> Self {
        if sent == Sent::Written(4) {
            NetworkModel { registration_failed: false, ..self }
        } else {
            NetworkModel { ready: false, registration_failed: true, ..self }
        }
    }

    /// Routing once a session asked for its address.
    pub open spec fn registered(self, address: u32) -> Self {
        NetworkModel {
            next_id: counted(self.next_id),
            sessions: if self.sessions.contains_key(address) {
                self.sessions
            } else {
                self.sessions.insert(address, self.next_id)
            },
            ..self
        }
    }

    /// Routing once a lease was given back.
    pub open spec fn released(self, address: u32, id: u64) -> Self {
        if self.sessions.contains_key(address) && self.sessions[address] == id {
            NetworkModel { sessions: self.sessions.remove(address), ..self }
        } else {
            self
        }
    }

    /// What to do after a packet was sent; `again` where it was sent for the second
    /// time.
    pub open spec fn send_step(self, sent: Sent, length: usize, again: bool) -> SendStep {
        match sent {
            Sent::Written(written) => if written == length {
                SendStep::Done
            } else {
                SendStep::Fail(Error::PartialPacketWrite)
            },
            Sent::Unreachable => if self.helper && !again {
                SendStep::Reconnect
            } else {
                SendStep::Fail(Error::NetworkSendFailed)
            },
            Sent::Failed => SendStep::Fail(Error::NetworkSendFailed),
        }
    }
}

/// Routing: the sessions by their addresses, whether the interface is there, and what
/// happened to the packets.
pub struct Network {
    helper: bool,
    sessions: HashMap<u32, u64>,
    next_id: u64,
    session_queue: usize,
    ready: bool,
    registration_pending: bool,
    registration_failed: bool,
    receive_failed: bool,
    counters: PacketCounters,
}

impl View for Network {
    type V = NetworkModel;

    closed spec fn view(&self) -> NetworkModel {
        NetworkModel {
            helper: self.helper,
            sessions: self.sessions@,
            next_id: self.next_id,
            session_queue: self.session_queue,
            ready: self.ready,
            registration_pending: self.registration_pending,
            registration_failed: self.registration_failed,
            receive_failed: self.receive_failed,
            counters: self.counters,
        }
    }
}

impl Network {
    /// Checks the settings of the interface.
    pub fn validate_settings(settings: &TunSettings) -> (out: Result<(), Error>)
        ensures
            out == checked(settings_problem(*settings)),
    {
        validate_tun(settings)
    }

    /// Routing for an interface of one's own, or for that of the helper where the
    /// settings name its socket.
    pub fn create(settings: &TunSettings) -> (network: Result<Self, Error>)
        ensures
            match settings_problem(*settings) {
                Some(error) => network is Err && network->Err_0 == error,
                None => network is Ok && network->Ok_0@ == NetworkModel::fresh(
                    settings.helper_socket is Some,
                    settings.session_queue,
                ),
            },
    {
        broadcast use vstd::std_specs::hash::group_hash_axioms;

        match validate_tun(settings) {
            Ok(_) => {},
            Err(error) => {
                return Err(error);
            },
        }
        let helper = settings.helper_socket.is_some();
        let network = Network {
            helper,
            sessions: HashMap::new(),
            next_id: 1,
            session_queue: settings.session_queue,
            ready: !helper,
            registration_pending: false,
            registration_failed: false,
            receive_failed: false,
            counters: PacketCounters { received: 0, routed: 0, unrouted: 0, invalid: 0, dropped: 0 },
        };
        assert(network@ =~= NetworkModel::fresh(helper, settings.session_queue));
        Ok(network)
    }

    /// Claims an address for a session.
    pub fn register(&mut self, ip: [u8; 4]) -> (lease: Result<SessionLease, Error>)
        ensures
            final(self)@ == old(self)@.registered(be_value(ip@) as u32),
            if old(self)@.sessions.contains_key(be_value(ip@) as u32) {
                lease is Err && lease->Err_0 == Error::ClientAlreadyActive
            } else {
                lease is Ok && lease->Ok_0.address() == be_value(ip@) as u32
                    && lease->Ok_0.number() == old(self)@.next_id
            },
    {
        broadcast use vstd::std_specs::hash::group_hash_axioms;

        let id: u64 = self.next_id;
        self.next_id = count(self.next_id);
        assert(ip@.subrange(0, 4) =~= ip@);
        let address: u32 = get_u32(&ip, 0);
        if self.sessions.contains_key(&address) {
            return Err(Error::ClientAlreadyActive);
        }
        self.sessions.insert(address, id);
        Ok(SessionLease { ip, id })
    }

    /// Gives an address back. A lease that another one has replaced changes nothing.
    pub fn release(&mut self, lease: SessionLease)
        ensures
            final(self)@ == old(self)@.released(lease.address(), lease.number()),
    {
        broadcast use vstd::std_specs::hash::group_hash_axioms;

        assert(lease.ip@.subrange(0, 4) =~= lease.ip@);
        let address: u32 = get_u32(&lease.ip, 0);
        let own = match self.sessions.get(&address) {
            Some(id) => *id == lease.id,
            None => false,
        };
        if own {
            self.sessions.remove(&address);
        }
        assert(self@ =~= old(self)@.released(lease.address(), lease.number()));
    }

    /// Takes in what arrived at the interface.
    pub fn packet_arrived(&mut self, data: &[u8]) -> (arrival: Arrival)
        ensures
            arrival == old(self)@.arrival(data@),
            final(self)@ == old(self)@.after_arrival(data@),
    {
        broadcast use vstd::std_specs::hash::group_hash_axioms;

        if self.helper && same_bytes(data, helper_acknowledgement()) {
            self.registration_pending = false;
            self.ready = true;
            self.receive_failed = false;
            return Arrival::Acknowledged;
        }
        if self.helper {
            self.receive_failed = false;
        } else {
            self.ready = true;
        }
        self.counters.received = count(self.counters.received);
        match ipv4_destination(data) {
            None => {
                self.counters.invalid = count(self.counters.invalid);
                Arrival::Invalid
            },
            Some(destination) => {
                assert(destination@.subrange(0, 4) =~= destination@);
                let address: u32 = get_u32(&destination, 0);
                match self.sessions.get(&address) {
                    Some(id) => Arrival::Route(*id),
                    None => {
                        self.counters.unrouted = count(self.counters.unrouted);
                        Arrival::Unrouted
                    },
                }
            },
        }
    }

    /// Notes whether a session's queue took its packet.
    pub fn packet_delivered(&mut self, delivered: bool)
        ensures
            final(self)@ == old(self)@.after_delivery(delivered),
    {
        if delivered {
            self.counters.routed = count(self.counters.routed);
        } else {
            self.counters.dropped = count(self.counters.dropped);
        }
    }

    /// Notes that receiving failed.
    pub fn receive_failed(&mut self) -> (pause: ReceivePause)
        ensures
            final(self)@ == old(self)@.after_receive_failure(),
            pause == if old(self)@.helper {
                (ReceivePause { warn: !old(self)@.receive_failed, milliseconds: 250 })
            } else {
                (ReceivePause { warn: true, milliseconds: 50 })
            },
    {
        self.ready = false;
        if self.helper {
            let warn = !self.receive_failed;
            self.receive_failed = true;
            ReceivePause { warn, milliseconds: 250 }
        } else {
            ReceivePause { warn: true, milliseconds: 50 }
        }
    }

    /// It is time to register with the helper.
    pub fn registration_due(&mut self)
        ensures
            final(self)@ == old(self)@.registering(),
    {
        if self.registration_pending {
            self.ready = false;
        }
        self.registration_pending = true;
    }

    /// Notes what became of the registration; whether to warn of it is returned.
    pub fn registration_sent(&mut self, sent: Sent) -> (warn: bool)
        ensures
            final(self)@ == old(self)@.after_registration(sent),
            warn == (sent != Sent::Written(4) && !old(self)@.registration_failed),
    {
        if sent == Sent::Written(4) {
            self.registration_failed = false;
            false
        } else {
            let warn = !self.registration_failed;
            self.ready = false;
            self.registration_failed = true;
            warn
        }
    }

    /// Decides what to do after a packet of `length` bytes was sent to the kernel.
    pub fn packet_sent(&mut self, sent: Sent, length: usize, again: bool) -> (step: SendStep)
        ensures
            step == old(self)@.send_step(sent, length, again),
            final(self)@ == (NetworkModel {
                ready: old(self)@.ready && step != SendStep::Reconnect,
                ..old(self)@
            }),
    {
        match sent {
            Sent::Written(written) => {
                if written == length {
                    SendStep::Done
                } else {
                    SendStep::Fail(Error::PartialPacketWrite)
                }
            },
            Sent::Unreachable => {
                if self.helper && !again {
                    self.ready = false;
                    SendStep::Reconnect
                } else {
                    SendStep::Fail(Error::NetworkSendFailed)
                }
            },
            Sent::Failed => SendStep::Fail(Error::NetworkSendFailed),
        }
    }

    /// How many packets a session's queue holds.
    pub fn session_queue(&self) -> (length: usize)
        ensures
            length == self@.session_queue,
    {
        self.session_queue
    }

    /// Whether packets can be carried.
    pub fn is_ready(&self) -> (ready: bool)
        ensures
            ready == self@.ready,
    {
        self.ready
    }

    /// How many packets were dropped.
    pub fn dropped_packets(&self) -> (count: u64)
        ensures
            count == self@.counters.dropped,
    {
        self.counters.dropped
    }

    /// How many packets arrived.
    pub fn received_packets(&self) -> (count: u64)
        ensures
            count == self@.counters.received,
    {
        self.counters.received
    }

    /// How many packets went to their session.
    pub fn routed_packets(&self) -> (count: u64)
        ensures
            count == self@.counters.routed,
    {
        self.counters.routed
    }

    /// How many packets were for no session.
    pub fn unrouted_packets(&self) -> (count: u64)
        ensures
            count == self@.counters.unrouted,
    {
        self.counters.unrouted
    }

    /// How many packets were no IPv4 packets.
    pub fn invalid_packets(&self) -> (count: u64)
        ensures
            count == self@.counters.invalid,
    {
        self.counters.invalid
    }
}

/// Whether to try again to reach the helper.
pub fn retry_helper(unreachable: bool, waited_milliseconds: u64) -> (retry: bool)
    ensures
        retry == (unreachable && waited_milliseconds < HELPER_CONNECT_TIMEOUT),
{
    unreachable && waited_milliseconds < HELPER_CONNECT_TIMEOUT
}

/// A packet for an address that a session has claimed goes to that session, whatever
/// addresses others claim or give back meanwhile.
pub proof fn packets_go_to_their_session(
    network: NetworkModel,
    address: u32,
    other: u32,
    other_id: u64,
    data: Seq<u8>,
)
    requires
        !network.sessions.contains_key(address),
        !network.acknowledged(data),
        plain_ipv4(data),
        destination_number(data) == address,
        other != address || other_id != network.next_id,
    ensures
        network.registered(address).arrival(data) == Arrival::Route(network.next_id),
        network.registered(address).registered(other).arrival(data) == Arrival::Route(
            network.next_id,
        ),
        network.registered(address).released(other, other_id).arrival(data) == Arrival::Route(
            network.next_id,
        ),
{
}

/// An address belongs to one session at a time: until its lease is given back, no
/// other session gets it.
pub proof fn address_has_one_session(network: NetworkModel, address: u32)
    ensures
        network.sessions.contains_key(address) ==> network.registered(address).sessions
            == network.sessions,
        ({
            let taken = network.registered(address);
            !network.sessions.contains_key(address) ==> taken.released(
                address,
                network.next_id,
            ).sessions == network.sessions
        }),
{
    let taken = network.registered(address);
    if !network.sessions.contains_key(address) {
        assert(taken.released(address, network.next_id).sessions =~= network.sessions);
    }
}

/// A helper that falls silent is noticed: where a registration is not acknowledged
/// before the next is due, nothing can be carried.
pub proof fn silent_helper_is_noticed(network: NetworkModel, sent: Sent)
    ensures
        !network.registering().after_registration(sent).registering().ready,
        network.helper ==> {
            let back = network.registering().after_registration(sent).after_arrival(text("RSA1"));
            back.ready && back.registering().ready
        },
{
}

/// The helper's side as values.
#[verifier::ext_equal]
pub struct HelperModel {
    pub network: u32,
    pub prefix: u8,
    pub mtu: u16,
    pub edge_registered: bool,
}

/// What the helper does with a message from its socket.
#[derive(Clone, Copy, Debug, PartialEq, Eq, Structural)]
pub enum HelperAction {
    /// Nothing.
    Ignore,
    /// Answer that the registration was taken.
    Acknowledge,
    /// Write the packet to the interface.
    Write,
}

impl HelperModel {
    /// What the helper does with a message; `from_edge` where the server sent it.
    pub open spec fn action(self, from_edge: bool, data: Seq<u8>) -> HelperAction {
        if !from_edge {
            HelperAction::Ignore
        } else if data == text("RSN1") {
            HelperAction::Acknowledge
        } else if self.edge_registered && plain_ipv4(data) && data.len() <= self.mtu && subnet_of(
            be_value(data.subrange(12, 16)),
            self.prefix,
        ) == self.network {
            HelperAction::Write
        } else {
            HelperAction::Ignore
        }
    }

    /// The helper after a message.
    pub open spec fn after(self, from_edge: bool, data: Seq<u8>) -> Self {
        HelperModel {
            edge_registered: self.edge_registered || (from_edge && data == text("RSN1")),
            ..self
        }
    }
}

/// The process that owns the interface: it passes packets between the interface and
/// the server.
pub struct Helper {
    network: u32,
    prefix: u8,
    mtu: u16,
    edge_registered: bool,
}

impl View for Helper {
    type V = HelperModel;

    closed spec fn view(&self) -> HelperModel {
        HelperModel {
            network: self.network,
            prefix: self.prefix,
            mtu: self.mtu,
            edge_registered: self.edge_registered,
        }
    }
}

impl Helper {
    /// A helper for an interface with this name, address and MTU.
    pub fn new(name: &str, address: [u8; 4], prefix: u8, mtu: u16) -> (helper: Result<Self, Error>)
        ensures
            if text(name).len() == 0 || text(name).len() > 15 || prefix > 32 || mtu < 576 || mtu
                > 9000 {
                helper is Err && helper->Err_0 == Error::InvalidHelperConfiguration
            } else {
                helper is Ok && helper->Ok_0@ == (HelperModel {
                    network: subnet_of(be_value(address@), prefix) as u32,
                    prefix,
                    mtu,
                    edge_registered: false,
                }) && helper->Ok_0@.network as nat == subnet_of(be_value(address@), prefix)
            },
            helper is Ok ==> helper->Ok_0@.prefix <= 32,
    {
        let name_length: usize = name.as_bytes().len();
        if name_length == 0 || name_length > 15 || prefix > 32 || mtu < 576 || mtu > 9000 {
            return Err(Error::InvalidHelperConfiguration);
        }
        assert(address@.subrange(0, 4) =~= address@);
        let number: u32 = get_u32(&address, 0);
        Ok(Helper { network: network_of(number, prefix), prefix, mtu, edge_registered: false })
    }

    /// Decides what to do with a message from the socket.
    pub fn edge_message(&mut self, from_edge: bool, data: &[u8]) -> (action: HelperAction)
        requires
            old(self)@.prefix <= 32,
        ensures
            action == old(self)@.action(from_edge, data@),
            final(self)@ == old(self)@.after(from_edge, data@),
    {
        if !from_edge {
            return HelperAction::Ignore;
        }
        if same_bytes(data, helper_registration()) {
            self.edge_registered = true;
            return HelperAction::Acknowledge;
        }
        if !self.edge_registered || !valid_ipv4(data, self.network, self.prefix, self.mtu as usize)
        {
            return HelperAction::Ignore;
        }
        HelperAction::Write
    }

    /// Whether a packet from the interface is passed on to the server.
    pub fn passes_on(&self) -> (passes: bool)
        ensures
            passes == self@.edge_registered,
    {
        self.edge_registered
    }
}

/// Checks that a whole packet was written to the interface.
pub fn helper_wrote(written: usize, length: usize) -> (out: Result<(), Error>)
    ensures
        out == if written == length {
            Ok::<(), Error>(())
        } else {
            Err(Error::PartialHelperWrite)
        },
{
    if written == length {
        Ok(())
    } else {
        Err(Error::PartialHelperWrite)
    }
}

/// The helper writes nothing to the interface before the server has registered, and
/// never a packet whose source lies outside the subnet.
pub proof fn helper_writes_only_from_the_subnet(helper: HelperModel, from_edge: bool, data: Seq<u8>)
    requires
        helper.action(from_edge, data) == HelperAction::Write,
    ensures
        helper.edge_registered,
        from_edge,
        plain_ipv4(data),
        subnet_of(be_value(data.subrange(12, 16)), helper.prefix) == helper.network,
{
}

/// A helper that restarts serves the server again after the next registration: it
/// acknowledges it, and the server is ready once the answer arrives.
pub proof fn registration_restores_service(network: NetworkModel, helper: HelperModel)
    requires
        network.helper,
    ensures
        helper.action(true, text("RSN1")) == HelperAction::Acknowledge,
        helper.after(true, text("RSN1")).edge_registered,
        network.registering().after_registration(Sent::Written(4)).after_arrival(
            text("RSA1"),
        ).ready,
{
}

/// A packet goes to the session of the address in its header: every packet of version 4
/// whose header fits and whose length field is right is routed to whoever has claimed the
/// address in bytes 16 to 19, whatever its other bytes are. Nothing else is a packet.
pub proof fn packets_are_routed_by_their_destination(network: NetworkModel, data: Seq<u8>)
    requires
        !network.helper || data != text("RSA1"),
    ensures
        ({
            let packet = data.len() >= 20 && data[0] / 16 == 4 && 20 <= data[0] % 16 * 4
                <= data.len() && data[2] * 256 + data[3] == data.len();
            let address = (data[16] * 0x100_0000 + data[17] * 0x1_0000 + data[18] * 256
                + data[19]) as u32;
            network.arrival(data) == if !packet {
                Arrival::Invalid
            } else if network.sessions.contains_key(address) {
                Arrival::Route(network.sessions[address])
            } else {
                Arrival::Unrouted
            }
        }),
{
    if data.len() >= 20 {
        numbers_are_big_endian(data.subrange(2, 4));
        numbers_are_big_endian(data.subrange(16, 20));
    }
}

/// A plain packet for a registered address reaches its session: one with a header of 20
/// bytes and a right length field needs nothing more.
pub proof fn plain_packet_reaches_its_session(
    network: NetworkModel,
    ip: Seq<u8>,
    data: Seq<u8>,
)
    requires
        20 <= data.len() <= 65535,
        data[0] == 0x45,
        data[2] * 256 + data[3] == data.len(),
        ip.len() == 4,
        data.subrange(16, 20) == ip,
        !network.sessions.contains_key(be_value(ip) as u32),
    ensures
        network.registered(be_value(ip) as u32).arrival(data) == Arrival::Route(network.next_id),
{
    numbers_are_big_endian(data.subrange(2, 4));
    numbers_are_big_endian(ip);
    reveal_strlit("RSA1");
    text_of_ascii("RSA1");
    assert(text("RSA1").len() == 4);
}

/// Each packet is counted once: as received, and as invalid or unrouted where it is that. A
/// packet for a session is counted when its queue took it or had no room.
pub proof fn packets_are_counted(network: NetworkModel, data: Seq<u8>, delivered: bool)
    requires
        !network.helper || data != text("RSA1"),
        network.counters.received < u64::MAX,
        network.counters.routed < u64::MAX,
        network.counters.unrouted < u64::MAX,
        network.counters.invalid < u64::MAX,
        network.counters.dropped < u64::MAX,
    ensures
        ({
            let before = network.counters;
            let after = network.after_arrival(data).counters;
            let arrival = network.arrival(data);
            &&& after.received == before.received + 1
            &&& after.invalid == before.invalid + if arrival is Invalid {
                1int
            } else {
                0
            }
            &&& after.unrouted == before.unrouted + if arrival is Unrouted {
                1int
            } else {
                0
            }
            &&& after.routed == before.routed
            &&& after.dropped == before.dropped
            &&& network.after_arrival(data).sessions == network.sessions
            &&& network.after_arrival(data).next_id == network.next_id
        }),
        ({
            let before = network.counters;
            let after = network.after_delivery(delivered).counters;
            &&& delivered ==> after.routed == before.routed + 1 && after.dropped == before.dropped
            &&& !delivered ==> after.dropped == before.dropped + 1 && after.routed == before.routed
            &&& after.received == before.received
            &&& after.invalid == before.invalid
            &&& after.unrouted == before.unrouted
            &&& network.after_delivery(delivered).sessions == network.sessions
        }),
{
}

/// Numbers of leases are not reused: each claim takes the next number, and a lease that is
/// given back frees its own address only.
pub proof fn leases_have_their_own_numbers(network: NetworkModel, address: u32, id: u64, other: u32)
    requires
        network.next_id < u64::MAX,
    ensures
        network.registered(address).next_id == network.next_id + 1,
        !network.sessions.contains_key(address) ==> network.registered(
            address,
        ).sessions.contains_key(address) && network.registered(address).sessions[address]
            == network.next_id,
        other != address ==> network.registered(address).sessions.contains_key(other)
            == network.sessions.contains_key(other),
        network.sessions.contains_key(address) && network.sessions[address] == id
            ==> !network.released(address, id).sessions.contains_key(address),
        network.sessions.contains_key(address) && network.sessions[address] != id
            ==> network.released(address, id) == network,
        other != address ==> network.released(address, id).sessions.contains_key(other)
            == network.sessions.contains_key(other),
{
}

/// A packet that was handed over whole is done with. A helper that cannot be reached is
/// connected to once more and no more; an interface of one's own is not.
pub proof fn packets_are_sent_whole_or_fail(
    network: NetworkModel,
    written: usize,
    length: usize,
    again: bool,
)
    ensures
        network.send_step(Sent::Written(written), length, again) == SendStep::Done <==> written
            == length,
        network.send_step(Sent::Written(written), length, again) != SendStep::Reconnect,
        network.send_step(Sent::Unreachable, length, again) == SendStep::Reconnect
            <==> network.helper && !again,
        network.send_step(Sent::Unreachable, length, again) != SendStep::Done,
        network.send_step(Sent::Failed, length, again) == SendStep::Fail(Error::NetworkSendFailed),
{
}

/// An interface of one's own is ready until receiving fails, and again once something
/// arrives. A helper is ready only between its acknowledgement and the next failure: a
/// packet from it does not make it ready.
pub proof fn readiness_follows_the_interface(network: NetworkModel, queue: usize, data: Seq<u8>)
    ensures
        NetworkModel::fresh(false, queue).ready,
        !NetworkModel::fresh(true, queue).ready,
        NetworkModel::fresh(network.helper, queue).sessions == Map::<u32, u64>::empty(),
        NetworkModel::fresh(network.helper, queue).session_queue == queue,
        NetworkModel::fresh(network.helper, queue).helper == network.helper,
        !network.after_receive_failure().ready,
        !network.helper ==> network.after_arrival(data).ready,
        network.helper && data != text("RSA1") ==> network.after_arrival(data).ready
            == network.ready,
        network.helper ==> network.after_arrival(text("RSA1")).ready,
        network.after_registration(Sent::Written(4)).ready == network.ready,
        forall|sent: Sent|
            sent != Sent::Written(4) ==> !(#[trigger] network.after_registration(sent)).ready,
        network.registering().ready <==> network.ready && !network.registration_pending,
{
}

/// The helper writes exactly what it should: once the server has registered, every packet
/// from the server of version 4 whose header fits, whose length field is right and no more
/// than the MTU, and whose source lies in the subnet.
pub proof fn helper_writes_packets_of_the_subnet(helper: HelperModel, from_edge: bool, data: Seq<u8>)
    requires
        helper.prefix <= 32,
    ensures
        helper.action(from_edge, data) == HelperAction::Write <==> {
            let source = data[12] * 0x100_0000 + data[13] * 0x1_0000 + data[14] * 256 + data[15];
            let size = vstd::arithmetic::power2::pow2((32 - helper.prefix) as nat);
            &&& from_edge
            &&& helper.edge_registered
            &&& 20 <= data.len() <= helper.mtu
            &&& data[0] / 16 == 4
            &&& 20 <= data[0] % 16 * 4 <= data.len()
            &&& data[2] * 256 + data[3] == data.len()
            &&& helper.network as nat % size == 0
            &&& helper.network <= source < helper.network + size
        },
        helper.action(from_edge, data) == HelperAction::Acknowledge <==> from_edge && data == text(
            "RSN1",
        ),
        helper.after(from_edge, data).edge_registered <==> helper.edge_registered || from_edge
            && data == text("RSN1"),
{
    reveal_strlit("RSN1");
    text_of_ascii("RSN1");
    assert(text("RSN1").len() == 4);
    if data.len() >= 20 {
        numbers_are_big_endian(data.subrange(2, 4));
        numbers_are_big_endian(data.subrange(12, 16));
        subnets_are_aligned(
            be_value(data.subrange(12, 16)),
            helper.prefix,
            helper.network as nat,
        );
    }
}

/// An address that a session claims is its own: the claim is refused while another session
/// has the address, and else gives a lease with a number that no lease had before. What the
/// lease stands for is the address that was asked for. Giving it back frees that address.
pub proof fn claims_are_granted_once()
    ensures
        forall|network: &mut Network, ip: [u8; 4], lease: Result<SessionLease, Error>| #[trigger]
            call_ensures(Network::register, (network, ip), lease) ==> {
                let address = (ip@[0] * 0x100_0000 + ip@[1] * 0x1_0000 + ip@[2] * 256
                    + ip@[3]) as u32;
                let taken = network@.sessions.contains_key(address);
                &&& taken ==> lease == Err::<SessionLease, Error>(Error::ClientAlreadyActive)
                    && final(network)@.sessions == network@.sessions
                &&& !taken ==> lease is Ok && lease->Ok_0.number() == network@.next_id
                    && lease->Ok_0.address() == address && final(network)@.sessions
                    == network@.sessions.insert(address, network@.next_id)
                &&& final(network)@.next_id != network@.next_id
                &&& final(network)@.ready == network@.ready
                &&& final(network)@.counters == network@.counters
            },
        forall|network: &mut Network, lease: SessionLease, done: ()| #[trigger]
            call_ensures(Network::release, (network, lease), done) ==> {
                let own = network@.sessions.contains_key(lease.address())
                    && network@.sessions[lease.address()] == lease.number();
                &&& own ==> final(network)@.sessions == network@.sessions.remove(lease.address())
                &&& !own ==> final(network)@.sessions == network@.sessions
                &&& final(network)@.counters == network@.counters
            },
        forall|lease: &SessionLease, id: u64| #[trigger]
            call_ensures(SessionLease::id, (lease,), id) ==> id == lease.number(),
{
    assert forall|ip: [u8; 4]| #[trigger] be_value(ip@) == ip@[0] * 0x100_0000 + ip@[1] * 0x1_0000
        + ip@[2] * 256 + ip@[3] by {
        numbers_are_big_endian(ip@);
    }
}

/// Whatever arrives is routed by its destination: once a session has claimed an address, a
/// packet for it is routed to the number of its lease.
pub proof fn arrivals_follow_the_claims(ip: [u8; 4], data: &[u8])
    requires
        20 <= data@.len() <= 65535,
        data@[0] == 0x45,
        data@[2] * 256 + data@[3] == data@.len(),
        data@.subrange(16, 20) == ip@,
    ensures
        forall|
            first: &mut Network,
            lease: Result<SessionLease, Error>,
            second: &mut Network,
            arrival: Arrival,
        |
            (#[trigger] call_ensures(Network::register, (first, ip), lease)) && lease is Ok
                && second@ == final(first)@ && (#[trigger] call_ensures(
                Network::packet_arrived,
                (second, data),
                arrival,
            )) ==> arrival == Arrival::Route(lease->Ok_0.number()),
{
    assert forall|
        first: &mut Network,
        lease: Result<SessionLease, Error>,
        second: &mut Network,
        arrival: Arrival,
    |
        (#[trigger] call_ensures(Network::register, (first, ip), lease)) && lease is Ok && second@
            == final(first)@ && (#[trigger] call_ensures(
            Network::packet_arrived,
            (second, data),
            arrival,
        )) implies arrival == Arrival::Route(lease->Ok_0.number()) by {
        plain_packet_reaches_its_session(first@, ip@, data@);
    }
}

/// What a network is told it notes, and what it is asked it answers: arrivals and deliveries
/// move its counters, failures and registrations its readiness, and nothing moves anything
/// else.
pub proof fn network_notes_what_it_is_told(data: &[u8])
    ensures
        forall|network: &mut Network, arrival: Arrival| #[trigger]
            call_ensures(Network::packet_arrived, (network, data), arrival) ==> arrival
                == network@.arrival(data@) && final(network)@ == network@.after_arrival(data@),
        forall|network: &mut Network, delivered: bool, done: ()| #[trigger]
            call_ensures(Network::packet_delivered, (network, delivered), done) ==> final(network)@
                == network@.after_delivery(delivered),
        forall|network: &mut Network, pause: ReceivePause| #[trigger]
            call_ensures(Network::receive_failed, (network,), pause) ==> {
                &&& !final(network)@.ready
                &&& final(network)@.sessions == network@.sessions
                &&& final(network)@.counters == network@.counters
                &&& network@.helper ==> pause.milliseconds == 250 && pause.warn
                    == !network@.receive_failed && final(network)@.receive_failed
                &&& !network@.helper ==> pause.milliseconds == 50 && pause.warn
            },
        forall|network: &mut Network, done: ()| #[trigger]
            call_ensures(Network::registration_due, (network,), done) ==> {
                &&& final(network)@.ready == (network@.ready && !network@.registration_pending)
                &&& final(network)@.registration_pending
                &&& final(network)@.sessions == network@.sessions
            },
        forall|network: &mut Network, sent: Sent, warn: bool| #[trigger]
            call_ensures(Network::registration_sent, (network, sent), warn) ==> {
                let whole = sent == Sent::Written(4);
                &&& warn == (!whole && !network@.registration_failed)
                &&& final(network)@.registration_failed == !whole
                &&& final(network)@.ready == (network@.ready && whole)
                &&& final(network)@.sessions == network@.sessions
            },
        forall|network: &mut Network, sent: Sent, length: usize, again: bool, step: SendStep|
            #[trigger]
            call_ensures(Network::packet_sent, (network, sent, length, again), step) ==> {
                &&& step == SendStep::Done <==> sent == Sent::Written(length)
                &&& step == SendStep::Reconnect <==> sent == Sent::Unreachable && network@.helper
                    && !again
                &&& final(network)@.ready == (network@.ready && step != SendStep::Reconnect)
                &&& final(network)@.sessions == network@.sessions
            },
        forall|network: &Network, ready: bool| #[trigger]
            call_ensures(Network::is_ready, (network,), ready) ==> ready == network@.ready,
        forall|network: &Network, length: usize| #[trigger]
            call_ensures(Network::session_queue, (network,), length) ==> length
                == network@.session_queue,
        forall|network: &Network, count: u64| #[trigger]
            call_ensures(Network::received_packets, (network,), count) ==> count
                == network@.counters.received,
        forall|network: &Network, count: u64| #[trigger]
            call_ensures(Network::routed_packets, (network,), count) ==> count
                == network@.counters.routed,
        forall|network: &Network, count: u64| #[trigger]
            call_ensures(Network::unrouted_packets, (network,), count) ==> count
                == network@.counters.unrouted,
        forall|network: &Network, count: u64| #[trigger]
            call_ensures(Network::invalid_packets, (network,), count) ==> count
                == network@.counters.invalid,
        forall|network: &Network, count: u64| #[trigger]
            call_ensures(Network::dropped_packets, (network,), count) ==> count
                == network@.counters.dropped,
{
}

/// A network begins for the settings that it is given: with a helper where they name its
/// socket, ready at once where they do not, and not at all where they are refused.
pub proof fn network_begins_with_its_settings(
    settings: &TunSettings,
    network: Result<Network, Error>,
    checked: Result<(), Error>,
)
    requires
        call_ensures(Network::create, (settings,), network),
        call_ensures(Network::validate_settings, (settings,), checked),
    ensures
        network is Ok <==> settings_problem(*settings) is None,
        checked is Ok <==> network is Ok,
        network is Ok ==> network->Ok_0@.helper == (settings.helper_socket is Some)
            && network->Ok_0@.ready == (settings.helper_socket is None)
            && network->Ok_0@.session_queue == settings.session_queue && network->Ok_0@.sessions
            == Map::<u32, u64>::empty() && network->Ok_0@.counters.received == 0,
{
}

/// A helper begins for the subnet of its address, with nobody registered, where its name, its
/// prefix and its MTU are in their ranges. It passes packets on once the server has
/// registered, and a packet must be written whole.
pub proof fn helper_begins_with_its_subnet(
    name: &str,
    address: [u8; 4],
    prefix: u8,
    mtu: u16,
    helper: Result<Helper, Error>,
    written: usize,
    length: usize,
    wrote: Result<(), Error>,
    unreachable: bool,
    waited: u64,
    retry: bool,
)
    requires
        call_ensures(Helper::new, (name, address, prefix, mtu), helper),
        call_ensures(helper_wrote, (written, length), wrote),
        call_ensures(retry_helper, (unreachable, waited), retry),
    ensures
        helper is Ok <==> 1 <= text(name).len() <= 15 && prefix <= 32 && 576 <= mtu <= 9000,
        helper is Ok ==> {
            let number = address@[0] * 0x100_0000 + address@[1] * 0x1_0000 + address@[2] * 256
                + address@[3];
            let size = vstd::arithmetic::power2::pow2((32 - prefix) as nat);
            &&& helper->Ok_0@.network as nat % size == 0
            &&& helper->Ok_0@.network <= number < helper->Ok_0@.network + size
            &&& helper->Ok_0@.prefix == prefix
            &&& helper->Ok_0@.mtu == mtu
            &&& !helper->Ok_0@.edge_registered
        },
        wrote is Ok <==> written == length,
        retry <==> unreachable && waited < 10_000,
        forall|own: &mut Helper, from_edge: bool, data: &[u8], action: HelperAction| #[trigger]
            call_ensures(Helper::edge_message, (own, from_edge, data), action) ==> action
                == own@.action(from_edge, data@) && final(own)@ == own@.after(from_edge, data@),
        forall|own: &Helper, passes: bool| #[trigger]
            call_ensures(Helper::passes_on, (own,), passes) ==> passes == own@.edge_registered,
{
    numbers_are_big_endian(address@);
    if prefix <= 32 && helper is Ok {
        subnets_are_aligned(be_value(address@), prefix, helper->Ok_0@.network as nat);
    }
}

} // verus!
