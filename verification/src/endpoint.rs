//! The endpoint: the connection table, the table of pending
//! acknowledgements and the rules that tie them together.
//!
//! An endpoint here is the state of the protocol and nothing else. Each
//! operation takes what arrived or what the application asks for, changes
//! the tables, and hands back the datagrams that have to go out and the
//! connections that were closed. Whoever owns the socket transmits the
//! former and keeps the latter for as long as the application holds them.

use vstd::prelude::*;
use vstd::set_lib::lemma_len_subset;
use vstd::std_specs::hash::spec_keys_iter;
use vstd::std_specs::iter::IteratorSpec;
use std::collections::HashMap;
use openssl::pkey::Private;
use openssl::rsa::Rsa;
use crate::connection::{Connection, ConnectionState, ConnectionView};
use crate::error::ErrorKind;
use crate::package::{Header, MethodType, Package, PackageAck, PackageAckView, PackageView};
use crate::util::{conv_slice_to_u32, conv_u32_to_bytes, generate_random_bytes, le_bytes, le_value};
use crate::util::{period_sleep, period_sleep_ms, random_u32};

verus! {

broadcast use vstd::std_specs::hash::group_hash_axioms;

/// The tag of a key that has private components.
#[verifier::external_type_specification]
#[verifier::external_body]
pub struct ExPrivate(openssl::pkey::Private);

/// Calls `openssl::rsa::Rsa::generate` for a new key pair of `bits` bits.
/// Which key comes, and whether one comes at all, is left open.
#[verifier::external_body]
fn generate_private_key(bits: u32) -> Result<Rsa<Private>, openssl::error::ErrorStack> {
    Rsa::generate(bits)
}

/// The size in bits of the key pair of a new configuration.
pub const PRIVATE_KEY_BITS: u32 = 2048;

/// The length in bytes of the secret of a new configuration.
pub const SECRET_KEY_LEN: usize = 32;

/// Endpoint configuration.
#[derive(Debug)]
pub struct EndpointConfig {
    /// The address the endpoint should bind to.
    pub address: String,
    /// The largest datagram, in bytes, that is read from the socket.
    pub buffer_size: u32,
    /// The time in milliseconds after which a read on the socket gives up.
    pub read_timeout: u64,
    /// The least time in milliseconds between two transmissions of one
    /// packet.
    pub ack_interval: u64,
    /// The period in milliseconds of the retransmit loop.
    pub ack_loop_time: u64,
    /// How often a packet is transmitted before it is given up.
    pub max_ack_attempts: u8,
    /// How many packets the queue of a connection holds at most.
    pub max_package_backlog: u32,
    /// Private RSA key, kept for a secure session; `None` where OpenSSL
    /// could not make one.
    pub private_key: Option<Rsa<Private>>,
    /// Secret key, kept for a secure session.
    pub secret_key: Vec<u8>,
}

/// A configuration as a mathematical value.
#[verifier::ext_equal]
pub struct EndpointConfigView {
    pub address: Seq<char>,
    pub buffer_size: u32,
    pub read_timeout: u64,
    pub ack_interval: u64,
    pub ack_loop_time: u64,
    pub max_ack_attempts: u8,
    pub max_package_backlog: u32,
    pub private_key: Option<Rsa<Private>>,
    pub secret_key: Seq<u8>,
}

impl View for EndpointConfig {
    type V = EndpointConfigView;

    open spec fn view(&self) -> EndpointConfigView {
        EndpointConfigView {
            address: self.address@,
            buffer_size: self.buffer_size,
            read_timeout: self.read_timeout,
            ack_interval: self.ack_interval,
            ack_loop_time: self.ack_loop_time,
            max_ack_attempts: self.max_ack_attempts,
            max_package_backlog: self.max_package_backlog,
            private_key: self.private_key,
            secret_key: self.secret_key@,
        }
    }
}

impl EndpointConfigView {
    /// The default values for an endpoint on `address`, with the two keys
    /// that were made for it.
    pub open spec fn defaults(
        address: Seq<char>,
        private_key: Option<Rsa<Private>>,
        secret_key: Seq<u8>,
    ) -> EndpointConfigView {
        EndpointConfigView {
            address,
            buffer_size: 8192,
            read_timeout: 1000,
            ack_interval: 200,
            ack_loop_time: 1000,
            max_ack_attempts: 20,
            max_package_backlog: 32,
            private_key,
            secret_key,
        }
    }
}

impl EndpointConfig {
    /// Creates a new configuration with default values, a new RSA key pair
    /// and a random secret.
    pub fn new(address: &String) -> (r: Self)
        ensures
            r@ == EndpointConfigView::defaults(address@, r@.private_key, r@.secret_key),
            r@.secret_key.len() == SECRET_KEY_LEN,
            forall|i: int|
                0 <= i < SECRET_KEY_LEN ==> r@.secret_key[i] < crate::util::RANDOM_BYTE_LIMIT,
    {
        let rsa = match generate_private_key(PRIVATE_KEY_BITS) {
            Ok(key) => Some(key),
            Err(_) => None,
        };
        Self {
            address: address.clone(),
            buffer_size: 8192,
            read_timeout: 1000,
            ack_interval: 200,
            ack_loop_time: 1000,
            max_ack_attempts: 20,
            max_package_backlog: 32,
            private_key: rsa,
            secret_key: generate_random_bytes(SECRET_KEY_LEN),
        }
    }
}

/// A datagram to hand to the socket.
#[derive(Debug, PartialEq, Eq)]
pub struct Datagram {
    /// Where to send it.
    pub address: String,
    /// The bytes to send.
    pub data: Vec<u8>,
}

/// A datagram as a mathematical value.
#[verifier::ext_equal]
pub struct DatagramView {
    pub address: Seq<char>,
    pub data: Seq<u8>,
}

impl View for Datagram {
    type V = DatagramView;

    open spec fn view(&self) -> DatagramView {
        DatagramView { address: self.address@, data: self.data@ }
    }
}

/// The outcome of a transmission as a mathematical value.
pub open spec fn sent_view(r: Result<Datagram, ErrorKind>) -> Result<DatagramView, ErrorKind> {
    match r {
        Ok(datagram) => Ok(datagram@),
        Err(e) => Err(e),
    }
}

/// A datagram that may be there, as a mathematical value.
pub open spec fn datagram_view(r: Option<Datagram>) -> Option<DatagramView> {
    match r {
        Some(datagram) => Some(datagram@),
        None => None,
    }
}

/// A connection that left the table. It goes to whoever still holds it: the
/// packets that were queued for the application stay in it.
#[derive(Debug)]
pub struct Closed {
    /// The id the connection stood under.
    pub id: u32,
    /// The connection, now disconnected.
    pub connection: Connection,
    /// The notice to send to the peer, if there is one.
    pub farewell: Option<Datagram>,
}

/// A closed connection as a mathematical value.
#[verifier::ext_equal]
pub struct ClosedView {
    pub id: u32,
    pub connection: ConnectionView,
    pub farewell: Option<DatagramView>,
}

impl View for Closed {
    type V = ClosedView;

    open spec fn view(&self) -> ClosedView {
        ClosedView {
            id: self.id,
            connection: self.connection@,
            farewell: datagram_view(self.farewell),
        }
    }
}

/// A closed connection that may be there, as a mathematical value.
pub open spec fn closed_view(r: Option<Closed>) -> Option<ClosedView> {
    match r {
        Some(closed) => Some(closed@),
        None => None,
    }
}

/// What `connect` hands back.
#[derive(Debug)]
pub struct Opened {
    /// The id of the new connection.
    pub connection_id: u32,
    /// The id of the request. The handshake is complete once no
    /// acknowledgement is pending under it. It has failed once the
    /// connection has left the table.
    pub package_id: u32,
    /// The request to send to the peer.
    pub request: Result<Datagram, ErrorKind>,
    /// The connection that stood under the same id before, if there was one.
    pub displaced: Option<Closed>,
}

/// What the endpoint asks for after a packet arrived.
#[derive(Debug)]
pub struct Dispatch {
    /// The acknowledgement to send to the peer, if the packet asked for one.
    pub reply: Option<Datagram>,
    /// The connection that the packet closed, if it closed one.
    pub closed: Option<Closed>,
}

/// What the endpoint asks for after a round of the retransmit loop.
#[derive(Debug)]
pub struct Tick {
    /// The datagrams to send again, each with the id of its packet.
    pub resend: Vec<(u32, Datagram)>,
    /// The connections whose request was never acknowledged.
    pub closed: Vec<Closed>,
}

/// The state of an endpoint.
#[derive(Debug)]
pub struct Endpoint {
    /// Configuration.
    pub config: EndpointConfig,
    /// True until the endpoint is stopped.
    pub running: bool,
    /// The connections, by their id.
    pub connection_list: HashMap<u32, Connection>,
    /// The packets that wait for an acknowledgement, by their id.
    pub ack_list: HashMap<u32, PackageAck>,
    /// The ids of the connections that peers opened since the application
    /// last asked, oldest first.
    pub new_connection_list: Vec<u32>,
}

/// An endpoint as a mathematical value.
#[verifier::ext_equal]
pub struct EndpointView {
    pub config: EndpointConfigView,
    pub running: bool,
    pub connections: Map<u32, ConnectionView>,
    pub acks: Map<u32, PackageAckView>,
    pub new_connections: Seq<u32>,
}

impl View for Endpoint {
    type V = EndpointView;

    open spec fn view(&self) -> EndpointView {
        EndpointView {
            config: self.config@,
            running: self.running,
            connections: self.connection_list@.map_values(|c: Connection| c@),
            acks: self.ack_list@.map_values(|a: PackageAck| a@),
            new_connections: self.new_connection_list@,
        }
    }
}

impl EndpointView {
    /// A running endpoint with empty tables.
    pub open spec fn fresh(config: EndpointConfigView) -> EndpointView {
        EndpointView {
            config,
            running: true,
            connections: Map::empty(),
            acks: Map::empty(),
            new_connections: Seq::empty(),
        }
    }

    /// Every connection is open and stands under its own id with a well
    /// formed queue, and every pending acknowledgement stands under the id
    /// of a packet that asked for one.
    pub open spec fn wf(self) -> bool {
        &&& forall|id: u32| #[trigger]
            self.connections.contains_key(id) ==> {
                &&& self.connections[id].id == id
                &&& self.connections[id].state is Connected
                &&& self.connections[id].wf()
            }
        &&& forall|id: u32| #[trigger]
            self.acks.contains_key(id) ==> {
                &&& self.acks[id].cached_package.header.package_id == id
                &&& self.acks[id].cached_package.header.ack
            }
    }

    /// What `send` hands to the socket for a packet: the packet's datagram,
    /// addressed to the peer of its connection. A packet for a connection
    /// that is not in the table fails with `UnknownConnection`, one that has
    /// no encoding with `MalformedPacket`.
    pub open spec fn datagram(self, package: PackageView) -> Result<DatagramView, ErrorKind> {
        if !self.connections.contains_key(package.header.connection_id) {
            Err(ErrorKind::UnknownConnection)
        } else {
            match Package::encoding(package) {
                Some(bytes) => Ok(
                    DatagramView {
                        address: self.connections[package.header.connection_id].address,
                        data: bytes,
                    },
                ),
                None => Err(ErrorKind::MalformedPacket),
            }
        }
    }

    /// Whether `send` opens a pending acknowledgement for the packet: its
    /// connection is known, it asks for an acknowledgement and none is
    /// pending under its id.
    pub open spec fn opens_ack(self, package: PackageView) -> bool {
        &&& self.connections.contains_key(package.header.connection_id)
        &&& package.header.ack
        &&& !self.acks.contains_key(package.header.package_id)
    }

    /// The endpoint after `send`.
    pub open spec fn after_send(self, package: PackageView) -> EndpointView {
        if self.opens_ack(package) {
            EndpointView {
                acks: self.acks.insert(
                    package.header.package_id,
                    PackageAckView { cached_package: package, attempts: 1 },
                ),
                ..self
            }
        } else {
            self
        }
    }

    /// The request that opens the connection `connection_id`.
    pub open spec fn connect_request(connection_id: u32, package_id: u32) -> PackageView {
        let package = Package::fresh(connection_id, package_id);
        PackageView {
            header: Header { method_type: MethodType::Connect, ack: true, ..package.header },
            ..package
        }
    }

    /// The notice that the connection `connection_id` is closed.
    pub open spec fn disconnect_notice(connection_id: u32, package_id: u32) -> PackageView {
        let package = Package::fresh(connection_id, package_id);
        PackageView {
            header: Header { method_type: MethodType::Disconnect, ..package.header },
            ..package
        }
    }

    /// The acknowledgement of the packet `acknowledged`: its payload is the
    /// four bytes of that id, and it asks for no acknowledgement itself.
    pub open spec fn ack_reply(connection_id: u32, package_id: u32, acknowledged: u32)
        -> PackageView {
        let package = Package::fresh(connection_id, package_id);
        PackageView {
            header: Header { method_type: MethodType::Ack, ..package.header },
            data: le_bytes(acknowledged),
        }
    }

    /// A connection as the endpoint opens it: connected, with the queue
    /// bound of the configuration.
    pub open spec fn opened(self, address: Seq<char>, connection_id: u32) -> ConnectionView {
        ConnectionView::fresh(address, connection_id).with_backlog(
            self.config.max_package_backlog,
        ).with_state(ConnectionState::Connected)
    }

    /// The endpoint with a newly opened connection in its table.
    pub open spec fn with_connection(self, address: Seq<char>, connection_id: u32)
        -> EndpointView {
        EndpointView {
            connections: self.connections.insert(
                connection_id,
                self.opened(address, connection_id),
            ),
            ..self
        }
    }

    /// The connection `connection_id` as it leaves the table.
    pub open spec fn closing(self, connection_id: u32, farewell: Option<DatagramView>)
        -> ClosedView {
        ClosedView {
            id: connection_id,
            connection: self.connections[connection_id].with_state(ConnectionState::Disconnected),
            farewell,
        }
    }

    /// The endpoint after `connect`: the new connection is in the table and
    /// its request waits for an acknowledgement.
    pub open spec fn after_connect(self, address: Seq<char>, connection_id: u32, package_id: u32)
        -> EndpointView {
        self.with_connection(address, connection_id).after_send(
            Self::connect_request(connection_id, package_id),
        )
    }

    /// The request that `connect` hands back.
    pub open spec fn connect_datagram(
        self,
        address: Seq<char>,
        connection_id: u32,
        package_id: u32,
    ) -> Result<DatagramView, ErrorKind> {
        self.with_connection(address, connection_id).datagram(
            Self::connect_request(connection_id, package_id),
        )
    }

    /// Whether no id is left for a new connection with its request: every
    /// connection id is taken, or every packet id waits for an
    /// acknowledgement.
    pub open spec fn full(self) -> bool {
        holds_every_id(self.connections) || holds_every_id(self.acks)
    }

    /// The connection that `connect_with` pushes out of the table, if the id
    /// was taken.
    pub open spec fn displaced(self, connection_id: u32) -> Option<ClosedView> {
        if self.connections.contains_key(connection_id) {
            Some(self.closing(connection_id, None))
        } else {
            None
        }
    }

    /// The endpoint after `disconnect`: the connection is not in the table.
    pub open spec fn after_disconnect(self, connection_id: u32) -> EndpointView {
        EndpointView { connections: self.connections.remove(connection_id), ..self }
    }

    /// What `disconnect` hands back: nothing for a connection that is not in
    /// the table, else the connection with the notice for its peer.
    pub open spec fn disconnected(self, connection_id: u32, package_id: u32) -> Option<
        ClosedView,
    > {
        if self.connections.contains_key(connection_id) {
            Some(
                self.closing(
                    connection_id,
                    match self.datagram(Self::disconnect_notice(connection_id, package_id)) {
                        Ok(datagram) => Some(datagram),
                        Err(_) => None,
                    },
                ),
            )
        } else {
            None
        }
    }

    /// Whether a packet that arrived is looked at: its connection is known,
    /// or it asks for one.
    pub open spec fn admits(self, package: PackageView) -> bool {
        self.connections.contains_key(package.header.connection_id)
            || package.header.method_type is Connect
    }

    /// The endpoint once the connection of an admitted packet is in the
    /// table: a request for an unknown connection opens it and puts it on
    /// the list of new connections.
    pub open spec fn after_admission(self, address: Seq<char>, package: PackageView)
        -> EndpointView {
        if self.connections.contains_key(package.header.connection_id) {
            self
        } else {
            EndpointView {
                new_connections: self.new_connections.push(package.header.connection_id),
                ..self.with_connection(address, package.header.connection_id)
            }
        }
    }

    /// The id that an acknowledgement names: its payload, which is exactly
    /// four bytes, read as a little-endian number.
    pub open spec fn acknowledged_id(package: PackageView) -> Option<u32> {
        if package.data.len() == 4 {
            Some(le_value(package.data) as u32)
        } else {
            None
        }
    }

    /// The endpoint after an acknowledgement arrived on the connection
    /// `connection_id`: the packet it names waits no longer, and if that
    /// packet was a request for a connection, the connection is confirmed.
    pub open spec fn after_ack(self, connection_id: u32, package: PackageView) -> EndpointView {
        match Self::acknowledged_id(package) {
            Some(id) => {
                if self.acks.contains_key(id) {
                    EndpointView {
                        acks: self.acks.remove(id),
                        connections: if self.acks[id].cached_package.header.method_type is Connect
                            && self.connections.contains_key(connection_id) {
                            self.connections.insert(
                                connection_id,
                                self.connections[connection_id].with_state(
                                    ConnectionState::Connected,
                                ),
                            )
                        } else {
                            self.connections
                        },
                        ..self
                    }
                } else {
                    self
                }
            },
            None => self,
        }
    }

    /// The endpoint after a packet for a connection in the table was
    /// dispatched by its method.
    pub open spec fn after_method(self, package: PackageView) -> EndpointView {
        let connection_id = package.header.connection_id;
        match package.header.method_type {
            MethodType::Ack => self.after_ack(connection_id, package),
            MethodType::Connect => self,
            MethodType::Disconnect => self.after_disconnect(connection_id),
            _ => EndpointView {
                connections: self.connections.insert(
                    connection_id,
                    self.connections[connection_id].push(package),
                ),
                ..self
            },
        }
    }

    /// The endpoint after a packet arrived from `address`.
    pub open spec fn after_package(self, address: Seq<char>, package: PackageView)
        -> EndpointView {
        if self.admits(package) {
            self.after_admission(address, package).after_method(package)
        } else {
            self
        }
    }

    /// The acknowledgement that goes out for a packet that arrived from
    /// `address`, where `reply_id` is the id drawn for it.
    pub open spec fn package_reply(self, address: Seq<char>, package: PackageView, reply_id: u32)
        -> Option<DatagramView> {
        if self.admits(package) && package.header.ack {
            match self.after_admission(address, package).datagram(
                Self::ack_reply(
                    package.header.connection_id,
                    reply_id,
                    package.header.package_id,
                ),
            ) {
                Ok(datagram) => Some(datagram),
                Err(_) => None,
            }
        } else {
            None
        }
    }

    /// The connection that a packet closes: a notice for a connection in the
    /// table closes it.
    pub open spec fn package_closed(self, package: PackageView) -> Option<ClosedView> {
        if self.connections.contains_key(package.header.connection_id)
            && package.header.method_type is Disconnect {
            Some(self.closing(package.header.connection_id, None))
        } else {
            None
        }
    }

    /// The endpoint after a datagram arrived from `address`: one that holds
    /// no packet changes nothing.
    pub open spec fn after_datagram(self, address: Seq<char>, data: Seq<u8>) -> EndpointView {
        match Package::decoding(data) {
            Some(package) => self.after_package(address, package),
            None => self,
        }
    }

    /// The endpoint after the application took the packets of a connection.
    pub open spec fn after_collect(self, connection_id: u32) -> EndpointView {
        if self.connections.contains_key(connection_id) {
            EndpointView {
                connections: self.connections.insert(
                    connection_id,
                    self.connections[connection_id].drained(),
                ),
                ..self
            }
        } else {
            self
        }
    }

    /// Whether the packet `id` waits for an acknowledgement and has
    /// transmissions left.
    pub open spec fn due(self, id: u32) -> bool {
        self.acks.contains_key(id) && self.acks[id].attempts < self.config.max_ack_attempts
    }

    /// Whether the packet `id` waits for an acknowledgement and has no
    /// transmission left.
    pub open spec fn expired(self, id: u32) -> bool {
        self.acks.contains_key(id) && self.acks[id].attempts >= self.config.max_ack_attempts
    }

    /// Whether the pending packet `id` is a request for the connection
    /// `connection_id`.
    pub open spec fn requests(self, id: u32, connection_id: u32) -> bool {
        &&& self.acks.contains_key(id)
        &&& self.acks[id].cached_package.header.method_type is Connect
        &&& self.acks[id].cached_package.header.connection_id == connection_id
    }

    /// Whether one of the pending packets `ids` is a request for the
    /// connection `connection_id`.
    pub open spec fn requested_by(self, ids: Seq<u32>, connection_id: u32) -> bool {
        exists|k: int| 0 <= k < ids.len() && #[trigger] self.requests(ids[k], connection_id)
    }

    /// Whether the packet `id` is a request for the connection
    /// `connection_id` that has no transmission left.
    pub open spec fn gives_up(self, id: u32, connection_id: u32) -> bool {
        self.expired(id) && self.requests(id, connection_id)
    }

    /// Whether the connection `connection_id` is in the table and its
    /// request was never acknowledged: the handshake has timed out.
    pub open spec fn timed_out(self, connection_id: u32) -> bool {
        &&& self.connections.contains_key(connection_id)
        &&& exists|id: u32| #[trigger] self.gives_up(id, connection_id)
    }

    /// The endpoint after a round of the retransmit loop. Every packet that
    /// has transmissions left has been sent once more. Every other pending
    /// packet is given up, and with a request its connection.
    pub open spec fn after_tick(self) -> EndpointView {
        EndpointView {
            acks: Map::new(|id: u32| self.due(id), |id: u32| self.acks[id].retried()),
            connections: Map::new(
                |id: u32| self.connections.contains_key(id) && !self.timed_out(id),
                |id: u32| self.connections[id],
            ),
            ..self
        }
    }

    /// The datagram that a round of the retransmit loop sends again for the
    /// packet `id`: none where the packet has no transmission left, where
    /// its connection is not in the table or where it has no encoding.
    pub open spec fn retransmission(self, id: u32) -> Option<DatagramView> {
        if self.due(id) {
            match self.datagram(self.acks[id].cached_package) {
                Ok(datagram) => Some(datagram),
                Err(_) => None,
            }
        } else {
            None
        }
    }

    /// The endpoint after `stop`: it runs no longer and has no connection.
    pub open spec fn stopped(self) -> EndpointView {
        EndpointView { running: false, connections: Map::empty(), ..self }
    }
}

impl Endpoint {
    /// When the pending packet `id` was first sent.
    pub open spec fn first_sent(self, id: u32) -> std::time::Instant {
        self.ack_list@[id].first_sent_at
    }

    /// When the pending packet `id` was last sent.
    pub open spec fn last_sent(self, id: u32) -> std::time::Instant {
        self.ack_list@[id].last_sent_at
    }

    /// Creates the state of a new endpoint: running, with no connection and
    /// no pending acknowledgement.
    pub fn new(config: EndpointConfig) -> (r: Endpoint)
        ensures
            r@ == EndpointView::fresh(config@),
            r@.wf(),
    {
        let endpoint = Endpoint {
            running: true,
            config: config,
            new_connection_list: Vec::new(),
            connection_list: HashMap::new(),
            ack_list: HashMap::new(),
        };
        endpoint
    }

    /// The datagram of a package, addressed to the peer of its connection.
    pub fn datagram_for(&self, package: &Package) -> (r: Result<Datagram, ErrorKind>)
        ensures
            sent_view(r) == self@.datagram(package@),
    {
        let address = match self.connection_list.get(&package.header.connection_id) {
            Some(connection) => connection.address.clone(),
            None => {
                return Err(ErrorKind::UnknownConnection);
            },
        };
        let data = match package.encode() {
            Ok(data) => data,
            Err(e) => {
                return Err(e);
            },
        };
        Ok(Datagram { address, data })
    }

    /// Prepares a package for the socket and returns its datagram. A package
    /// that asks for an acknowledgement is kept for retransmission, unless
    /// one with its id is kept already.
    pub fn send(&mut self, package: Package) -> (r: Result<Datagram, ErrorKind>)
        ensures
            final(self)@ == old(self)@.after_send(package@),
            sent_view(r) == old(self)@.datagram(package@),
            forall|id: u32| #[trigger]
                old(self)@.acks.contains_key(id) ==> {
                    &&& final(self).first_sent(id) == old(self).first_sent(id)
                    &&& final(self).last_sent(id) == old(self).last_sent(id)
                },
            old(self)@.opens_ack(package@) ==> final(self).first_sent(package.header.package_id)
                == final(self).last_sent(package.header.package_id),
    {
        let exists = self.connection_list.contains_key(&package.header.connection_id);
        if !exists {
            return Err(ErrorKind::UnknownConnection);
        }
        let create_ack = package.header.ack && !self.ack_list.contains_key(
            &package.header.package_id,
        );

        if create_ack {
            let package_ack = PackageAck::new(&package);
            self.ack_list.insert(package.header.package_id, package_ack);
        }
        self.datagram_for(&package)
    }

    /// Takes the connection `connection_id` out of the table and marks it
    /// disconnected.
    fn take_connection(&mut self, connection_id: u32) -> (r: Option<Closed>)
        ensures
            final(self)@ == old(self)@.after_disconnect(connection_id),
            final(self).ack_list@ == old(self).ack_list@,
            closed_view(r) == old(self)@.displaced(connection_id),
    {
        match self.connection_list.remove(&connection_id) {
            Some(connection) => {
                let mut connection = connection;
                connection.set_state(ConnectionState::Disconnected);
                Some(Closed { id: connection_id, connection, farewell: None })
            },
            None => None,
        }
    }

    /// Puts a newly opened connection to `addr` into the table under
    /// `connection_id`.
    fn open_connection(&mut self, addr: &String, connection_id: u32)
        ensures
            final(self)@ == old(self)@.with_connection(addr@, connection_id),
    {
        let mut connection = Connection::new(addr, &connection_id).with_backlog(
            self.config.max_package_backlog,
        );
        connection.set_state(ConnectionState::Connected);
        self.connection_list.insert(connection_id, connection);
    }

    /// Opens a connection to `addr` under the given id and prepares its
    /// request, which goes out under `package_id` and asks for an
    /// acknowledgement.
    pub fn connect_with(&mut self, addr: &String, connection_id: u32, package_id: u32) -> (r:
        Opened)
        ensures
            final(self)@ == old(self)@.after_connect(addr@, connection_id, package_id),
            r.connection_id == connection_id,
            r.package_id == package_id,
            sent_view(r.request) == old(self)@.connect_datagram(addr@, connection_id, package_id),
            closed_view(r.displaced) == old(self)@.displaced(connection_id),
    {
        let mut package = Package::with_ids(connection_id, package_id);
        package.header.method_type = MethodType::Connect;
        package.header.ack = true;

        let displaced = self.take_connection(connection_id);
        self.open_connection(addr, connection_id);

        let request = self.send(package);
        Opened { connection_id, package_id, request, displaced }
    }

    /// An id for a new connection: `drawn` where it is free, else the least
    /// id that is free; `None` where every id is taken.
    pub fn fresh_connection_id(&self, drawn: u32) -> (r: Option<u32>)
        ensures
            is_free_id(self@.connections, drawn, r),
            r matches Some(id) ==> !self@.connections.contains_key(id),
    {
        assert(self@.connections.dom() =~= self.connection_list@.dom());
        let r = free_key(&self.connection_list, drawn);
        proof {
            lemma_free_id_of_domain(self.connection_list@, self@.connections, drawn, r);
        }
        r
    }

    /// An id for a new packet that asks for an acknowledgement: `drawn` where
    /// no packet waits under it, else the least id under which none waits;
    /// `None` where every id is taken.
    pub fn fresh_package_id(&self, drawn: u32) -> (r: Option<u32>)
        ensures
            is_free_id(self@.acks, drawn, r),
            r matches Some(id) ==> !self@.acks.contains_key(id),
    {
        assert(self@.acks.dom() =~= self.ack_list@.dom());
        let r = free_key(&self.ack_list, drawn);
        proof {
            lemma_free_id_of_domain(self.ack_list@, self@.acks, drawn, r);
        }
        r
    }

    /// Connects to another endpoint. A connection is put into the table
    /// under an id that was not in it, a random one wherever that is free,
    /// and the request for the peer is handed back. The request goes out
    /// under an id under which no packet waits, and waits for its
    /// acknowledgement. No other connection is touched. Where no id is left,
    /// nothing happens and `TableFull` is returned.
    pub fn connect(&mut self, addr: &String) -> (r: Result<Opened, ErrorKind>)
        ensures
            match r {
                Ok(opened) => {
                    &&& !old(self)@.full()
                    &&& !old(self)@.connections.contains_key(opened.connection_id)
                    &&& !old(self)@.acks.contains_key(opened.package_id)
                    &&& opened.displaced is None
                    &&& final(self)@ == old(self)@.after_connect(
                        addr@,
                        opened.connection_id,
                        opened.package_id,
                    )
                    &&& sent_view(opened.request) == old(self)@.connect_datagram(
                        addr@,
                        opened.connection_id,
                        opened.package_id,
                    )
                    &&& forall|id: u32| #[trigger]
                        old(self)@.connections.contains_key(id) ==> {
                            &&& final(self)@.connections.contains_key(id)
                            &&& final(self)@.connections[id] == old(self)@.connections[id]
                        }
                    &&& final(self)@.acks == old(self)@.acks.insert(
                        opened.package_id,
                        PackageAckView {
                            cached_package: EndpointView::connect_request(
                                opened.connection_id,
                                opened.package_id,
                            ),
                            attempts: 1,
                        },
                    )
                },
                Err(e) => e == ErrorKind::TableFull && old(self)@.full() && final(self)@ == old(
                    self,
                )@,
            },
    {
        let connection_id = match self.fresh_connection_id(random_u32()) {
            Some(connection_id) => connection_id,
            None => {
                return Err(ErrorKind::TableFull);
            },
        };
        let package_id = match self.fresh_package_id(random_u32()) {
            Some(package_id) => package_id,
            None => {
                return Err(ErrorKind::TableFull);
            },
        };
        Ok(self.connect_with(addr, connection_id, package_id))
    }

    /// Closes the connection `connection_id`, if it is in the table, and
    /// prepares the notice for its peer, which goes out under `package_id`.
    pub fn disconnect_with(&mut self, connection_id: &u32, package_id: u32) -> (r: Option<Closed>)
        ensures
            final(self)@ == old(self)@.after_disconnect(*connection_id),
            closed_view(r) == old(self)@.disconnected(*connection_id, package_id),
    {
        let mut package = Package::with_ids(*connection_id, package_id);
        package.header.method_type = MethodType::Disconnect;
        let farewell = match self.send(package) {
            Ok(datagram) => Some(datagram),
            Err(_) => None,
        };
        match self.take_connection(*connection_id) {
            Some(closed) => Some(Closed { id: closed.id, connection: closed.connection, farewell }),
            None => None,
        }
    }

    /// Disconnects from another endpoint. Nothing happens where the
    /// connection is not in the table.
    pub fn disconnect(&mut self, connection_id: &u32) -> (r: Option<Closed>)
        ensures
            final(self)@ == old(self)@.after_disconnect(*connection_id),
            exists|package_id: u32|
                closed_view(r) == #[trigger] old(self)@.disconnected(*connection_id, package_id),
    {
        let package_id = random_u32();
        self.disconnect_with(connection_id, package_id)
    }

    /// Handles a package with the `Ack` method that arrived on the
    /// connection `connection_id`.
    fn handle_ack(&mut self, connection_id: u32, package: &Package)
        ensures
            final(self)@ == old(self)@.after_ack(connection_id, package@),
    {
        if package.data.len() != 4 {
            return ;
        }
        let id = conv_slice_to_u32(package.data.as_slice());
        let package_ack_res = self.ack_list.remove(&id);
        let package_ack = match package_ack_res {
            Some(package_ack) => package_ack,
            None => {
                return ;
            },
        };
        match package_ack.cached_package.header.method_type {
            MethodType::Connect => {
                match self.connection_list.remove(&connection_id) {
                    Some(connection) => {
                        let mut connection = connection;
                        connection.set_state(ConnectionState::Connected);
                        self.connection_list.insert(connection_id, connection);
                    },
                    None => {},
                }
            },
            _ => {},
        };
    }

    /// Handles a package that arrived from `addr`; `reply_id` is the id
    /// under which its acknowledgement goes out, if it asks for one.
    pub fn handle_package_with(&mut self, addr: String, package: Package, reply_id: u32) -> (r:
        Dispatch)
        ensures
            final(self)@ == old(self)@.after_package(addr@, package@),
            datagram_view(r.reply) == old(self)@.package_reply(addr@, package@, reply_id),
            closed_view(r.closed) == old(self)@.package_closed(package@),
    {
        let connection_id = package.header.connection_id;
        // Check if there exists a connection:
        let exists = self.connection_list.contains_key(&connection_id);
        // Connection does not exist. It is either a new connection request or an
        // unknown connection
        if !exists {
            // If this package is not a connection request and from an unknown connection - drop it!
            match package.header.method_type {
                MethodType::Connect => {},
                _ => {
                    return Dispatch { reply: None, closed: None };
                },
            }
            // The package is a connection request. Create a new connection.
            self.open_connection(&addr, connection_id);
            self.new_connection_list.push(connection_id);
        }

        // NEXT: Handle package acknowledgement
        // If the incoming package has the `ack` flag set,
        // immediately prepare a response acknowledging the package.
        let mut reply: Option<Datagram> = None;
        if package.header.ack {
            let mut response_package = Package::with_ids(connection_id, reply_id);
            let data = conv_u32_to_bytes(&package.header.package_id);
            response_package.header.method_type = MethodType::Ack;
            response_package.data.push(data[0]);
            response_package.data.push(data[1]);
            response_package.data.push(data[2]);
            response_package.data.push(data[3]);
            assert(response_package@.data =~= le_bytes(package.header.package_id));
            reply = match self.send(response_package) {
                Ok(datagram) => Some(datagram),
                Err(_) => None,
            };
        }
        let mut closed: Option<Closed> = None;
        match package.header.method_type {
            MethodType::Ack => {
                self.handle_ack(connection_id, &package);
            },
            MethodType::Connect => {},
            MethodType::Disconnect => {
                closed = self.take_connection(connection_id);
            },
            _ => {
                // Pass the package to the connection.
                // It will be dropped if it is a duplicate.
                match self.connection_list.remove(&connection_id) {
                    Some(connection) => {
                        let mut connection = connection;
                        connection.push_package(package);
                        self.connection_list.insert(connection_id, connection);
                    },
                    None => {},
                }
            },
        };
        Dispatch { reply, closed }
    }

    /// Handles a package that arrived from `addr`. Its acknowledgement, if
    /// it asks for one, goes out under a random id.
    pub fn handle_package(&mut self, addr: String, package: Package) -> (r: Dispatch)
        ensures
            final(self)@ == old(self)@.after_package(addr@, package@),
            exists|reply_id: u32|
                datagram_view(r.reply) == #[trigger] old(self)@.package_reply(
                    addr@,
                    package@,
                    reply_id,
                ),
            closed_view(r.closed) == old(self)@.package_closed(package@),
    {
        let reply_id = random_u32();
        self.handle_package_with(addr, package, reply_id)
    }

    /// Takes a datagram that arrived from `addr`. One that holds no package
    /// is dropped, any other is handled.
    pub fn receive(&mut self, addr: String, data: Vec<u8>) -> (r: Dispatch)
        ensures
            final(self)@ == old(self)@.after_datagram(addr@, data@),
            match Package::decoding(data@) {
                Some(package) => {
                    &&& exists|reply_id: u32|
                        datagram_view(r.reply) == #[trigger] old(self)@.package_reply(
                            addr@,
                            package,
                            reply_id,
                        )
                    &&& closed_view(r.closed) == old(self)@.package_closed(package)
                },
                None => r.reply is None && r.closed is None,
            },
    {
        match Package::try_from(data) {
            Ok(package) => self.handle_package(addr, package),
            Err(_) => Dispatch { reply: None, closed: None },
        }
    }

    /// The ids of the connections in the table, in no particular order.
    pub fn collect_connections(&self) -> (r: Vec<u32>)
        ensures
            r@.no_duplicates(),
            r@.to_set() == self@.connections.dom(),
    {
        key_list(&self.connection_list)
    }

    /// The ids of the connections that peers opened since the last call,
    /// oldest first. The list is empty afterwards.
    pub fn collect_new_connections(&mut self) -> (r: Vec<u32>)
        ensures
            r@ == old(self)@.new_connections,
            final(self)@ == (EndpointView { new_connections: Seq::empty(), ..old(self)@ }),
    {
        let mut ret: Vec<u32> = Vec::new();
        std::mem::swap(&mut self.new_connection_list, &mut ret);
        ret
    }

    /// Takes the packages that wait in the connection `connection_id`,
    /// oldest first; `None` where the connection is not in the table.
    pub fn collect_packages(&mut self, connection_id: &u32) -> (r: Option<Vec<Package>>)
        ensures
            final(self)@ == old(self)@.after_collect(*connection_id),
            match r {
                Some(packages) => old(self)@.connections.contains_key(*connection_id)
                    && packages@.map_values(|p: Package| p@)
                    == old(self)@.connections[*connection_id].inbound,
                None => !old(self)@.connections.contains_key(*connection_id),
            },
    {
        match self.connection_list.remove(connection_id) {
            Some(connection) => {
                let mut connection = connection;
                let packages = connection.collect_packages();
                self.connection_list.insert(*connection_id, connection);
                Some(packages)
            },
            None => None,
        }
    }

    /// The time in milliseconds to sleep after a round of the retransmit loop
    /// that took `elapsed_ms`: what is left of the period of the
    /// configuration, whatever that period is.
    pub fn ack_loop_sleep(&self, elapsed_ms: u64) -> (r: u64)
        ensures
            r == period_sleep_ms(self@.config.ack_loop_time, elapsed_ms),
    {
        period_sleep(self.config.ack_loop_time, elapsed_ms)
    }

    /// Whether the endpoint has not been stopped.
    pub fn is_running(&self) -> (r: bool)
        ensures
            r == self@.running,
    {
        self.running
    }

    /// The first half of a round of the retransmit loop, which changes
    /// nothing: the datagrams to send again, the ids of the packets that
    /// have transmissions left and the ids of those that have none.
    fn scan_acks(&self) -> (r: (Vec<(u32, Datagram)>, Vec<u32>, Vec<u32>))
        ensures
            r.1@.no_duplicates(),
            r.2@.no_duplicates(),
            forall|id: u32| r.1@.contains(id) <==> self@.due(id),
            forall|id: u32| r.2@.contains(id) <==> self@.expired(id),
            forall|k: int|
                0 <= k < r.0@.len() ==> self@.retransmission((#[trigger] r.0@[k]).0) == Some(
                    r.0@[k].1@,
                ),
            forall|id: u32|
                self@.retransmission(id) is Some ==> exists|k: int|
                    0 <= k < r.0@.len() && (#[trigger] r.0@[k]).0 == id,
            forall|k: int, l: int|
                0 <= k < l < r.0@.len() ==> (#[trigger] r.0@[k]).0 != (#[trigger] r.0@[l]).0,
    {
        let ids = key_list(&self.ack_list);
        let mut resend: Vec<(u32, Datagram)> = Vec::new();
        let mut due: Vec<u32> = Vec::new();
        let mut expired: Vec<u32> = Vec::new();
        let mut i: usize = 0;
        while i < ids.len()
            invariant
                i <= ids@.len(),
                ids@.no_duplicates(),
                ids@.to_set() == self@.acks.dom(),
                due@.no_duplicates(),
                expired@.no_duplicates(),
                forall|id: u32|
                    due@.contains(id) <==> ids@.subrange(0, i as int).contains(id) && self@.due(
                        id,
                    ),
                forall|id: u32|
                    expired@.contains(id) <==> ids@.subrange(0, i as int).contains(id)
                        && self@.expired(id),
                forall|k: int|
                    0 <= k < resend@.len() ==> {
                        &&& self@.retransmission((#[trigger] resend@[k]).0) == Some(resend@[k].1@)
                        &&& ids@.subrange(0, i as int).contains(resend@[k].0)
                    },
                forall|id: u32|
                    ids@.subrange(0, i as int).contains(id) && self@.retransmission(id) is Some
                        ==> exists|k: int|
                        0 <= k < resend@.len() && (#[trigger] resend@[k]).0 == id,
                forall|k: int, l: int|
                    0 <= k < l < resend@.len() ==> (#[trigger] resend@[k]).0 != (
                    #[trigger] resend@[l]).0,
            decreases ids@.len() - i,
        {
            let id = ids[i];
            let ghost seen = ids@.subrange(0, i as int);
            let ghost old_due = due@;
            let ghost old_expired = expired@;
            let ghost old_resend = resend@;
            assert(ids@.subrange(0, i + 1) =~= seen.push(id));
            match self.ack_list.get(&id) {
                Some(package_ack) => {
                    if package_ack.attempts >= self.config.max_ack_attempts {
                        expired.push(id);
                    } else {
                        due.push(id);
                        match self.datagram_for(&package_ack.cached_package) {
                            Ok(datagram) => {
                                resend.push((id, datagram));
                                assert(resend@[old_resend.len() as int].0 == id);
                            },
                            Err(_) => {},
                        }
                    }
                },
                None => {},
            }
            proof {
                assert forall|k: int| 0 <= k < resend@.len() implies {
                    &&& self@.retransmission((#[trigger] resend@[k]).0) == Some(resend@[k].1@)
                    &&& seen.push(id).contains(resend@[k].0)
                } by {
                    if k >= old_resend.len() {
                        assert(seen.push(id)[seen.len() as int] == id);
                    }
                }
                assert forall|x: u32|
                    seen.push(id).contains(x) && self@.retransmission(x) is Some implies exists|
                    k: int,
                | 0 <= k < resend@.len() && (#[trigger] resend@[k]).0 == x by {
                    if x != id {
                        let k = choose|k: int|
                            0 <= k < old_resend.len() && (#[trigger] old_resend[k]).0 == x;
                        assert(resend@[k] == old_resend[k]);
                    }
                }
                assert forall|x: u32| due@.contains(x) <==> seen.push(id).contains(x) && self@.due(
                    x,
                ) by {
                    lemma_contains_push(seen, id, x);
                    lemma_contains_push(old_due, id, x);
                }
                assert forall|x: u32| expired@.contains(x) <==> seen.push(id).contains(x)
                    && self@.expired(x) by {
                    lemma_contains_push(seen, id, x);
                    lemma_contains_push(old_expired, id, x);
                }
                lemma_no_duplicates_push(old_due, id);
                lemma_no_duplicates_push(old_expired, id);
            }
            i = i + 1;
        }
        assert(ids@.subrange(0, i as int) =~= ids@);
        (resend, due, expired)
    }

    /// Counts one more transmission for the pending packet `id`, if there is
    /// one.
    fn count_attempt(&mut self, id: u32)
        ensures
            final(self)@ == (EndpointView {
                acks: if old(self)@.acks.contains_key(id) {
                    old(self)@.acks.insert(id, old(self)@.acks[id].retried())
                } else {
                    old(self)@.acks
                },
                ..old(self)@
            }),
            forall|other: u32| #[trigger]
                old(self)@.acks.contains_key(other) ==> final(self).first_sent(other) == old(
                    self,
                ).first_sent(other),
    {
        match self.ack_list.remove(&id) {
            Some(package_ack) => {
                self.ack_list.insert(id, package_ack.retried());
            },
            None => {},
        }
    }

    /// Takes the pending packet `id` out of the table, if it is there.
    fn take_ack(&mut self, id: u32) -> (r: Option<PackageAck>)
        ensures
            final(self)@ == (EndpointView { acks: old(self)@.acks.remove(id), ..old(self)@ }),
            final(self).ack_list@ == old(self).ack_list@.remove(id),
            match r {
                Some(package_ack) => old(self)@.acks.contains_key(id) && package_ack@ == old(
                    self,
                )@.acks[id],
                None => !old(self)@.acks.contains_key(id),
            },
    {
        self.ack_list.remove(&id)
    }

    /// Counts one more transmission for each of the packets in `due`.
    fn count_attempts(&mut self, due: &Vec<u32>)
        requires
            due@.no_duplicates(),
        ensures
            forall|id: u32| #[trigger]
                old(self)@.acks.contains_key(id) ==> final(self).first_sent(id) == old(
                    self,
                ).first_sent(id),
            final(self)@ == (EndpointView {
                acks: Map::new(
                    |id: u32| old(self)@.acks.contains_key(id),
                    |id: u32|
                        if due@.contains(id) {
                            old(self)@.acks[id].retried()
                        } else {
                            old(self)@.acks[id]
                        },
                ),
                ..old(self)@
            }),
    {
        let mut i: usize = 0;
        while i < due.len()
            invariant
                i <= due@.len(),
                due@.no_duplicates(),
                forall|id: u32| #[trigger]
                    old(self)@.acks.contains_key(id) ==> self.first_sent(id) == old(
                        self,
                    ).first_sent(id),
                self@ == (EndpointView {
                    acks: Map::new(
                        |id: u32| old(self)@.acks.contains_key(id),
                        |id: u32|
                            if due@.subrange(0, i as int).contains(id) {
                                old(self)@.acks[id].retried()
                            } else {
                                old(self)@.acks[id]
                            },
                    ),
                    ..old(self)@
                }),
            decreases due@.len() - i,
        {
            let id = due[i];
            let ghost seen = due@.subrange(0, i as int);
            let ghost before = *self;
            assert(due@.subrange(0, i + 1) =~= seen.push(id));
            self.count_attempt(id);
            assert forall|x: u32| #[trigger]
                old(self)@.acks.contains_key(x) implies self.first_sent(x) == old(
                self,
            ).first_sent(x) by {
                assert(before@.acks.contains_key(x));
            }
            assert forall|x: u32| seen.push(id).contains(x) <==> (seen.contains(x) || x == id) by {
                lemma_contains_push(seen, id, x);
            }
            i = i + 1;
        }
        assert(due@.subrange(0, i as int) =~= due@);
    }

    /// Gives up the packets in `expired`, and with each request among them
    /// its connection.
    fn give_up(&mut self, expired: &Vec<u32>) -> (r: Vec<Closed>)
        requires
            expired@.no_duplicates(),
        ensures
            forall|id: u32| #[trigger]
                final(self)@.acks.contains_key(id) ==> {
                    &&& final(self).first_sent(id) == old(self).first_sent(id)
                    &&& final(self).last_sent(id) == old(self).last_sent(id)
                },
            final(self)@ == (EndpointView {
                acks: old(self)@.acks.remove_keys(expired@.to_set()),
                connections: Map::new(
                    |id: u32|
                        old(self)@.connections.contains_key(id) && !old(self)@.requested_by(
                            expired@,
                            id,
                        ),
                    |id: u32| old(self)@.connections[id],
                ),
                ..old(self)@
            }),
            forall|k: int|
                0 <= k < r@.len() ==> {
                    &&& old(self)@.connections.contains_key((#[trigger] r@[k]).id)
                    &&& old(self)@.requested_by(expired@, r@[k].id)
                    &&& r@[k]@ == old(self)@.closing(r@[k].id, None)
                },
            forall|id: u32|
                old(self)@.connections.contains_key(id) && old(self)@.requested_by(expired@, id)
                    ==> exists|k: int| 0 <= k < r@.len() && (#[trigger] r@[k]).id == id,
            forall|k: int, l: int|
                0 <= k < l < r@.len() ==> (#[trigger] r@[k]).id != (#[trigger] r@[l]).id,
    {
        let mut closed: Vec<Closed> = Vec::new();
        let mut i: usize = 0;
        while i < expired.len()
            invariant
                i <= expired@.len(),
                expired@.no_duplicates(),
                forall|id: u32| #[trigger]
                    self@.acks.contains_key(id) ==> {
                        &&& self.first_sent(id) == old(self).first_sent(id)
                        &&& self.last_sent(id) == old(self).last_sent(id)
                    },
                self@ == (EndpointView {
                    acks: old(self)@.acks.remove_keys(expired@.subrange(0, i as int).to_set()),
                    connections: Map::new(
                        |id: u32|
                            old(self)@.connections.contains_key(id) && !old(self)@.requested_by(
                                expired@.subrange(0, i as int),
                                id,
                            ),
                        |id: u32| old(self)@.connections[id],
                    ),
                    ..old(self)@
                }),
                forall|k: int|
                    0 <= k < closed@.len() ==> {
                        &&& old(self)@.connections.contains_key((#[trigger] closed@[k]).id)
                        &&& old(self)@.requested_by(expired@.subrange(0, i as int), closed@[k].id)
                        &&& closed@[k]@ == old(self)@.closing(closed@[k].id, None)
                    },
                forall|id: u32|
                    old(self)@.connections.contains_key(id) && old(self)@.requested_by(
                        expired@.subrange(0, i as int),
                        id,
                    ) ==> exists|k: int| 0 <= k < closed@.len() && (#[trigger] closed@[k]).id == id,
                forall|k: int, l: int|
                    0 <= k < l < closed@.len() ==> (#[trigger] closed@[k]).id != (
                    #[trigger] closed@[l]).id,
            decreases expired@.len() - i,
        {
            let id = expired[i];
            let ghost seen = expired@.subrange(0, i as int);
            let ghost next = expired@.subrange(0, i + 1);
            let ghost old_closed = closed@;
            proof {
                assert(next =~= seen.push(id));
                assert(next.to_set() =~= seen.to_set().insert(id)) by {
                    assert forall|x: u32| next.contains(x) <==> (seen.contains(x) || x == id) by {
                        lemma_contains_push(seen, id, x);
                    }
                }
                assert forall|c: u32|
                    old(self)@.requested_by(next, c) <==> (old(self)@.requested_by(seen, c)
                        || old(self)@.requests(id, c)) by {
                    Self::lemma_requested_by_push(old(self)@, seen, id, c);
                }
            }
            let package_ack = self.take_ack(id);
            assert(self@.acks =~= old(self)@.acks.remove_keys(next.to_set()));
            match package_ack {
                Some(package_ack) => {
                    match package_ack.cached_package.header.method_type {
                        MethodType::Connect => {
                            let connection_id = package_ack.cached_package.header.connection_id;
                            // The handshake has timed out: the connection leaves the table.
                            match self.take_connection(connection_id) {
                                Some(connection) => {
                                    closed.push(connection);
                                    assert(closed@[old_closed.len() as int].id == connection_id);
                                },
                                None => {},
                            }
                        },
                        _ => {},
                    }
                },
                None => {},
            }
            assert forall|c: u32|
                old(self)@.connections.contains_key(c) && old(self)@.requested_by(next, c)
                implies exists|k: int| 0 <= k < closed@.len() && (#[trigger] closed@[k]).id
                == c by {
                if old(self)@.requested_by(seen, c) {
                    let k = choose|k: int|
                        0 <= k < old_closed.len() && (#[trigger] old_closed[k]).id == c;
                    assert(closed@[k] == old_closed[k]);
                }
            }
            i = i + 1;
        }
        assert(expired@.subrange(0, i as int) =~= expired@);
        closed
    }

    /// One more packet adds the connection it is a request for, if any, to
    /// the connections that the packets are requests for.
    proof fn lemma_requested_by_push(
        endpoint: EndpointView,
        ids: Seq<u32>,
        id: u32,
        connection_id: u32,
    )
        ensures
            endpoint.requested_by(ids.push(id), connection_id) <==> (endpoint.requested_by(
                ids,
                connection_id,
            ) || endpoint.requests(id, connection_id)),
    {
        let next = ids.push(id);
        if endpoint.requested_by(next, connection_id) {
            let k = choose|k: int|
                0 <= k < next.len() && #[trigger] endpoint.requests(next[k], connection_id);
            if k < ids.len() {
                assert(endpoint.requests(ids[k], connection_id));
            }
        }
        if endpoint.requested_by(ids, connection_id) {
            let k = choose|k: int|
                0 <= k < ids.len() && #[trigger] endpoint.requests(ids[k], connection_id);
            assert(endpoint.requests(next[k], connection_id));
        }
        if endpoint.requests(id, connection_id) {
            assert(endpoint.requests(next[ids.len() as int], connection_id));
        }
    }

    /// Counting the packets that have transmissions left and giving up the
    /// others is a round of the retransmit loop.
    proof fn lemma_tick(
        pre: EndpointView,
        counted: EndpointView,
        post: EndpointView,
        due: Seq<u32>,
        expired: Seq<u32>,
    )
        requires
            forall|id: u32| due.contains(id) <==> pre.due(id),
            forall|id: u32| expired.contains(id) <==> pre.expired(id),
            counted == (EndpointView {
                acks: Map::new(
                    |id: u32| pre.acks.contains_key(id),
                    |id: u32|
                        if due.contains(id) {
                            pre.acks[id].retried()
                        } else {
                            pre.acks[id]
                        },
                ),
                ..pre
            }),
            post == (EndpointView {
                acks: counted.acks.remove_keys(expired.to_set()),
                connections: Map::new(
                    |id: u32|
                        counted.connections.contains_key(id) && !counted.requested_by(expired, id),
                    |id: u32| counted.connections[id],
                ),
                ..counted
            }),
        ensures
            post == pre.after_tick(),
            forall|c: u32|
                counted.connections.contains_key(c) ==> (counted.requested_by(expired, c)
                    <==> pre.timed_out(c)),
    {
        assert forall|c: u32| counted.requested_by(expired, c) <==> (exists|id: u32| #[trigger]
            pre.gives_up(id, c)) by {
            if counted.requested_by(expired, c) {
                let k = choose|k: int|
                    0 <= k < expired.len() && #[trigger] counted.requests(expired[k], c);
                assert(pre.gives_up(expired[k], c));
            }
            if exists|id: u32| #[trigger] pre.gives_up(id, c) {
                let id = choose|id: u32| #[trigger] pre.gives_up(id, c);
                let k = choose|k: int| 0 <= k < expired.len() && expired[k] == id;
                assert(counted.requests(expired[k], c));
            }
        }
    }

    /// One round of the retransmit loop. Every pending packet that has
    /// transmissions left is handed back for the socket and counted once
    /// more. Every other pending packet is given up; where it was the
    /// request for a connection, the connection is closed and handed back.
    pub fn ack_tick(&mut self) -> (r: Tick)
        ensures
            final(self)@ == old(self)@.after_tick(),
            forall|id: u32| #[trigger]
                final(self)@.acks.contains_key(id) ==> final(self).first_sent(id) == old(
                    self,
                ).first_sent(id),
            forall|k: int|
                0 <= k < r.resend@.len() ==> old(self)@.retransmission(
                    (#[trigger] r.resend@[k]).0,
                ) == Some(r.resend@[k].1@),
            forall|id: u32|
                old(self)@.retransmission(id) is Some ==> exists|k: int|
                    0 <= k < r.resend@.len() && (#[trigger] r.resend@[k]).0 == id,
            forall|k: int, l: int|
                0 <= k < l < r.resend@.len() ==> (#[trigger] r.resend@[k]).0 != (
                #[trigger] r.resend@[l]).0,
            forall|k: int|
                0 <= k < r.closed@.len() ==> {
                    &&& old(self)@.timed_out((#[trigger] r.closed@[k]).id)
                    &&& r.closed@[k]@ == old(self)@.closing(r.closed@[k].id, None)
                },
            forall|id: u32|
                old(self)@.timed_out(id) ==> exists|k: int|
                    0 <= k < r.closed@.len() && (#[trigger] r.closed@[k]).id == id,
            forall|k: int, l: int|
                0 <= k < l < r.closed@.len() ==> (#[trigger] r.closed@[k]).id != (
                #[trigger] r.closed@[l]).id,
    {
        // Read actions
        let (resend, due, expired) = self.scan_acks();
        // Write actions
        self.count_attempts(&due);
        let ghost counted = self@;
        let closed = self.give_up(&expired);
        proof {
            Self::lemma_tick(old(self)@, counted, self@, due@, expired@);
            assert forall|k: int| 0 <= k < closed@.len() implies {
                &&& old(self)@.timed_out((#[trigger] closed@[k]).id)
                &&& closed@[k]@ == old(self)@.closing(closed@[k].id, None)
            } by {
                assert(counted.connections.contains_key(closed@[k].id));
            }
        }
        Tick { resend, closed }
    }

    /// Stops the endpoint: it runs no longer, and every connection is closed
    /// and handed back with the notice for its peer.
    pub fn stop(&mut self) -> (r: Vec<Closed>)
        ensures
            final(self)@ == old(self)@.stopped(),
            forall|k: int|
                0 <= k < r@.len() ==> {
                    &&& old(self)@.connections.contains_key((#[trigger] r@[k]).id)
                    &&& exists|package_id: u32|
                        Some(r@[k]@) == #[trigger] old(self)@.disconnected(r@[k].id, package_id)
                },
            forall|id: u32|
                old(self)@.connections.contains_key(id) ==> exists|k: int|
                    0 <= k < r@.len() && (#[trigger] r@[k]).id == id,
            forall|k: int, l: int|
                0 <= k < l < r@.len() ==> (#[trigger] r@[k]).id != (#[trigger] r@[l]).id,
    {
        // Set running to false so the loops around the endpoint stop after the current step
        self.running = false;
        // The ids of the connections to remove
        let removal_list = self.collect_connections();
        let mut closed: Vec<Closed> = Vec::new();
        let mut i: usize = 0;
        while i < removal_list.len()
            invariant
                i <= removal_list@.len(),
                removal_list@.no_duplicates(),
                removal_list@.to_set() == old(self)@.connections.dom(),
                self@ == (EndpointView {
                    running: false,
                    connections: old(self)@.connections.remove_keys(
                        removal_list@.subrange(0, i as int).to_set(),
                    ),
                    ..old(self)@
                }),
                closed@.len() == i,
                forall|k: int|
                    0 <= k < i ==> {
                        &&& (#[trigger] closed@[k]).id == removal_list@[k]
                        &&& exists|package_id: u32|
                            Some(closed@[k]@) == #[trigger] old(self)@.disconnected(
                                closed@[k].id,
                                package_id,
                            )
                    },
            decreases removal_list@.len() - i,
        {
            let id = removal_list[i];
            let ghost seen = removal_list@.subrange(0, i as int);
            let ghost next = removal_list@.subrange(0, i + 1);
            let ghost before = self@;
            let ghost old_closed = closed@;
            proof {
                assert(next =~= seen.push(id));
                assert forall|x: u32| next.contains(x) <==> (seen.contains(x) || x == id) by {
                    lemma_contains_push(seen, id, x);
                }
            }
            let package_id = random_u32();
            match self.disconnect_with(&id, package_id) {
                Some(connection) => {
                    assert(before.disconnected(id, package_id) == old(self)@.disconnected(
                        id,
                        package_id,
                    ));
                    closed.push(connection);
                },
                None => {},
            }
            proof {
                assert forall|k: int| 0 <= k < i + 1 implies {
                    &&& (#[trigger] closed@[k]).id == removal_list@[k]
                    &&& exists|package_id: u32|
                        Some(closed@[k]@) == #[trigger] old(self)@.disconnected(
                            closed@[k].id,
                            package_id,
                        )
                } by {
                    if k < i {
                        assert(closed@[k] == old_closed[k]);
                    }
                }
            }
            i = i + 1;
        }
        proof {
            assert(removal_list@.subrange(0, i as int) =~= removal_list@);
            assert forall|id: u32| old(self)@.connections.contains_key(id) implies exists|k: int|
                0 <= k < closed@.len() && (#[trigger] closed@[k]).id == id by {
                let k = choose|k: int| 0 <= k < removal_list@.len() && removal_list@[k] == id;
                assert(closed@[k].id == id);
            }
        }
        closed
    }
}

/// A sequence with one more element holds what it held and that element.
proof fn lemma_contains_push(s: Seq<u32>, last: u32, x: u32)
    ensures
        s.push(last).contains(x) <==> (s.contains(x) || x == last),
{
    if s.push(last).contains(x) {
        let j = choose|j: int| 0 <= j < s.push(last).len() && s.push(last)[j] == x;
        if j < s.len() {
            assert(s[j] == x);
        }
    }
    if s.contains(x) {
        let j = choose|j: int| 0 <= j < s.len() && s[j] == x;
        assert(s.push(last)[j] == x);
    }
    if x == last {
        assert(s.push(last)[s.len() as int] == x);
    }
}

/// A sequence without duplicates stays so with a new element at its end.
proof fn lemma_no_duplicates_push(s: Seq<u32>, last: u32)
    requires
        s.no_duplicates(),
        !s.contains(last),
    ensures
        s.push(last).no_duplicates(),
{
    assert forall|i: int, j: int|
        0 <= i < s.push(last).len() && 0 <= j < s.push(last).len() && i != j implies s.push(
        last,
    )[i] != s.push(last)[j] by {
        if i < s.len() {
            assert(s.contains(s[i]));
        }
        if j < s.len() {
            assert(s.contains(s[j]));
        }
    }
}

/// Whether a table holds something under every id.
pub open spec fn holds_every_id<V>(table: Map<u32, V>) -> bool {
    table.len() > u32::MAX
}

/// Whether `id` is free in a table and every smaller id is taken.
pub open spec fn least_free<V>(table: Map<u32, V>, id: u32) -> bool {
    &&& !table.contains_key(id)
    &&& forall|smaller: u32| smaller < id ==> #[trigger] table.contains_key(smaller)
}

/// Whether `id` is the id that a table has free for a new entry when
/// `drawn` was drawn for it: none where it holds something under every id,
/// `drawn` where that is free, else the least id that is free. There is one
/// such answer and no other.
pub open spec fn is_free_id<V>(table: Map<u32, V>, drawn: u32, id: Option<u32>) -> bool {
    match id {
        None => holds_every_id(table),
        Some(id) => {
            &&& !holds_every_id(table)
            &&& if table.contains_key(drawn) {
                least_free(table, id)
            } else {
                id == drawn
            }
        },
    }
}

/// A table has one free id for a draw and no other.
pub proof fn lemma_free_id_is_unique<V>(
    table: Map<u32, V>,
    drawn: u32,
    a: Option<u32>,
    b: Option<u32>,
)
    requires
        is_free_id(table, drawn, a),
        is_free_id(table, drawn, b),
    ensures
        a == b,
{
    if a is Some && b is Some && table.contains_key(drawn) {
        if a.unwrap() < b.unwrap() {
            assert(table.contains_key(a.unwrap()));
        }
        if b.unwrap() < a.unwrap() {
            assert(table.contains_key(b.unwrap()));
        }
    }
}

/// Which id is free depends on the ids in the table alone.
proof fn lemma_free_id_of_domain<V, W>(a: Map<u32, V>, b: Map<u32, W>, drawn: u32, id: Option<u32>)
    requires
        a.dom() == b.dom(),
        is_free_id(a, drawn, id),
    ensures
        is_free_id(b, drawn, id),
{
    assert(a.contains_key(drawn) == b.contains_key(drawn));
    if id is Some {
        let free = id.unwrap();
        assert(a.contains_key(free) == b.contains_key(free));
        if a.contains_key(drawn) {
            assert forall|smaller: u32| smaller < free implies #[trigger] b.contains_key(
                smaller,
            ) by {
                assert(a.contains_key(smaller));
                assert(b.dom().contains(smaller));
            }
        }
    }
}

/// An id that is free in `table`: `drawn` where that is free, else the least
/// id that is free; `None` where every id is taken.
fn free_key<V>(table: &HashMap<u32, V>, drawn: u32) -> (r: Option<u32>)
    ensures
        is_free_id(table@, drawn, r),
{
    if table.len() > u32::MAX as usize {
        return None;
    }
    if !table.contains_key(&drawn) {
        return Some(drawn);
    }
    let mut candidate: u32 = 0;
    let ghost mut probed: Set<u32> = Set::empty();
    while table.contains_key(&candidate)
        invariant
            table@.dom().finite(),
            table@.dom().len() <= u32::MAX,
            probed.finite(),
            probed.len() == candidate,
            forall|id: u32| probed.contains(id) <==> id < candidate,
            probed.subset_of(table@.dom()),
        decreases u32::MAX - candidate,
    {
        proof {
            probed = probed.insert(candidate);
            lemma_len_subset(probed, table@.dom());
        }
        candidate = candidate + 1;
    }
    assert forall|smaller: u32| smaller < candidate implies #[trigger] table@.contains_key(
        smaller,
    ) by {
        assert(probed.contains(smaller));
    }
    Some(candidate)
}

/// The keys of a table, each once, in no particular order.
fn key_list<V>(table: &HashMap<u32, V>) -> (r: Vec<u32>)
    ensures
        r@.no_duplicates(),
        r@.to_set() == table@.dom(),
{
    let mut keys: Vec<u32> = Vec::new();
    let ghost all: Seq<&u32> = spec_keys_iter(table).remaining();
    for key in iter: table.keys()
        invariant
            iter.seq() == all,
            keys@.len() == iter.index(),
            forall|i: int| 0 <= i < keys@.len() ==> keys@[i] == *all[i],
    {
        keys.push(*key);
    }
    assert(keys@ =~= all.unref());
    keys
}

} // verus!
