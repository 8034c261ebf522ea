//! What the transport guarantees, proved of the endpoint's rules.
//!
//! The statements speak of endpoints as mathematical values and of the
//! functions that say what each operation does to them. The network stands
//! between two endpoints and is no part of them: a statement about delivery
//! starts at the packet that reached the receiver.

use vstd::prelude::*;
use crate::connection::{lemma_push_keeps_wf, ConnectionState};
use crate::endpoint::{DatagramView, EndpointView};
use crate::error::ErrorKind;
use crate::package::{lemma_codec_round_trip, MethodType, Package, PackageView};
use crate::util::lemma_le_value_of_bytes;

verus! {

impl EndpointView {
    /// The endpoint after `rounds` rounds of the retransmit loop in which
    /// nothing else happened.
    pub open spec fn ticks(self, rounds: nat) -> EndpointView
        decreases rounds,
    {
        if rounds == 0 {
            self
        } else {
            self.after_tick().ticks((rounds - 1) as nat)
        }
    }

    /// The endpoint after the same packet arrived `copies` times.
    pub open spec fn after_packages(self, address: Seq<char>, package: PackageView, copies: nat)
        -> EndpointView
        decreases copies,
    {
        if copies == 0 {
            self
        } else {
            self.after_packages(address, package, (copies - 1) as nat).after_package(
                address,
                package,
            )
        }
    }

    /// How many rounds of the retransmit loop still send the packet `id`.
    pub open spec fn budget(self, id: u32) -> nat {
        if self.due(id) {
            (self.config.max_ack_attempts - self.acks[id].attempts) as nat
        } else {
            0
        }
    }

    /// Whether a packet of this method is queued for the application.
    pub open spec fn queues(method: MethodType) -> bool {
        !(method is Ack) && !(method is Connect) && !(method is Disconnect)
    }
}

/// The connection that the endpoint opens is well formed.
proof fn lemma_opened_is_wf(endpoint: EndpointView, address: Seq<char>, connection_id: u32)
    ensures
        endpoint.opened(address, connection_id).wf(),
        endpoint.opened(address, connection_id).id == connection_id,
        endpoint.opened(address, connection_id).state is Connected,
{
    let opened = endpoint.opened(address, connection_id);
    assert(opened.queued_ids() =~= Seq::<u32>::empty());
    assert(opened.journal =~= opened.queued_ids().to_set());
}

/// `send` keeps the tables well formed.
pub proof fn lemma_send_keeps_wf(endpoint: EndpointView, package: PackageView)
    requires
        endpoint.wf(),
    ensures
        endpoint.after_send(package).wf(),
{
}

/// `connect` keeps the tables well formed.
pub proof fn lemma_connect_keeps_wf(
    endpoint: EndpointView,
    address: Seq<char>,
    connection_id: u32,
    package_id: u32,
)
    requires
        endpoint.wf(),
    ensures
        endpoint.after_connect(address, connection_id, package_id).wf(),
{
    lemma_opened_is_wf(endpoint, address, connection_id);
}

/// `disconnect` keeps the tables well formed.
pub proof fn lemma_disconnect_keeps_wf(endpoint: EndpointView, connection_id: u32)
    requires
        endpoint.wf(),
    ensures
        endpoint.after_disconnect(connection_id).wf(),
{
}

/// A packet that arrives keeps the tables well formed: every connection is
/// still open and under its own id, and no queue holds an id twice.
pub proof fn lemma_package_keeps_wf(
    endpoint: EndpointView,
    address: Seq<char>,
    package: PackageView,
)
    requires
        endpoint.wf(),
    ensures
        endpoint.after_package(address, package).wf(),
{
    let connection_id = package.header.connection_id;
    lemma_opened_is_wf(endpoint, address, connection_id);
    if endpoint.admits(package) {
        let admitted = endpoint.after_admission(address, package);
        assert(admitted.wf());
        assert(admitted.connections.contains_key(connection_id));
        lemma_push_keeps_wf(admitted.connections[connection_id], package);
    }
}

/// A datagram that arrives keeps the tables well formed.
pub proof fn lemma_datagram_keeps_wf(endpoint: EndpointView, address: Seq<char>, data: Seq<u8>)
    requires
        endpoint.wf(),
    ensures
        endpoint.after_datagram(address, data).wf(),
{
    match Package::decoding(data) {
        Some(package) => lemma_package_keeps_wf(endpoint, address, package),
        None => {},
    }
}

/// A round of the retransmit loop keeps the tables well formed.
pub proof fn lemma_tick_keeps_wf(endpoint: EndpointView)
    requires
        endpoint.wf(),
    ensures
        endpoint.after_tick().wf(),
{
}

/// Draining a connection keeps the tables well formed.
pub proof fn lemma_collect_keeps_wf(endpoint: EndpointView, connection_id: u32)
    requires
        endpoint.wf(),
    ensures
        endpoint.after_collect(connection_id).wf(),
{
    if endpoint.connections.contains_key(connection_id) {
        crate::connection::lemma_drained_is_wf(endpoint.connections[connection_id]);
    }
}

/// A packet that was sent with a request for an acknowledgement waits for
/// it: after `send` it is in the table of pending acknowledgements.
pub proof fn lemma_send_awaits_ack(endpoint: EndpointView, package: PackageView)
    requires
        endpoint.connections.contains_key(package.header.connection_id),
        package.header.ack,
    ensures
        endpoint.after_send(package).acks.contains_key(package.header.package_id),
        !endpoint.acks.contains_key(package.header.package_id) ==> endpoint.after_send(
            package,
        ).acks[package.header.package_id].cached_package == package,
{
}

/// Every pending packet that has transmissions left is sent again in each
/// round of the retransmit loop, as the same datagram that `send` made of
/// it, and is still pending afterwards with one transmission more.
pub proof fn lemma_tick_retransmits(endpoint: EndpointView, id: u32)
    requires
        endpoint.due(id),
    ensures
        endpoint.retransmission(id) == match endpoint.datagram(endpoint.acks[id].cached_package) {
            Ok(datagram) => Some(datagram),
            Err(_) => None::<DatagramView>,
        },
        endpoint.after_tick().acks.contains_key(id),
        endpoint.after_tick().acks[id].cached_package == endpoint.acks[id].cached_package,
        endpoint.after_tick().acks[id].attempts == endpoint.acks[id].attempts + 1,
{
}

/// A pending packet is retried in every round until its budget is used up:
/// as long as rounds are left it is still pending, with one transmission
/// counted for each round that has passed.
pub proof fn lemma_retried_within_budget(endpoint: EndpointView, id: u32, rounds: nat)
    requires
        endpoint.acks.contains_key(id),
        rounds <= endpoint.budget(id),
    ensures
        endpoint.ticks(rounds).acks.contains_key(id),
        endpoint.ticks(rounds).acks[id].cached_package == endpoint.acks[id].cached_package,
        endpoint.ticks(rounds).acks[id].attempts == endpoint.acks[id].attempts + rounds,
        endpoint.ticks(rounds).config == endpoint.config,
    decreases rounds,
{
    if rounds > 0 {
        lemma_tick_retransmits(endpoint, id);
        lemma_retried_within_budget(endpoint.after_tick(), id, (rounds - 1) as nat);
    }
}

/// Delivery: a packet for the application that reaches an endpoint is in the
/// queue of its connection afterwards, provided the connection is known and
/// open and its queue has room. A packet that is new to the journal goes to
/// the end of the queue.
pub proof fn lemma_delivery(endpoint: EndpointView, address: Seq<char>, package: PackageView)
    requires
        endpoint.connections.contains_key(package.header.connection_id),
        endpoint.connections[package.header.connection_id].wf(),
        endpoint.connections[package.header.connection_id].state is Connected,
        endpoint.connections[package.header.connection_id].inbound.len()
            < endpoint.connections[package.header.connection_id].max_backlog,
        EndpointView::queues(package.header.method_type),
    ensures
        endpoint.after_package(address, package).connections.contains_key(
            package.header.connection_id,
        ),
        endpoint.after_package(
            address,
            package,
        ).connections[package.header.connection_id].queued_ids().contains(
            package.header.package_id,
        ),
        endpoint.connections[package.header.connection_id].accepts(package)
            ==> endpoint.after_package(
            address,
            package,
        ).connections[package.header.connection_id].inbound
            == endpoint.connections[package.header.connection_id].inbound.push(package),
{
    let connection_id = package.header.connection_id;
    let before = endpoint.connections[connection_id];
    let after = endpoint.after_package(address, package).connections[connection_id];
    assert(after == before.push(package));
    lemma_push_keeps_wf(before, package);
    if before.accepts(package) {
        assert(after.queued_ids()[before.inbound.len() as int] == package.header.package_id);
    } else {
        assert(before.journal.contains(package.header.package_id));
        assert(before.queued_ids().to_set().contains(package.header.package_id));
    }
}

/// What `send` hands to the socket is read by the peer as the packet that
/// was sent.
pub proof fn lemma_datagram_is_read(endpoint: EndpointView, package: PackageView)
    ensures
        endpoint.datagram(package) matches Ok(datagram) ==> Package::decoding(datagram.data)
            == Some(package),
{
    lemma_codec_round_trip(package);
}

/// At least once: a datagram that `send` or a round of the retransmit loop
/// made of a packet for the application, once the network has carried it
/// to the receiver, leaves the packet in the queue of its connection there,
/// provided the connection is known and open and its queue has room.
pub proof fn lemma_at_least_once(
    sender: EndpointView,
    receiver: EndpointView,
    from: Seq<char>,
    package: PackageView,
)
    requires
        receiver.connections.contains_key(package.header.connection_id),
        receiver.connections[package.header.connection_id].wf(),
        receiver.connections[package.header.connection_id].state is Connected,
        receiver.connections[package.header.connection_id].inbound.len()
            < receiver.connections[package.header.connection_id].max_backlog,
        EndpointView::queues(package.header.method_type),
    ensures
        sender.datagram(package) matches Ok(datagram) ==> receiver.after_datagram(
            from,
            datagram.data,
        ).connections[package.header.connection_id].queued_ids().contains(
            package.header.package_id,
        ),
        forall|id: u32|
            sender.acks.contains_key(id) && sender.acks[id].cached_package == package ==> (
            #[trigger] sender.retransmission(id) matches Some(datagram)
                ==> receiver.after_datagram(
                from,
                datagram.data,
            ).connections[package.header.connection_id].queued_ids().contains(
                package.header.package_id,
            )),
{
    lemma_datagram_is_read(sender, package);
    lemma_delivery(receiver, from, package);
}

/// At most once: a packet that was queued is not queued again when a
/// retransmission of it arrives before the application drains the
/// connection. The queue stays as it is.
pub proof fn lemma_at_most_once(
    endpoint: EndpointView,
    address: Seq<char>,
    package: PackageView,
    again: PackageView,
)
    requires
        endpoint.connections.contains_key(package.header.connection_id),
        endpoint.connections[package.header.connection_id].accepts(package),
        EndpointView::queues(package.header.method_type),
        EndpointView::queues(again.header.method_type),
        again.header.connection_id == package.header.connection_id,
        again.header.package_id == package.header.package_id,
    ensures
        endpoint.after_package(address, package).after_package(
            address,
            again,
        ).connections[package.header.connection_id] == endpoint.after_package(
            address,
            package,
        ).connections[package.header.connection_id],
{
    let connection_id = package.header.connection_id;
    let once = endpoint.after_package(address, package);
    assert(once.connections[connection_id] == endpoint.connections[connection_id].push(package));
    assert(once.connections[connection_id].journal.contains(package.header.package_id));
}

/// Exactly once: however often a packet for the application arrives before
/// the application drains its connection, the queue holds it once, at the
/// place where it first arrived.
pub proof fn lemma_exactly_once(
    endpoint: EndpointView,
    address: Seq<char>,
    package: PackageView,
    copies: nat,
)
    requires
        endpoint.connections.contains_key(package.header.connection_id),
        endpoint.connections[package.header.connection_id].wf(),
        endpoint.connections[package.header.connection_id].accepts(package),
        EndpointView::queues(package.header.method_type),
    ensures
        endpoint.after_package(address, package).after_packages(
            address,
            package,
            copies,
        ).connections[package.header.connection_id].inbound
            == endpoint.connections[package.header.connection_id].inbound.push(package),
        !endpoint.connections[package.header.connection_id].queued_ids().contains(
            package.header.package_id,
        ),
    decreases copies,
{
    let connection_id = package.header.connection_id;
    let before = endpoint.connections[connection_id];
    assert(!before.queued_ids().contains(package.header.package_id)) by {
        if before.queued_ids().contains(package.header.package_id) {
            assert(before.queued_ids().to_set().contains(package.header.package_id));
        }
    }
    if copies > 0 {
        lemma_exactly_once(endpoint, address, package, (copies - 1) as nat);
        let once = endpoint.after_package(address, package);
        let often = once.after_packages(address, package, (copies - 1) as nat);
        lemma_copies_change_one_connection(once, address, package, (copies - 1) as nat);
        assert(often.connections[connection_id].journal.contains(package.header.package_id));
    }
}

/// Copies of a queued packet leave its connection in the table, open, with
/// the packet's id in the journal.
proof fn lemma_copies_change_one_connection(
    endpoint: EndpointView,
    address: Seq<char>,
    package: PackageView,
    copies: nat,
)
    requires
        endpoint.connections.contains_key(package.header.connection_id),
        endpoint.connections[package.header.connection_id].journal.contains(
            package.header.package_id,
        ),
        EndpointView::queues(package.header.method_type),
    ensures
        endpoint.after_packages(address, package, copies).connections.contains_key(
            package.header.connection_id,
        ),
        endpoint.after_packages(
            address,
            package,
            copies,
        ).connections[package.header.connection_id]
            == endpoint.connections[package.header.connection_id],
    decreases copies,
{
    if copies > 0 {
        lemma_copies_change_one_connection(endpoint, address, package, (copies - 1) as nat);
    }
}

/// An acknowledgement ends the wait: the packet it names is pending no
/// longer, and an acknowledged request leaves its connection in the table,
/// connected.
pub proof fn lemma_ack_ends_wait(
    endpoint: EndpointView,
    address: Seq<char>,
    acknowledgement: PackageView,
    id: u32,
)
    requires
        endpoint.connections.contains_key(acknowledgement.header.connection_id),
        acknowledgement.header.method_type is Ack,
        acknowledgement.data == crate::util::le_bytes(id),
    ensures
        !endpoint.after_package(address, acknowledgement).acks.contains_key(id),
        endpoint.after_package(address, acknowledgement).acks == endpoint.acks.remove(id),
        endpoint.after_package(address, acknowledgement).connections.dom()
            == endpoint.connections.dom(),
        endpoint.acks.contains_key(id) && endpoint.acks[id].cached_package.header.method_type
            is Connect ==> endpoint.after_package(
            address,
            acknowledgement,
        ).connections[acknowledgement.header.connection_id].state is Connected,
        forall|other: u32|
            other != acknowledgement.header.connection_id && endpoint.connections.contains_key(
                other,
            ) ==> #[trigger] endpoint.after_package(address, acknowledgement).connections[other]
                == endpoint.connections[other],
        endpoint.after_package(
            address,
            acknowledgement,
        ).connections[acknowledgement.header.connection_id]
            == endpoint.connections[acknowledgement.header.connection_id] || endpoint.after_package(
            address,
            acknowledgement,
        ).connections[acknowledgement.header.connection_id]
            == endpoint.connections[acknowledgement.header.connection_id].with_state(
            ConnectionState::Connected,
        ),
{
    lemma_le_value_of_bytes(id);
    assert(EndpointView::acknowledged_id(acknowledgement) == Some(id));
}

/// Handshake termination: a request for a connection that is never
/// acknowledged is given up after as many rounds of the retransmit loop as
/// it has transmissions left, and one more. The connection is then out of
/// the table, so none stays half open for ever.
pub proof fn lemma_handshake_times_out(endpoint: EndpointView, id: u32, connection_id: u32)
    requires
        endpoint.requests(id, connection_id),
    ensures
        !endpoint.ticks(endpoint.budget(id) + 1).acks.contains_key(id),
        !endpoint.ticks(endpoint.budget(id) + 1).connections.contains_key(connection_id),
    decreases endpoint.budget(id),
{
    if endpoint.due(id) {
        let next = endpoint.after_tick();
        lemma_tick_retransmits(endpoint, id);
        assert(next.requests(id, connection_id));
        assert(next.budget(id) == endpoint.budget(id) - 1);
        lemma_handshake_times_out(next, id, connection_id);
    } else {
        assert(endpoint.expired(id));
        assert(endpoint.gives_up(id, connection_id));
        assert(endpoint.after_tick().ticks(0) == endpoint.after_tick());
    }
}

/// Something that happens to an endpoint.
pub enum Event {
    /// The application sends a packet.
    Send { package: PackageView },
    /// The application opens a connection.
    Connect { address: Seq<char>, connection_id: u32, package_id: u32 },
    /// The application closes a connection.
    Disconnect { connection_id: u32 },
    /// A packet arrives.
    Package { address: Seq<char>, package: PackageView },
    /// A datagram arrives.
    Datagram { address: Seq<char>, data: Seq<u8> },
    /// The application drains a connection.
    Collect { connection_id: u32 },
    /// The application takes the list of new connections.
    CollectNew,
    /// The retransmit loop makes a round.
    Tick,
    /// The application stops the endpoint.
    Stop,
}

impl Event {
    /// The packet that the event brings to the endpoint, if it brings one.
    pub open spec fn arrival(self) -> Option<PackageView> {
        match self {
            Event::Package { package, .. } => Some(package),
            Event::Datagram { data, .. } => Package::decoding(data),
            _ => None,
        }
    }
}

impl EndpointView {
    /// The endpoint after an event.
    pub open spec fn step(self, event: Event) -> EndpointView {
        match event {
            Event::Send { package } => self.after_send(package),
            Event::Connect { address, connection_id, package_id } => self.after_connect(
                address,
                connection_id,
                package_id,
            ),
            Event::Disconnect { connection_id } => self.after_disconnect(connection_id),
            Event::Package { address, package } => self.after_package(address, package),
            Event::Datagram { address, data } => self.after_datagram(address, data),
            Event::Collect { connection_id } => self.after_collect(connection_id),
            Event::CollectNew => EndpointView { new_connections: Seq::empty(), ..self },
            Event::Tick => self.after_tick(),
            Event::Stop => self.stopped(),
        }
    }

    /// The endpoint after a run of events, the first of them first.
    pub open spec fn run(self, events: Seq<Event>) -> EndpointView
        decreases events.len(),
    {
        if events.len() == 0 {
            self
        } else {
            self.step(events.first()).run(events.drop_first())
        }
    }

    /// Whether the event settles the request `id` for the connection
    /// `connection_id`, which was pending before it: afterwards the request
    /// is pending no longer, and either a round of the retransmit loop gave
    /// it up and the connection is out of the table, or an acknowledgement
    /// arrived and the connection it came on is in the table, connected.
    pub open spec fn settles(self, event: Event, id: u32, connection_id: u32) -> bool {
        &&& self.requests(id, connection_id)
        &&& !self.step(event).acks.contains_key(id)
        &&& if event is Tick {
            !self.step(event).connections.contains_key(connection_id)
        } else {
            &&& event.arrival() is Some
            &&& event.arrival().unwrap().header.method_type is Ack
            &&& self.step(event).connections.contains_key(
                event.arrival().unwrap().header.connection_id,
            )
            &&& self.step(event).connections[event.arrival().unwrap().header.connection_id].state
                is Connected
        }
    }
}

/// How many rounds of the retransmit loop a run of events holds.
pub open spec fn ticks_in(events: Seq<Event>) -> nat
    decreases events.len(),
{
    if events.len() == 0 {
        0
    } else if events.first() is Tick {
        1 + ticks_in(events.drop_first())
    } else {
        ticks_in(events.drop_first())
    }
}

/// An event leaves a pending request as it is, counts one more transmission
/// for it, or settles it. Only a round of the retransmit loop counts.
pub proof fn lemma_step_and_request(
    endpoint: EndpointView,
    event: Event,
    id: u32,
    connection_id: u32,
)
    requires
        endpoint.requests(id, connection_id),
    ensures
        endpoint.step(event).config == endpoint.config,
        endpoint.settles(event, id, connection_id) || {
            &&& endpoint.step(event).requests(id, connection_id)
            &&& endpoint.step(event).budget(id) == if event is Tick {
                endpoint.budget(id) - 1
            } else {
                endpoint.budget(id) as int
            }
            &&& event is Tick ==> endpoint.budget(id) > 0
        },
{
    match event {
        Event::Tick => {
            if endpoint.due(id) {
                lemma_tick_retransmits(endpoint, id);
            } else {
                assert(endpoint.gives_up(id, connection_id));
            }
        },
        Event::Package { address, package } => {
            lemma_package_and_request(endpoint, address, package, id, connection_id);
        },
        Event::Datagram { address, data } => {
            match Package::decoding(data) {
                Some(package) => {
                    lemma_package_and_request(endpoint, address, package, id, connection_id);
                },
                None => {},
            }
        },
        _ => {},
    }
}

/// A packet that arrives leaves a pending request as it is, unless it is an
/// acknowledgement of it: then the request is pending no longer and the
/// connection that the acknowledgement came on is connected.
proof fn lemma_package_and_request(
    endpoint: EndpointView,
    address: Seq<char>,
    package: PackageView,
    id: u32,
    connection_id: u32,
)
    requires
        endpoint.requests(id, connection_id),
    ensures
        endpoint.after_package(address, package).config == endpoint.config,
        endpoint.after_package(address, package).acks.contains_key(id) ==> endpoint.after_package(
            address,
            package,
        ).acks[id] == endpoint.acks[id],
        !endpoint.after_package(address, package).acks.contains_key(id) ==> {
            &&& package.header.method_type is Ack
            &&& endpoint.after_package(address, package).connections.contains_key(
                package.header.connection_id,
            )
            &&& endpoint.after_package(
                address,
                package,
            ).connections[package.header.connection_id].state is Connected
        },
{
}

/// Handshake termination: a request for a connection does not stay pending
/// for ever, whatever else happens to the endpoint. Within as many rounds of
/// the retransmit loop as the request has transmissions left, and one more,
/// an event settles it: an acknowledgement leaves the connection connected,
/// or the retransmit loop gives the request up and closes the connection.
pub proof fn lemma_handshake_settles(
    endpoint: EndpointView,
    id: u32,
    connection_id: u32,
    events: Seq<Event>,
)
    requires
        endpoint.requests(id, connection_id),
        ticks_in(events) > endpoint.budget(id),
    ensures
        exists|n: int|
            0 <= n < events.len() && (#[trigger] endpoint.run(events.take(n))).settles(
                events[n],
                id,
                connection_id,
            ),
    decreases events.len(),
{
    let first = events.first();
    let rest = events.drop_first();
    lemma_step_and_request(endpoint, first, id, connection_id);
    if endpoint.settles(first, id, connection_id) {
        assert(events.take(0) =~= Seq::<Event>::empty());
        assert(endpoint.run(events.take(0)).settles(events[0], id, connection_id));
    } else {
        let next = endpoint.step(first);
        lemma_handshake_settles(next, id, connection_id, rest);
        let n = choose|n: int|
            0 <= n < rest.len() && (#[trigger] next.run(rest.take(n))).settles(
                rest[n],
                id,
                connection_id,
            );
        assert(events.take(n + 1).drop_first() =~= rest.take(n));
        assert(events.take(n + 1).first() == first);
        assert(endpoint.run(events.take(n + 1)) == next.run(rest.take(n)));
        assert(endpoint.run(events.take(n + 1)).settles(events[n + 1], id, connection_id));
    }
}

/// After `stop` the endpoint runs no longer, has no connection, and every
/// `send` fails with `UnknownConnection` and changes nothing.
pub proof fn lemma_stopped_refuses(endpoint: EndpointView, package: PackageView)
    ensures
        !endpoint.stopped().running,
        endpoint.stopped().connections.dom() == Set::<u32>::empty(),
        endpoint.stopped().datagram(package) == Err::<DatagramView, ErrorKind>(
            ErrorKind::UnknownConnection,
        ),
        endpoint.stopped().after_send(package) == endpoint.stopped(),
        endpoint.stopped().stopped() == endpoint.stopped(),
        endpoint.wf() ==> endpoint.stopped().wf(),
{
}

/// `disconnect` is idempotent: a second call finds no connection, hands
/// nothing back and changes nothing.
pub proof fn lemma_disconnect_twice(endpoint: EndpointView, connection_id: u32, package_id: u32)
    ensures
        endpoint.after_disconnect(connection_id).disconnected(connection_id, package_id) is None,
        endpoint.after_disconnect(connection_id).after_disconnect(connection_id)
            == endpoint.after_disconnect(connection_id),
{
    assert(endpoint.after_disconnect(connection_id).connections.remove(connection_id)
        =~= endpoint.after_disconnect(connection_id).connections);
}

} // verus!
