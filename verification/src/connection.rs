//! The state kept for one peer: its address, whether it is connected, the
//! journal that recognises retransmitted packets and the queue of packets
//! that wait for the application.

use vstd::prelude::*;
use std::collections::HashSet;
use std::collections::VecDeque;
use openssl::pkey::Public;
use openssl::rsa::Rsa;
use crate::error::ErrorKind;
use crate::package::{Package, PackageView};

verus! {

broadcast use vstd::std_specs::hash::group_hash_axioms;

/// An RSA key of OpenSSL. Nothing is read from it.
#[verifier::external_type_specification]
#[verifier::external_body]
#[verifier::reject_recursive_types(T)]
pub struct ExRsa<T>(openssl::rsa::Rsa<T>);

/// The tag of a key that has only public components.
#[verifier::external_type_specification]
#[verifier::external_body]
pub struct ExPublic(openssl::pkey::Public);

/// The errors that OpenSSL reports. Nothing is read from them.
#[verifier::external_type_specification]
#[verifier::external_body]
pub struct ExErrorStack(openssl::error::ErrorStack);

/// Calls `openssl::rsa::Rsa::public_key_from_der`, which reads a DER-encoded
/// SubjectPublicKeyInfo structure. Which bytes the linked OpenSSL takes for
/// a key is left open, and so is the key that comes.
#[verifier::external_body]
fn public_key_from_der(der: &[u8]) -> Result<Rsa<Public>, openssl::error::ErrorStack> {
    Rsa::public_key_from_der(der)
}

/// Calls `clone` on a key of OpenSSL, which hands out the same key under a
/// new owner.
#[verifier::external_body]
fn clone_public_key(key: &Rsa<Public>) -> (r: Rsa<Public>)
    ensures
        r == *key,
{
    key.clone()
}

/// The inbound bound of a connection that was given none.
pub const DEFAULT_MAX_PACKAGE_BACKLOG: u32 = 32;

/// Whether a connection is open.
#[derive(Clone, Copy, Debug, PartialEq, Eq, Structural)]
pub enum ConnectionState {
    Disconnected,
    Connected,
}

/// The level of encryption a connection has reached.
#[derive(Clone, Copy, Debug, PartialEq, Eq, Structural)]
pub enum CryptState {
    /// No key has been exchanged.
    Plain,
    Asymm,
    Symm,
}

/// The state of a connection to one peer.
#[derive(Debug)]
pub struct Connection {
    /// Unique connection id.
    pub id: u32,
    /// Address to respond to.
    pub address: String,
    /// Public key of the peer.
    pub public_key: Option<Rsa<Public>>,
    /// Secret key to decode data with.
    pub secret_key: Option<Vec<u8>>,
    /// The most recent round-trip estimate in milliseconds.
    pub ping: Option<u32>,
    /// Current connection state.
    pub state: ConnectionState,
    /// Current level of encryption.
    pub crypt_state: CryptState,
    /// The ids of the packets in the queue.
    pub package_journal: HashSet<u32>,
    /// The packets that wait for the application, oldest first.
    pub package_list: VecDeque<Package>,
    /// How many packets the queue holds at most.
    pub max_package_backlog: u32,
    /// How many packets were dropped because the queue was full.
    pub dropped_packages: u64,
}

/// A connection as a mathematical value.
#[verifier::ext_equal]
pub struct ConnectionView {
    pub id: u32,
    pub address: Seq<char>,
    pub public_key: Option<Rsa<Public>>,
    pub secret_key: Option<Seq<u8>>,
    pub ping: Option<u32>,
    pub state: ConnectionState,
    pub crypt_state: CryptState,
    pub journal: Set<u32>,
    pub inbound: Seq<PackageView>,
    pub max_backlog: u32,
    pub dropped: u64,
}

impl View for Connection {
    type V = ConnectionView;

    open spec fn view(&self) -> ConnectionView {
        ConnectionView {
            id: self.id,
            address: self.address@,
            public_key: self.public_key,
            secret_key: match self.secret_key {
                Some(key) => Some(key@),
                None => None,
            },
            ping: self.ping,
            state: self.state,
            crypt_state: self.crypt_state,
            journal: self.package_journal@,
            inbound: self.package_list@.map_values(|p: Package| p@),
            max_backlog: self.max_package_backlog,
            dropped: self.dropped_packages,
        }
    }
}

impl ConnectionView {
    /// A connection to `address` under `id` that has seen no packet yet.
    pub open spec fn fresh(address: Seq<char>, id: u32) -> ConnectionView {
        ConnectionView {
            id,
            address,
            public_key: None,
            secret_key: None,
            ping: None,
            state: ConnectionState::Disconnected,
            crypt_state: CryptState::Plain,
            journal: Set::empty(),
            inbound: Seq::empty(),
            max_backlog: DEFAULT_MAX_PACKAGE_BACKLOG,
            dropped: 0,
        }
    }

    /// The ids of the queued packets, oldest first.
    pub open spec fn queued_ids(self) -> Seq<u32> {
        self.inbound.map_values(|p: PackageView| p.header.package_id)
    }

    /// The journal holds the ids of the queued packets, no id is queued
    /// twice, and the queue keeps to its bound.
    pub open spec fn wf(self) -> bool {
        &&& self.journal == self.queued_ids().to_set()
        &&& self.queued_ids().no_duplicates()
        &&& self.inbound.len() <= self.max_backlog
    }

    /// The connection with another state.
    pub open spec fn with_state(self, state: ConnectionState) -> ConnectionView {
        ConnectionView { state, ..self }
    }

    /// The connection with another bound on its queue.
    pub open spec fn with_backlog(self, max_backlog: u32) -> ConnectionView {
        ConnectionView { max_backlog, ..self }
    }

    /// Whether `push` queues the packet: the connection is open, the packet
    /// is no duplicate and the queue has room.
    pub open spec fn accepts(self, package: PackageView) -> bool {
        &&& self.state is Connected
        &&& !self.journal.contains(package.header.package_id)
        &&& self.inbound.len() < self.max_backlog
    }

    /// The connection after a packet arrived for it. A closed connection
    /// takes nothing. A packet whose id is in the journal is a duplicate and
    /// is dropped. A packet that finds the queue full is dropped and counted.
    /// Any other packet goes to the end of the queue and its id into the
    /// journal.
    pub open spec fn push(self, package: PackageView) -> ConnectionView {
        if self.state is Disconnected || self.journal.contains(package.header.package_id) {
            self
        } else if self.inbound.len() >= self.max_backlog {
            ConnectionView {
                dropped: if self.dropped < u64::MAX {
                    (self.dropped + 1) as u64
                } else {
                    self.dropped
                },
                ..self
            }
        } else {
            ConnectionView {
                journal: self.journal.insert(package.header.package_id),
                inbound: self.inbound.push(package),
                ..self
            }
        }
    }

    /// The connection after the application took its packets: the queue and
    /// the journal are empty.
    pub open spec fn drained(self) -> ConnectionView {
        ConnectionView { journal: Set::empty(), inbound: Seq::empty(), ..self }
    }
}

impl Connection {
    /// Creates a new connection with a given remote address and id. It is
    /// closed until its state is set, and its queue holds up to
    /// `DEFAULT_MAX_PACKAGE_BACKLOG` packets.
    pub fn new(addr: &String, connection_id: &u32) -> (r: Self)
        ensures
            r@ == ConnectionView::fresh(addr@, *connection_id),
            r@.wf(),
    {
        let r = Connection {
            id: *connection_id,
            address: addr.clone(),
            ping: None,
            public_key: None,
            secret_key: None,
            state: ConnectionState::Disconnected,
            crypt_state: CryptState::Plain,
            package_journal: HashSet::new(),
            package_list: VecDeque::new(),
            max_package_backlog: DEFAULT_MAX_PACKAGE_BACKLOG,
            dropped_packages: 0,
        };
        assert(r@.inbound =~= Seq::empty());
        assert(r@.queued_ids() =~= Seq::empty());
        assert(r@.journal =~= r@.queued_ids().to_set());
        r
    }

    /// The same connection with room for `max_package_backlog` packets in its
    /// queue.
    pub fn with_backlog(self, max_package_backlog: u32) -> (r: Self)
        ensures
            r@ == self@.with_backlog(max_package_backlog),
    {
        let mut r = self;
        r.max_package_backlog = max_package_backlog;
        r
    }

    /// Sets the connection's state.
    pub fn set_state(&mut self, state: ConnectionState)
        ensures
            final(self)@ == old(self)@.with_state(state),
    {
        self.state = state;
    }

    /// The connection's state.
    pub fn get_state(&self) -> (r: ConnectionState)
        ensures
            r == self@.state,
    {
        self.state
    }

    /// Pushes a new package to the internal queue, dropping it if the
    /// connection is closed, if it is a duplicate or if the queue is full.
    pub fn push_package(&mut self, package: Package)
        ensures
            final(self)@ == old(self)@.push(package@),
    {
        match self.state {
            ConnectionState::Disconnected => {
                return ;
            },
            ConnectionState::Connected => {},
        }
        let exists = self.package_journal.contains(&package.header.package_id);
        if !exists {
            if self.package_list.len() >= self.max_package_backlog as usize {
                if self.dropped_packages < u64::MAX {
                    self.dropped_packages = self.dropped_packages + 1;
                }
                return ;
            }
            let package_id = package.header.package_id;
            let ghost queued = self.package_list@;
            self.package_list.push_back(package);
            self.package_journal.insert(package_id);
            assert(self.package_list@.map_values(|p: Package| p@) =~= queued.map_values(
                |p: Package| p@,
            ).push(package@));
        }
    }

    /// Takes what OpenSSL made of a key: a key is stored as the connection's
    /// public key, an error is answered with `InvalidKey` and the connection
    /// keeps the key it had.
    pub fn store_public_key(
        &mut self,
        parsed: Result<Rsa<Public>, openssl::error::ErrorStack>,
    ) -> (r: Result<(), ErrorKind>)
        ensures
            match parsed {
                Ok(key) => r is Ok && final(self)@ == (ConnectionView {
                    public_key: Some(key),
                    ..old(self)@
                }),
                Err(_) => r == Err::<(), ErrorKind>(ErrorKind::InvalidKey) && final(self)@ == old(
                    self,
                )@,
            },
    {
        match parsed {
            Ok(key) => {
                self.public_key = Some(key);
                Ok(())
            },
            Err(_) => Err(ErrorKind::InvalidKey),
        }
    }

    /// Sets the connection's public key from binary DER. Bytes that OpenSSL
    /// does not read as a key are refused, and the connection keeps the key
    /// it had.
    pub fn set_public_key(&mut self, pubkey_der: Vec<u8>) -> (r: Result<(), ErrorKind>)
        ensures
            match r {
                Ok(_) => final(self)@.public_key is Some && final(self)@ == (ConnectionView {
                    public_key: final(self)@.public_key,
                    ..old(self)@
                }),
                Err(e) => e == ErrorKind::InvalidKey && final(self)@ == old(self)@,
            },
    {
        let rsa_pubkey_res = public_key_from_der(pubkey_der.as_slice());
        self.store_public_key(rsa_pubkey_res)
    }

    /// Gets the connection's public key.
    pub fn get_public_key(&self) -> (r: Option<Rsa<Public>>)
        ensures
            r == self@.public_key,
    {
        match &self.public_key {
            Some(key) => Some(clone_public_key(key)),
            None => None,
        }
    }

    /// Sets the connection's decoding key.
    pub fn set_secret(&mut self, secret_key: Vec<u8>)
        ensures
            final(self)@ == (ConnectionView { secret_key: Some(secret_key@), ..old(self)@ }),
    {
        self.secret_key = Some(secret_key);
    }

    /// Gets the connection's decoding key.
    pub fn get_secret(&self) -> (r: Vec<u8>)
        requires
            self@.secret_key is Some,
        ensures
            Some(r@) == self@.secret_key,
    {
        match &self.secret_key {
            Some(key) => key.clone(),
            None => Vec::new(),
        }
    }

    /// Retrieves all packages that accumulated in the queue since the last
    /// call, oldest first, and clears the queue and the journal.
    pub fn collect_packages(&mut self) -> (r: Vec<Package>)
        ensures
            r@.map_values(|p: Package| p@) == old(self)@.inbound,
            final(self)@ == old(self)@.drained(),
    {
        let mut packages: VecDeque<Package> = VecDeque::new();
        std::mem::swap(&mut self.package_list, &mut packages);
        self.package_journal.clear();
        let ghost queued = packages@;
        let mut ret: Vec<Package> = Vec::new();
        while packages.len() > 0
            invariant
                ret@ + packages@ == queued,
            decreases packages@.len(),
        {
            match packages.pop_front() {
                Some(package) => {
                    ret.push(package);
                    assert(ret@ + packages@ =~= queued);
                },
                None => {},
            }
        }
        assert(ret@ =~= queued);
        assert(self.package_list@.map_values(|p: Package| p@) =~= Seq::<PackageView>::empty());
        ret
    }
}

impl ConnectionView {
    /// The connection after the packets of `packages` arrived one after the
    /// other, with no drain in between.
    pub open spec fn push_all(self, packages: Seq<PackageView>) -> ConnectionView
        decreases packages.len(),
    {
        if packages.len() == 0 {
            self
        } else {
            self.push_all(packages.drop_last()).push(packages.last())
        }
    }
}

/// A packet that arrives leaves a well formed connection well formed: the
/// journal still holds the ids of the queue, no id is queued twice and the
/// queue keeps to its bound.
pub proof fn lemma_push_keeps_wf(connection: ConnectionView, package: PackageView)
    requires
        connection.wf(),
    ensures
        connection.push(package).wf(),
{
    let id = package.header.package_id;
    let after = connection.push(package);
    if connection.accepts(package) {
        let ids = connection.queued_ids();
        assert(after.queued_ids() =~= ids.push(id));
        assert(!ids.contains(id)) by {
            if ids.contains(id) {
                assert(ids.to_set().contains(id));
            }
        }
        assert forall|i: int, j: int|
            0 <= i < ids.push(id).len() && 0 <= j < ids.push(id).len() && i != j implies ids.push(
            id,
        )[i] != ids.push(id)[j] by {
            if i < ids.len() {
                assert(ids.contains(ids[i]));
            }
            if j < ids.len() {
                assert(ids.contains(ids[j]));
            }
        }
        assert(after.journal =~= ids.push(id).to_set()) by {
            assert forall|x: u32| after.journal.contains(x) <==> ids.push(id).contains(x) by {
                if ids.push(id).contains(x) {
                    let k = choose|k: int| 0 <= k < ids.push(id).len() && ids.push(id)[k] == x;
                    if k < ids.len() {
                        assert(ids[k] == x);
                        assert(ids.contains(x));
                        assert(ids.to_set().contains(x));
                    }
                }
                if connection.journal.contains(x) {
                    assert(ids.to_set().contains(x));
                    let k = choose|k: int| 0 <= k < ids.len() && ids[k] == x;
                    assert(ids.push(id)[k] == x);
                }
                if x == id {
                    assert(ids.push(id)[ids.len() as int] == x);
                }
            }
        }
    } else {
        assert(after.queued_ids() == connection.queued_ids());
    }
}

/// A drained connection is well formed, whatever it held.
pub proof fn lemma_drained_is_wf(connection: ConnectionView)
    ensures
        connection.drained().wf(),
        connection.drained().inbound.len() == 0,
{
    assert(connection.drained().queued_ids() =~= Seq::<u32>::empty());
    assert(connection.drained().journal =~= connection.drained().queued_ids().to_set());
}

/// Between two drains the queue never holds two packets with one id,
/// whatever arrives and in whatever order.
pub proof fn lemma_push_all_keeps_wf(connection: ConnectionView, packages: Seq<PackageView>)
    requires
        connection.wf(),
    ensures
        connection.push_all(packages).wf(),
        connection.push_all(packages).queued_ids().no_duplicates(),
    decreases packages.len(),
{
    if packages.len() > 0 {
        lemma_push_all_keeps_wf(connection, packages.drop_last());
        lemma_push_keeps_wf(connection.push_all(packages.drop_last()), packages.last());
    }
}

/// Packets that arrive only add to the journal, and leave the state and the
/// bound of the queue as they are.
pub proof fn lemma_push_all_grows_journal(connection: ConnectionView, packages: Seq<PackageView>)
    ensures
        connection.journal.subset_of(connection.push_all(packages).journal),
        connection.push_all(packages).state == connection.state,
        connection.push_all(packages).max_backlog == connection.max_backlog,
        connection.inbound.len() <= connection.push_all(packages).inbound.len(),
    decreases packages.len(),
{
    if packages.len() > 0 {
        lemma_push_all_grows_journal(connection, packages.drop_last());
    }
}

/// A packet that arrives goes to the end of the queue or nowhere.
pub proof fn lemma_push_appends(connection: ConnectionView, package: PackageView)
    ensures
        connection.push(package).inbound == if connection.accepts(package) {
            connection.inbound.push(package)
        } else {
            connection.inbound
        },
{
}

/// Packets are queued in the order in which they were accepted: what was in
/// the queue stays at its front, in its order, whatever arrives later and
/// whatever of it is dropped.
pub proof fn lemma_push_all_keeps_order(connection: ConnectionView, packages: Seq<PackageView>)
    ensures
        connection.inbound.len() <= connection.push_all(packages).inbound.len(),
        connection.push_all(packages).inbound.subrange(0, connection.inbound.len() as int)
            == connection.inbound,
    decreases packages.len(),
{
    if packages.len() > 0 {
        lemma_push_all_keeps_order(connection, packages.drop_last());
        let before = connection.push_all(packages.drop_last());
        assert(before.push(packages.last()).inbound.subrange(0, connection.inbound.len() as int)
            =~= before.inbound.subrange(0, connection.inbound.len() as int));
    } else {
        assert(connection.inbound.subrange(0, connection.inbound.len() as int)
            =~= connection.inbound);
    }
}

/// De-duplication: of two packets with the same id at most one is queued
/// between two drains. Once the first is in the queue the second is dropped,
/// whatever arrived in between.
pub proof fn lemma_dedup(
    connection: ConnectionView,
    first: PackageView,
    between: Seq<PackageView>,
    second: PackageView,
)
    requires
        first.header.package_id == second.header.package_id,
        connection.accepts(first),
    ensures
        !connection.push(first).push_all(between).accepts(second),
        connection.push(first).push_all(between).push(second) == connection.push(first).push_all(
            between,
        ),
{
    lemma_push_all_grows_journal(connection.push(first), between);
    assert(connection.push(first).journal.contains(first.header.package_id));
}

} // verus!
