//! The accepting side of a node: other nodes' central role connects to our
//! GATT server, and each connected central becomes one link in the mesh.
//!
//! The Write and Notify events of one central can come in either order. The
//! first of them registers the link and stashes the receiving end of its
//! outgoing queue, which is picked up once the Notify event has come.
use crate::address::{address_number, lemma_number_determines, Address};
use crate::mesh::{
    after_incoming, flooded, incoming, mesh_inv, registering_adds_one_link, told, with_link,
    without_link, Delivery, LinkId, Mesh, MeshView, UiEvent, UiView,
};
use crate::protocol::{encoded, PacketView};
use crate::pump::{brings_bytes, on_read, on_write, ReadStep, WriteEvent};
use std::collections::HashMap;
use vstd::prelude::*;

verus! {

broadcast use vstd::std_specs::hash::group_hash_axioms;

// ---------------------------------------------------------------------------
// The stash
// ---------------------------------------------------------------------------

/// Things put aside under a link id until somebody picks them up.
#[verifier::reject_recursive_types(T)]
pub struct Stash<T> {
    items: HashMap<LinkId, T>,
}

impl<T> View for Stash<T> {
    type V = Map<LinkId, T>;

    closed spec fn view(&self) -> Map<LinkId, T> {
        self.items@
    }
}

impl<T> Stash<T> {
    /// An empty stash.
    pub fn new() -> (s: Stash<T>)
        ensures
            s@ == Map::<LinkId, T>::empty(),
    {
        Stash { items: HashMap::new() }
    }

    /// Puts something aside. What was there under the same id is dropped.
    pub fn insert(&mut self, id: LinkId, item: T)
        ensures
            final(self)@ == old(self)@.insert(id, item),
    {
        self.items.insert(id, item);
    }

    /// Picks up what was put aside under an id.
    pub fn take(&mut self, id: LinkId) -> (r: Option<T>)
        ensures
            r == if old(self)@.contains_key(id) {
                Some(old(self)@[id])
            } else {
                None
            },
            final(self)@ == old(self)@.remove(id),
    {
        self.items.remove(&id)
    }
}

// ---------------------------------------------------------------------------
// Connected centrals
// ---------------------------------------------------------------------------

/// What is known of one connected central: the mesh link, once there is one.
#[derive(Debug, Clone, Copy, PartialEq, Eq, Structural)]
pub struct PeerConn {
    pub link_id: Option<LinkId>,
}

/// The connected centrals by address.
pub struct Peers {
    conns: HashMap<u64, PeerConn>,
}

impl View for Peers {
    type V = Map<Address, PeerConn>;

    closed spec fn view(&self) -> Map<Address, PeerConn> {
        Map::new(
            |a: Address| self.conns@.contains_key(address_number(a@) as u64),
            |a: Address| self.conns@[address_number(a@) as u64],
        )
    }
}

impl Peers {
    /// Nobody is connected.
    pub fn new() -> (p: Peers)
        ensures
            p@ == Map::<Address, PeerConn>::empty(),
    {
        let p = Peers { conns: HashMap::new() };
        assert(p@ =~= Map::empty());
        p
    }

    /// What is known of the central at an address.
    fn get(&self, addr: Address) -> (r: Option<PeerConn>)
        ensures
            r == if self@.contains_key(addr) {
                Some(self@[addr])
            } else {
                None
            },
    {
        proof {
            lemma_number_determines(addr, addr);
        }
        match self.conns.get(&addr.number()) {
            Some(conn) => Some(*conn),
            None => None,
        }
    }

    /// Notes the link of the central at an address.
    fn set(&mut self, addr: Address, conn: PeerConn)
        ensures
            final(self)@ == old(self)@.insert(addr, conn),
    {
        let ghost before = self@;
        self.conns.insert(addr.number(), conn);
        proof {
            assert forall|a: Address|
                #![trigger self@.contains_key(a)]
                self@.contains_key(a) == before.insert(addr, conn).contains_key(a) && (
                self@.contains_key(a) ==> self@[a] == before.insert(addr, conn)[a]) by {
                lemma_number_determines(a, addr);
            }
            assert(self@ =~= before.insert(addr, conn));
        }
    }
}

/// The link of the central at an address, if it has one.
pub open spec fn link_of(peers: Map<Address, PeerConn>, addr: Address) -> Option<LinkId> {
    if peers.contains_key(addr) {
        peers[addr].link_id
    } else {
        None
    }
}

/// Everything that the accepting side keeps.
pub struct PeripheralView<T> {
    pub mesh: MeshView,
    pub peers: Map<Address, PeerConn>,
    pub stash: Map<LinkId, T>,
}

/// The state once the central at an address has a link: if it has none yet,
/// one is registered, and the receiving end of its outgoing queue is stashed.
pub open spec fn ensured<T>(s: PeripheralView<T>, addr: Address, outgoing: T) -> PeripheralView<T> {
    if link_of(s.peers, addr) is Some {
        s
    } else {
        let id = s.mesh.next_link_id as LinkId;
        PeripheralView {
            mesh: with_link(s.mesh),
            peers: s.peers.insert(addr, PeerConn { link_id: Some(id) }),
            stash: s.stash.insert(id, outgoing),
        }
    }
}

/// The link of a central, which is registered with the mesh the first time
/// this address is seen. `outgoing` is the receiving end of the queue that a
/// new link gets; without a new link it is dropped.
pub fn ensure_link<T>(
    mesh: &mut Mesh,
    peers: &mut Peers,
    stash: &mut Stash<T>,
    addr: Address,
    outgoing: T,
) -> (r: (LinkId, Option<UiEvent>))
    requires
        mesh_inv(old(mesh)@),
        link_of(old(peers)@, addr) is None ==> old(mesh)@.next_link_id < LinkId::MAX,
    ensures
        mesh_inv(final(mesh)@),
        (PeripheralView { mesh: final(mesh)@, peers: final(peers)@, stash: final(stash)@ })
            == ensured(
            PeripheralView { mesh: old(mesh)@, peers: old(peers)@, stash: old(stash)@ },
            addr,
            outgoing,
        ),
        link_of(final(peers)@, addr) == Some(r.0),
        r.1 is Some <==> link_of(old(peers)@, addr) is None,
        r.1 matches Some(ui) ==> ui@ == UiView::LinkCountChanged(final(mesh)@.links.len()),
{
    if let Some(conn) = peers.get(addr) {
        if let Some(id) = conn.link_id {
            return (id, None);
        }
    }
    let (handle, ui) = mesh.register_link();
    let id: LinkId = handle.id;
    peers.set(addr, PeerConn { link_id: Some(id) });
    stash.insert(id, outgoing);
    (id, Some(ui))
}

// ---------------------------------------------------------------------------
// GATT events
// ---------------------------------------------------------------------------

/// What the GATT server reports.
#[derive(Debug, Clone, Copy, PartialEq, Eq)]
pub enum ControlEvent {
    /// A central wants to write, and whether its request could be accepted.
    Write { addr: Address, accepted: bool },
    /// A central wants to be notified.
    Notify { addr: Address },
    /// The server is gone.
    Closed,
}

/// What to do about it.
#[derive(Debug, Clone, Copy, PartialEq, Eq, Structural)]
pub enum ControlStep {
    /// Start reading what the central writes on this link.
    SpawnReader(LinkId),
    /// Start writing out what is queued for this link.
    SpawnWriter(LinkId),
    /// Nothing.
    Ignore,
    /// Stop for good.
    Stop,
}

/// The address whose link an event is about.
pub open spec fn event_address(event: ControlEvent) -> Option<Address> {
    match event {
        ControlEvent::Write { addr, accepted } => if accepted {
            Some(addr)
        } else {
            None
        },
        ControlEvent::Notify { addr } => Some(addr),
        ControlEvent::Closed => None,
    }
}

/// Handles an event of the GATT server.
pub fn on_control_event<T>(
    mesh: &mut Mesh,
    peers: &mut Peers,
    stash: &mut Stash<T>,
    event: ControlEvent,
    outgoing: T,
) -> (r: (ControlStep, Option<UiEvent>))
    requires
        mesh_inv(old(mesh)@),
        event_address(event) matches Some(addr) ==> link_of(old(peers)@, addr) is None
            ==> old(mesh)@.next_link_id < LinkId::MAX,
    ensures
        mesh_inv(final(mesh)@),
        (PeripheralView { mesh: final(mesh)@, peers: final(peers)@, stash: final(stash)@ })
            == match event_address(event) {
            Some(addr) => ensured(
                PeripheralView { mesh: old(mesh)@, peers: old(peers)@, stash: old(stash)@ },
                addr,
                outgoing,
            ),
            None => PeripheralView {
                mesh: old(mesh)@,
                peers: old(peers)@,
                stash: old(stash)@,
            },
        },
        match event {
            ControlEvent::Write { addr, accepted } => if accepted {
                r.0 is SpawnReader && link_of(final(peers)@, addr) == Some(r.0->SpawnReader_0)
            } else {
                r.0 is Ignore
            },
            ControlEvent::Notify { addr } => r.0 is SpawnWriter && link_of(final(peers)@, addr)
                == Some(r.0->SpawnWriter_0),
            ControlEvent::Closed => r.0 is Stop,
        },
        r.1 is Some <==> event_address(event) is Some && link_of(
            old(peers)@,
            event_address(event)->Some_0,
        ) is None,
        r.1 matches Some(ui) ==> ui@ == UiView::LinkCountChanged(final(mesh)@.links.len()),
{
    match event {
        ControlEvent::Write { addr, accepted } => {
            if !accepted {
                return (ControlStep::Ignore, None);
            }
            let (id, ui) = ensure_link(mesh, peers, stash, addr, outgoing);
            (ControlStep::SpawnReader(id), ui)
        },
        ControlEvent::Notify { addr } => {
            let (id, ui) = ensure_link(mesh, peers, stash, addr, outgoing);
            (ControlStep::SpawnWriter(id), ui)
        },
        ControlEvent::Closed => (ControlStep::Stop, None),
    }
}

// ---------------------------------------------------------------------------
// Serving a link
// ---------------------------------------------------------------------------

/// What to do after a read on a link.
#[derive(Debug, PartialEq, Eq)]
pub enum ReaderStep {
    /// Perform what the packet asks for, and read on.
    Deliver(Delivery),
    /// The link was removed from the mesh: stop reading.
    Closed(UiEvent),
}

/// What to do next about the queue of a link.
#[derive(Debug, PartialEq, Eq)]
pub enum WriterStep {
    /// Send what comes next.
    Next,
    /// The link was removed from the mesh: stop writing.
    Closed(UiEvent),
}

/// Handles the outcome of a read on the link of a central. When the stream has
/// ended or failed, the link is removed.
pub fn reader_step(mesh: &mut Mesh, link: LinkId, read: Option<&[u8]>) -> (step: ReaderStep)
    requires
        mesh_inv(old(mesh)@),
    ensures
        mesh_inv(final(mesh)@),
        step is Deliver <==> (read matches Some(data) && data@.len() > 0),
        brings_bytes(read) ==> step is Deliver && exists|now: int|
            0 <= now <= u128::MAX && told(old(mesh)@, now) && step->Deliver_0@
                == #[trigger] incoming(
                old(mesh)@,
                link,
                read->Some_0@,
                now,
            ) && final(mesh)@ == after_incoming(old(mesh)@, read->Some_0@, now),
        !brings_bytes(read) ==> {
            &&& final(mesh)@ == without_link(old(mesh)@, link)
            &&& step is Closed
            &&& step->Closed_0@ == UiView::LinkCountChanged(final(mesh)@.links.len())
        },
{
    match on_read(mesh, link, read) {
        ReadStep::Deliver(delivery) => ReaderStep::Deliver(delivery),
        ReadStep::Stop => ReaderStep::Closed(mesh.unregister_link(link)),
    }
}

/// Handles the outcome of sending a queued packet to a central. When the queue
/// is closed or a write fails, the link is removed.
pub fn writer_step(mesh: &mut Mesh, link: LinkId, event: WriteEvent) -> (step: WriterStep)
    requires
        mesh_inv(old(mesh)@),
    ensures
        mesh_inv(final(mesh)@),
        event == WriteEvent::Written ==> step is Next && final(mesh)@ == old(mesh)@,
        event != WriteEvent::Written ==> {
            &&& final(mesh)@ == without_link(old(mesh)@, link)
            &&& step is Closed
            &&& step->Closed_0@ == UiView::LinkCountChanged(final(mesh)@.links.len())
        },
{
    if on_write(event) {
        WriterStep::Next
    } else {
        WriterStep::Closed(mesh.unregister_link(link))
    }
}

// ---------------------------------------------------------------------------
// Laws
// ---------------------------------------------------------------------------

/// What holds of the connected centrals at all times: no two of them share a
/// link, and their links have all been given out.
pub open spec fn peers_inv(peers: Map<Address, PeerConn>, next_link_id: int) -> bool {
    &&& forall|a: Address|
        (#[trigger] link_of(peers, a)) matches Some(id) ==> id < next_link_id
    &&& forall|a: Address, b: Address|
        a != b && (#[trigger] link_of(peers, a)) is Some ==> link_of(peers, a) != #[trigger] link_of(
            peers,
            b,
        )
}

/// Whichever of a central's events comes first registers its link; the others
/// find it and change nothing.
pub proof fn central_gets_one_link<T>(s: PeripheralView<T>, addr: Address, first: T, second: T)
    ensures
        link_of(ensured(s, addr, first).peers, addr) is Some,
        ensured(ensured(s, addr, first), addr, second) == ensured(s, addr, first),
        forall|other: Address|
            other != addr ==> #[trigger] link_of(ensured(s, addr, first).peers, other) == link_of(
                s.peers,
                other,
            ),
{
}

/// Different centrals get different links.
pub proof fn centrals_have_their_own_links<T>(s: PeripheralView<T>, addr: Address, outgoing: T)
    requires
        mesh_inv(s.mesh),
        s.mesh.next_link_id < LinkId::MAX,
        peers_inv(s.peers, s.mesh.next_link_id),
    ensures
        peers_inv(ensured(s, addr, outgoing).peers, ensured(s, addr, outgoing).mesh.next_link_id),
        peers_inv(Map::empty(), 0),
{
    let t = ensured(s, addr, outgoing);
    assert forall|a: Address| (#[trigger] link_of(t.peers, a)) matches Some(id) ==> id
        < t.mesh.next_link_id by {
        let before = link_of(s.peers, a);
    }
    assert forall|a: Address, b: Address| a != b && (#[trigger] link_of(t.peers, a)) is Some implies link_of(
        t.peers,
        a,
    ) != #[trigger] link_of(t.peers, b) by {
        let before = (link_of(s.peers, a), link_of(s.peers, b));
    }
}

/// What is stashed for a new link is picked up once, by the first to ask for
/// it.
pub proof fn stash_is_picked_up_once<T>(s: PeripheralView<T>, addr: Address, outgoing: T)
    requires
        link_of(s.peers, addr) is None,
    ensures
        ({
            let t = ensured(s, addr, outgoing);
            let id = link_of(t.peers, addr)->Some_0;
            &&& t.stash.contains_key(id) && t.stash[id] == outgoing
            &&& !t.stash.remove(id).contains_key(id)
        }),
{
}

/// A central without a link gets one that is with the mesh: afterwards it is
/// among the links, next to all that were there before, and their number has
/// grown by one. No link had its id. Whatever is flooded next reaches the
/// central, and the receiving end of its queue is put aside for it. The rest of
/// the mesh, the other centrals and what was put aside for them stay as they
/// were.
pub proof fn new_central_joins_the_mesh<T>(
    s: PeripheralView<T>,
    addr: Address,
    outgoing: T,
    p: PacketView,
)
    requires
        mesh_inv(s.mesh),
        s.mesh.next_link_id < LinkId::MAX,
        link_of(s.peers, addr) is None,
    ensures
        ({
            let t = ensured(s, addr, outgoing);
            let id = link_of(t.peers, addr)->Some_0;
            &&& link_of(t.peers, addr) is Some
            &&& !s.mesh.links.contains(id)
            &&& forall|other: LinkId| #[trigger]
                t.mesh.links.contains(other) <==> s.mesh.links.contains(other) || other == id
            &&& t.mesh.links.len() == s.mesh.links.len() + 1
            &&& encoded(p) is Ok ==> flooded(t.mesh.links, p, None) is Some && flooded(
                t.mesh.links,
                p,
                None,
            )->Some_0.to.contains(id)
            &&& t.mesh.seen == s.mesh.seen && t.mesh.nickname == s.mesh.nickname
                && t.mesh.clock_start == s.mesh.clock_start && t.mesh.clock == s.mesh.clock
            &&& t.stash.contains_key(id) && t.stash[id] == outgoing
            &&& forall|other: LinkId|
                other != id ==> #[trigger] t.stash.contains_key(other) == s.stash.contains_key(
                    other,
                ) && (s.stash.contains_key(other) ==> t.stash[other] == s.stash[other])
            &&& forall|other: Address|
                other != addr ==> #[trigger] link_of(t.peers, other) == link_of(s.peers, other)
        }),
{
    registering_adds_one_link(s.mesh, p);
}

/// A central that has a link keeps it, and nothing at all changes.
pub proof fn known_central_keeps_its_link<T>(
    s: PeripheralView<T>,
    addr: Address,
    id: LinkId,
    outgoing: T,
)
    requires
        s.peers.contains_key(addr),
        s.peers[addr].link_id == Some(id),
    ensures
        ensured(s, addr, outgoing) == s,
        link_of(s.peers, addr) == Some(id),
{
}

/// The events that give a central its link are its request to be notified and
/// its request to write, if that could be accepted. A request that could not be
/// accepted, and the end of the server, give nobody a link.
pub proof fn events_that_make_links(addr: Address)
    ensures
        event_address(ControlEvent::Notify { addr }) == Some(addr),
        event_address(ControlEvent::Write { addr, accepted: true }) == Some(addr),
        event_address(ControlEvent::Write { addr, accepted: false }) is None,
        event_address(ControlEvent::Closed) is None,
{
}

/// The state after a run of events of the GATT server, each with the queue that
/// a new link would get.
pub open spec fn served<T>(s: PeripheralView<T>, events: Seq<(ControlEvent, T)>) -> PeripheralView<
    T,
>
    decreases events.len(),
{
    if events.len() == 0 {
        s
    } else {
        let before = served(s, events.drop_last());
        match event_address(events.last().0) {
            Some(addr) => ensured(before, addr, events.last().1),
            None => before,
        }
    }
}

/// Every central that has come, however many there are, has a link of its own
/// that is with the mesh, as long as no link closes.
pub proof fn every_central_is_with_the_mesh<T>(
    s: PeripheralView<T>,
    events: Seq<(ControlEvent, T)>,
)
    requires
        mesh_inv(s.mesh),
        s.mesh.next_link_id + events.len() <= LinkId::MAX,
        peers_inv(s.peers, s.mesh.next_link_id),
        forall|a: Address|
            (#[trigger] link_of(s.peers, a)) matches Some(id) ==> s.mesh.links.contains(id),
    ensures
        mesh_inv(served(s, events).mesh),
        served(s, events).mesh.next_link_id <= s.mesh.next_link_id + events.len(),
        peers_inv(served(s, events).peers, served(s, events).mesh.next_link_id),
        forall|a: Address|
            (#[trigger] link_of(served(s, events).peers, a)) matches Some(id) ==> served(
                s,
                events,
            ).mesh.links.contains(id),
        forall|k: int|
            0 <= k < events.len() ==> (event_address((#[trigger] events[k]).0) matches Some(addr)
                ==> link_of(served(s, events).peers, addr) is Some),
        forall|id: LinkId|
            s.mesh.links.contains(id) ==> #[trigger] served(s, events).mesh.links.contains(id),
    decreases events.len(),
{
    if events.len() > 0 {
        let front = events.drop_last();
        let n = events.len() - 1;
        every_central_is_with_the_mesh(s, front);
        let before = served(s, front);
        let after = served(s, events);
        if let Some(addr) = event_address(events[n].0) {
            if link_of(before.peers, addr) is None {
                let p = PacketView { msg_id: seq![], ttl: 0, sender: seq![], payload: seq![] };
                new_central_joins_the_mesh(before, addr, events[n].1, p);
                centrals_have_their_own_links(before, addr, events[n].1);
            }
        }
        assert forall|k: int| 0 <= k < events.len() implies (event_address(
            (#[trigger] events[k]).0,
        ) matches Some(addr) ==> link_of(after.peers, addr) is Some) by {
            if k < n {
                assert(front[k] == events[k]);
                if let Some(addr) = event_address(events[k].0) {
                    assert(link_of(before.peers, addr) is Some);
                }
            }
        }
        assert forall|a: Address|
            (#[trigger] link_of(after.peers, a)) matches Some(id) ==> after.mesh.links.contains(
                id,
            ) by {
            let earlier = link_of(before.peers, a);
            if let Some(id) = link_of(after.peers, a) {
                assert(earlier is Some ==> before.mesh.links.contains(id));
            }
        }
        assert forall|id: LinkId| s.mesh.links.contains(id) implies #[trigger] after.mesh.links.contains(
            id,
        ) by {
            assert(before.mesh.links.contains(id));
        }
    }
}

} // verus!
