//! The dialling side of a node in its simplest form: every discovered device
//! that the address tie-break gives us gets one attempt.
//!
//! [`crate::active`] does the same with retries and pauses in scanning. As
//! there, these functions take the decisions; whoever drives them performs what
//! the current phase asks for, within [`crate::active::OP_TIMEOUT_SECS`] where
//! the phase is limited in time, and reports the result as the next event. An
//! event that does not answer the current phase changes nothing.
use crate::active::Stage;
use crate::address::Address;
use crate::gatt_ids::{
    advertises_service, chat_characteristic, chat_characteristic_is_found,
    find_chat_characteristic, CharRef, ServiceInfo, CHAT_CHAR_UUID, SERVICE_UUID,
};
use crate::mesh::{
    mesh_inv, registering_adds_one_link, ui_view, unregister_removes_one_link,
    unregister_undoes_register, with_link, without_link, LinkId, Mesh, MeshView, UiEvent, UiView,
};
use crate::peer_registry::{claim_is_exclusive, claimed, released, PeerRegistry, RegistryView};
use crate::protocol::PacketView;
use vstd::prelude::*;

verus! {

/// What a scan reports.
#[derive(Debug, Clone, Copy, PartialEq, Eq)]
pub enum DiscoveryEvent {
    DeviceAdded(Address),
    Other,
}

/// The device to bridge, if any: one that was discovered and that the address
/// tie-break gives us. The peer connects to us otherwise.
pub fn bridge_candidate(
    registry: &PeerRegistry,
    event: DiscoveryEvent,
) -> (r: Option<Address>)
    ensures
        r == match event {
            DiscoveryEvent::DeviceAdded(addr) => if registry@.initiates(addr) {
                Some(addr)
            } else {
                None
            },
            DiscoveryEvent::Other => None,
        },
{
    match event {
        DiscoveryEvent::DeviceAdded(addr) => if registry.we_should_initiate(addr) {
            Some(addr)
        } else {
            None
        },
        DiscoveryEvent::Other => None,
    }
}

/// What has to be done next to bridge a device into the mesh.
#[derive(Debug, Clone, Copy, PartialEq, Eq, Structural)]
pub enum BridgePhase {
    ReadUuids,
    QueryConnection,
    Connect,
    ResolveServices,
    OpenWrite(CharRef),
    OpenNotify(CharRef),
    Serve(LinkId),
    /// Over, without an error.
    Done,
    /// Over, because a call failed or was not answered in time.
    Failed,
}

/// How the last thing that was done turned out.
#[derive(Debug, PartialEq, Eq)]
pub enum BridgeEvent {
    /// The UUIDs that the device advertises, if it does.
    Uuids(Option<Vec<u128>>),
    /// Whether the device is connected.
    Connection(bool),
    /// The services of the device, with the characteristics of ours.
    Services(Vec<ServiceInfo>),
    /// The call succeeded.
    Completed,
    /// The link closed.
    LinkClosed,
    /// The call was not answered in time.
    TimedOut,
    /// The call failed.
    Failed,
}

/// The stage that a phase belongs to, if it is limited in time.
pub open spec fn time_limit(phase: BridgePhase) -> Option<Stage> {
    match phase {
        BridgePhase::Connect => Some(Stage::Connect),
        BridgePhase::ResolveServices => Some(Stage::ServiceResolution),
        BridgePhase::OpenWrite(_) => Some(Stage::WriteIo),
        BridgePhase::OpenNotify(_) => Some(Stage::NotifyIo),
        _ => None,
    }
}

/// The stage that a phase belongs to, if what it asks for is given no more
/// than [`crate::active::OP_TIMEOUT_SECS`].
pub fn limited_stage(phase: BridgePhase) -> (stage: Option<Stage>)
    ensures
        stage == time_limit(phase),
{
    match phase {
        BridgePhase::Connect => Some(Stage::Connect),
        BridgePhase::ResolveServices => Some(Stage::ServiceResolution),
        BridgePhase::OpenWrite(_) => Some(Stage::WriteIo),
        BridgePhase::OpenNotify(_) => Some(Stage::NotifyIo),
        _ => None,
    }
}

/// Whether the UUIDs make a device one of our peers.
pub open spec fn is_peer(uuids: Option<Vec<u128>>) -> bool {
    uuids is Some && uuids->Some_0@.contains(SERVICE_UUID)
}

/// Whether nothing is left to do.
pub open spec fn is_over(phase: BridgePhase) -> bool {
    phase is Done || phase is Failed
}

/// The phase that follows. `taken` tells whether the address is claimed when
/// the event comes, `link` is the id that a new link would get.
pub open spec fn bridge_next(
    phase: BridgePhase,
    event: BridgeEvent,
    taken: bool,
    link: LinkId,
) -> BridgePhase {
    match (phase, event) {
        (BridgePhase::Done, _) => phase,
        (BridgePhase::ReadUuids, BridgeEvent::Uuids(uuids)) => if is_peer(uuids) && !taken {
            BridgePhase::QueryConnection
        } else {
            BridgePhase::Done
        },
        (BridgePhase::QueryConnection, BridgeEvent::Connection(up)) => if up {
            BridgePhase::ResolveServices
        } else {
            BridgePhase::Connect
        },
        (BridgePhase::Connect, BridgeEvent::Completed) => BridgePhase::ResolveServices,
        (BridgePhase::ResolveServices, BridgeEvent::Services(services)) => match chat_characteristic(
            services@,
        ) {
            Some(at) => BridgePhase::OpenWrite(at),
            None => BridgePhase::Done,
        },
        (BridgePhase::OpenWrite(at), BridgeEvent::Completed) => BridgePhase::OpenNotify(at),
        (BridgePhase::OpenNotify(_), BridgeEvent::Completed) => BridgePhase::Serve(link),
        (BridgePhase::Serve(_), BridgeEvent::LinkClosed) => BridgePhase::Done,
        (BridgePhase::Serve(_), _) => phase,
        (_, BridgeEvent::TimedOut) => if time_limit(phase) is Some {
            BridgePhase::Failed
        } else {
            phase
        },
        (_, BridgeEvent::Failed) => BridgePhase::Failed,
        _ => phase,
    }
}

/// What the step does to the registry: the address is claimed once the device
/// is known to be a peer, and given up at the end, whether the link closes, a
/// call fails or time runs out. Before the claim there is nothing to give up.
pub open spec fn bridge_registry(
    addr: Address,
    phase: BridgePhase,
    event: BridgeEvent,
    r: RegistryView,
) -> RegistryView {
    match (phase, event) {
        (BridgePhase::ReadUuids, BridgeEvent::Uuids(uuids)) => if is_peer(uuids) {
            claimed(r, addr)
        } else {
            r
        },
        (BridgePhase::ResolveServices, BridgeEvent::Services(services)) => if chat_characteristic(
            services@,
        ) is None {
            released(r, addr)
        } else {
            r
        },
        (BridgePhase::Serve(_), BridgeEvent::LinkClosed) => released(r, addr),
        (BridgePhase::Serve(_), _) => r,
        (_, BridgeEvent::TimedOut) => if time_limit(phase) is Some {
            released(r, addr)
        } else {
            r
        },
        (BridgePhase::ReadUuids, BridgeEvent::Failed) => r,
        (_, BridgeEvent::Failed) => if is_over(phase) {
            r
        } else {
            released(r, addr)
        },
        _ => r,
    }
}

/// What the step does to the mesh: the link is registered when both directions
/// are open, and removed when it closes.
pub open spec fn bridge_mesh(phase: BridgePhase, event: BridgeEvent, m: MeshView) -> MeshView {
    match (phase, event) {
        (BridgePhase::OpenNotify(_), BridgeEvent::Completed) => with_link(m),
        (BridgePhase::Serve(id), BridgeEvent::LinkClosed) => without_link(m, id),
        _ => m,
    }
}

/// Whether the step changes the number of links.
pub open spec fn bridge_changes_links(phase: BridgePhase, event: BridgeEvent) -> bool {
    (phase is OpenNotify && event is Completed) || (phase is Serve && event is LinkClosed)
}

/// Gives up the claimed address after a call that failed or was not answered
/// in time.
fn fail(addr: Address, registry: &mut PeerRegistry) -> (r: (BridgePhase, Option<UiEvent>))
    ensures
        r.0 == BridgePhase::Failed,
        r.1 is None,
        final(registry)@ == released(old(registry)@, addr),
{
    registry.release(addr);
    (BridgePhase::Failed, None)
}

/// Takes the next step in bridging a device into the mesh: is it one of our
/// peers, is nobody else linked to it, is it connected, where is the chat
/// characteristic, are both directions open, has the link closed.
pub fn try_bridge_device(
    addr: Address,
    phase: BridgePhase,
    event: BridgeEvent,
    registry: &mut PeerRegistry,
    mesh: &mut Mesh,
) -> (r: (BridgePhase, Option<UiEvent>))
    requires
        mesh_inv(old(mesh)@),
        phase is OpenNotify && event is Completed ==> old(mesh)@.next_link_id < LinkId::MAX,
    ensures
        mesh_inv(final(mesh)@),
        r.0 == bridge_next(
            phase,
            event,
            old(registry)@.active.contains(addr),
            old(mesh)@.next_link_id as LinkId,
        ),
        final(registry)@ == bridge_registry(addr, phase, event, old(registry)@),
        final(mesh)@ == bridge_mesh(phase, event, old(mesh)@),
        ui_view(r.1) == if bridge_changes_links(phase, event) {
            Some(UiView::LinkCountChanged(final(mesh)@.links.len()))
        } else {
            None
        },
{
    match phase {
        BridgePhase::ReadUuids => match event {
            BridgeEvent::Uuids(Some(uuids)) => if !advertises_service(&uuids) {
                (BridgePhase::Done, None)
            } else if registry.claim(addr) {
                (BridgePhase::QueryConnection, None)
            } else {
                (BridgePhase::Done, None)
            },
            BridgeEvent::Uuids(None) => (BridgePhase::Done, None),
            BridgeEvent::Failed => (BridgePhase::Failed, None),
            _ => (phase, None),
        },
        BridgePhase::QueryConnection => match event {
            BridgeEvent::Connection(up) => if up {
                (BridgePhase::ResolveServices, None)
            } else {
                (BridgePhase::Connect, None)
            },
            BridgeEvent::Failed => fail(addr, registry),
            _ => (phase, None),
        },
        BridgePhase::Connect => match event {
            BridgeEvent::Completed => (BridgePhase::ResolveServices, None),
            BridgeEvent::TimedOut | BridgeEvent::Failed => fail(addr, registry),
            _ => (phase, None),
        },
        BridgePhase::ResolveServices => match event {
            BridgeEvent::Services(services) => match find_chat_characteristic(&services) {
                Some(at) => (BridgePhase::OpenWrite(at), None),
                None => {
                    registry.release(addr);
                    (BridgePhase::Done, None)
                },
            },
            BridgeEvent::TimedOut | BridgeEvent::Failed => fail(addr, registry),
            _ => (phase, None),
        },
        BridgePhase::OpenWrite(at) => match event {
            BridgeEvent::Completed => (BridgePhase::OpenNotify(at), None),
            BridgeEvent::TimedOut | BridgeEvent::Failed => fail(addr, registry),
            _ => (phase, None),
        },
        BridgePhase::OpenNotify(_) => match event {
            BridgeEvent::Completed => {
                let (handle, ui) = mesh.register_link();
                (BridgePhase::Serve(handle.id), Some(ui))
            },
            BridgeEvent::TimedOut | BridgeEvent::Failed => fail(addr, registry),
            _ => (phase, None),
        },
        BridgePhase::Serve(id) => match event {
            BridgeEvent::LinkClosed => {
                let ui = mesh.unregister_link(id);
                registry.release(addr);
                (BridgePhase::Done, Some(ui))
            },
            _ => (phase, None),
        },
        BridgePhase::Done => (phase, None),
        BridgePhase::Failed => (phase, None),
    }
}

// ---------------------------------------------------------------------------
// Laws
// ---------------------------------------------------------------------------

/// What an attempt has come to.
pub struct BridgeState {
    pub phase: BridgePhase,
    pub registry: RegistryView,
    pub mesh: MeshView,
}

/// The state after a run of events, from the start of an attempt.
pub open spec fn bridge_run(
    addr: Address,
    events: Seq<BridgeEvent>,
    r: RegistryView,
    m: MeshView,
) -> BridgeState
    decreases events.len(),
{
    if events.len() == 0 {
        BridgeState { phase: BridgePhase::ReadUuids, registry: r, mesh: m }
    } else {
        let s = bridge_run(addr, events.drop_last(), r, m);
        BridgeState {
            phase: bridge_next(
                s.phase,
                events.last(),
                s.registry.active.contains(addr),
                s.mesh.next_link_id as LinkId,
            ),
            registry: bridge_registry(addr, s.phase, events.last(), s.registry),
            mesh: bridge_mesh(s.phase, events.last(), s.mesh),
        }
    }
}

/// Whether an attempt holds the claim on its address in this phase.
pub open spec fn bridge_holds_claim(phase: BridgePhase) -> bool {
    !(phase is ReadUuids) && !is_over(phase)
}

/// One step of an attempt keeps its claim in step with its phase, whatever the
/// registry holds: a step that holds no claim before or after leaves the
/// registry as it was, a claim is made only on an address that nobody holds,
/// one that is given up leaves the address free, and no other address is
/// touched.
pub proof fn bridge_step_is_balanced(
    addr: Address,
    phase: BridgePhase,
    event: BridgeEvent,
    r: RegistryView,
    link: LinkId,
)
    requires
        bridge_holds_claim(phase) ==> r.active.contains(addr),
    ensures
        ({
            let next = bridge_next(phase, event, r.active.contains(addr), link);
            let after = bridge_registry(addr, phase, event, r);
            &&& bridge_holds_claim(next) ==> after.active.contains(addr)
            &&& bridge_holds_claim(phase) && bridge_holds_claim(next) ==> after == r
            &&& bridge_holds_claim(phase) && !bridge_holds_claim(next)
                ==> !after.active.contains(addr)
            &&& !bridge_holds_claim(phase) && !bridge_holds_claim(next) ==> after == r
            &&& !bridge_holds_claim(phase) && bridge_holds_claim(next) ==> !r.active.contains(addr)
            &&& forall|other: Address|
                other != addr ==> #[trigger] after.active.contains(other) == r.active.contains(
                    other,
                )
            &&& after.pauses == r.pauses
            &&& after.our_addr == r.our_addr
        }),
{
    if r.active.contains(addr) {
        assert(claimed(r, addr).active =~= r.active);
    }
}

/// Time runs out exactly in the phases that are limited: there it ends the
/// attempt and leaves the address free, so that it can be dialled again, and
/// anywhere else it changes nothing.
pub proof fn bridge_times_out_by_its_limit(
    addr: Address,
    phase: BridgePhase,
    r: RegistryView,
    link: LinkId,
)
    ensures
        ({
            let next = bridge_next(
                phase,
                BridgeEvent::TimedOut,
                r.active.contains(addr),
                link,
            );
            let after = bridge_registry(addr, phase, BridgeEvent::TimedOut, r);
            match time_limit(phase) {
                Some(_) => next == BridgePhase::Failed && after == released(r, addr)
                    && !after.active.contains(addr),
                None => next == phase && after == r,
            }
        }),
{
}

/// An attempt on an address that nobody holds claims it while it works, and
/// leaves the registry as it found it when it is over.
pub proof fn bridge_gives_up_its_claim(
    addr: Address,
    events: Seq<BridgeEvent>,
    r: RegistryView,
    m: MeshView,
)
    requires
        !r.active.contains(addr),
    ensures
        bridge_run(addr, events, r, m).registry == if bridge_holds_claim(
            bridge_run(addr, events, r, m).phase,
        ) {
            claimed(r, addr)
        } else {
            r
        },
    decreases events.len(),
{
    claim_is_exclusive(r, addr);
    assert(released(r, addr).active =~= r.active);
    if events.len() > 0 {
        bridge_gives_up_its_claim(addr, events.drop_last(), r, m);
    }
}

/// An attempt on an address that is already linked backs off: it never gets
/// further than reading the UUIDs, and leaves the registry alone.
pub proof fn bridge_backs_off(
    addr: Address,
    events: Seq<BridgeEvent>,
    r: RegistryView,
    m: MeshView,
)
    requires
        r.active.contains(addr),
    ensures
        !bridge_holds_claim(bridge_run(addr, events, r, m).phase),
        bridge_run(addr, events, r, m).mesh == m,
        bridge_run(addr, events, r, m).registry == r,
    decreases events.len(),
{
    assert(claimed(r, addr).active =~= r.active);
    if events.len() > 0 {
        bridge_backs_off(addr, events.drop_last(), r, m);
    }
}

/// The link of an attempt is with the mesh exactly while it is served: when
/// the attempt is over, the links are the ones that were there before.
pub proof fn bridge_removes_its_link(
    addr: Address,
    events: Seq<BridgeEvent>,
    r: RegistryView,
    m: MeshView,
)
    requires
        mesh_inv(m),
        m.next_link_id < LinkId::MAX,
    ensures
        ({
            let s = bridge_run(addr, events, r, m);
            match s.phase {
                BridgePhase::Serve(id) => s.mesh == with_link(m) && id == m.next_link_id,
                _ => s.mesh.links == m.links && (is_over(s.phase) || s.mesh == m),
            }
        }),
    decreases events.len(),
{
    if events.len() > 0 {
        bridge_removes_its_link(addr, events.drop_last(), r, m);
        unregister_undoes_register(m);
    }
}

proof fn lemma_bridge_push(
    addr: Address,
    events: Seq<BridgeEvent>,
    event: BridgeEvent,
    r: RegistryView,
    m: MeshView,
)
    ensures
        bridge_run(addr, events.push(event), r, m) == ({
            let s = bridge_run(addr, events, r, m);
            BridgeState {
                phase: bridge_next(
                    s.phase,
                    event,
                    s.registry.active.contains(addr),
                    s.mesh.next_link_id as LinkId,
                ),
                registry: bridge_registry(addr, s.phase, event, s.registry),
                mesh: bridge_mesh(s.phase, event, s.mesh),
            }
        }),
{
    assert(events.push(event).drop_last() =~= events);
}

/// A complete peer that nobody holds is served. Whatever else a device
/// advertises and offers, and in whatever order: if our service is among its
/// UUIDs, it is connected or connects, the chat characteristic is among those
/// of our service, and both directions open, the attempt serves a link that is
/// with the mesh, next to all that were there before, and holds the address.
pub proof fn complete_peer_is_bridged(
    addr: Address,
    uuids: Vec<u128>,
    i: int,
    up: bool,
    services: Vec<ServiceInfo>,
    s: usize,
    c: usize,
    r: RegistryView,
    m: MeshView,
)
    requires
        mesh_inv(m),
        m.next_link_id < LinkId::MAX,
        !r.active.contains(addr),
        0 <= i < uuids@.len(),
        uuids@[i] == SERVICE_UUID,
        s < services@.len(),
        services@[s as int].uuid == SERVICE_UUID,
        c < services@[s as int].characteristics@.len(),
        services@[s as int].characteristics@[c as int] == CHAT_CHAR_UUID,
    ensures
        ({
            let end = bridge_run(
                addr,
                if up {
                    seq![
                        BridgeEvent::Uuids(Some(uuids)),
                        BridgeEvent::Connection(true),
                        BridgeEvent::Services(services),
                        BridgeEvent::Completed,
                        BridgeEvent::Completed,
                    ]
                } else {
                    seq![
                        BridgeEvent::Uuids(Some(uuids)),
                        BridgeEvent::Connection(false),
                        BridgeEvent::Completed,
                        BridgeEvent::Services(services),
                        BridgeEvent::Completed,
                        BridgeEvent::Completed,
                    ]
                },
                r,
                m,
            );
            &&& end.phase is Serve
            &&& end.registry.active.contains(addr)
            &&& !m.links.contains(end.phase->Serve_0)
            &&& end.mesh.links.len() == m.links.len() + 1
            &&& forall|other: LinkId| #[trigger]
                end.mesh.links.contains(other) <==> m.links.contains(other) || other
                    == end.phase->Serve_0
        }),
{
    let none = Seq::<BridgeEvent>::empty();
    let asked = none.push(BridgeEvent::Uuids(Some(uuids)));
    let answered = asked.push(BridgeEvent::Connection(up));
    let connected = if up {
        answered
    } else {
        answered.push(BridgeEvent::Completed)
    };
    let found = connected.push(BridgeEvent::Services(services));
    let writing = found.push(BridgeEvent::Completed);
    let open = writing.push(BridgeEvent::Completed);
    lemma_bridge_push(addr, none, BridgeEvent::Uuids(Some(uuids)), r, m);
    lemma_bridge_push(addr, asked, BridgeEvent::Connection(up), r, m);
    lemma_bridge_push(addr, answered, BridgeEvent::Completed, r, m);
    lemma_bridge_push(addr, connected, BridgeEvent::Services(services), r, m);
    lemma_bridge_push(addr, found, BridgeEvent::Completed, r, m);
    lemma_bridge_push(addr, writing, BridgeEvent::Completed, r, m);
    chat_characteristic_is_found(services@);
    registering_adds_one_link(
        m,
        PacketView { msg_id: seq![], ttl: 0, sender: seq![], payload: seq![] },
    );
    assert(uuids@.contains(SERVICE_UUID));
    assert(services@[s as int].characteristics@[c as int] == CHAT_CHAR_UUID);
    assert(up ==> open =~= seq![
        BridgeEvent::Uuids(Some(uuids)),
        BridgeEvent::Connection(true),
        BridgeEvent::Services(services),
        BridgeEvent::Completed,
        BridgeEvent::Completed,
    ]);
    assert(!up ==> open =~= seq![
        BridgeEvent::Uuids(Some(uuids)),
        BridgeEvent::Connection(false),
        BridgeEvent::Completed,
        BridgeEvent::Services(services),
        BridgeEvent::Completed,
        BridgeEvent::Completed,
    ]);
}

/// An attempt ends without an error for four reasons only: our service is not
/// among the UUIDs of the device, its address is already taken, the chat
/// characteristic is not among those of our service, or the link has closed.
pub proof fn bridge_ends_for_a_reason(
    phase: BridgePhase,
    event: BridgeEvent,
    taken: bool,
    link: LinkId,
)
    requires
        !(phase is Done),
        !(phase is Failed),
    ensures
        bridge_next(phase, event, taken, link) is Done <==> {
            ||| phase is ReadUuids && event == BridgeEvent::Uuids(None)
            ||| phase is ReadUuids && event is Uuids && taken
            ||| phase is ReadUuids && (event matches BridgeEvent::Uuids(Some(uuids))
                && forall|i: int| 0 <= i < uuids@.len() ==> #[trigger] uuids@[i] != SERVICE_UUID)
            ||| phase is ResolveServices && (event matches BridgeEvent::Services(services)
                && forall|s: usize, c: usize|
                s < services@.len() && services@[s as int].uuid == SERVICE_UUID && c
                    < services@[s as int].characteristics@.len()
                    ==> #[trigger] services@[s as int].characteristics@[c as int] != CHAT_CHAR_UUID)
            ||| phase is Serve && event is LinkClosed
        },
{
    if let BridgeEvent::Services(services) = event {
        chat_characteristic_is_found(services@);
    }
    if let BridgeEvent::Uuids(Some(uuids)) = event {
        if uuids@.contains(SERVICE_UUID) {
            let i = choose|i: int| 0 <= i < uuids@.len() && uuids@[i] == SERVICE_UUID;
            assert(uuids@[i] == SERVICE_UUID);
        } else {
            assert forall|i: int| 0 <= i < uuids@.len() implies #[trigger] uuids@[i]
                != SERVICE_UUID by {
                assert(uuids@.contains(uuids@[i]));
            }
        }
    }
}

/// An attempt waits for the answer that its phase asks for: the UUIDs, the
/// state of the connection, the services, that a call has succeeded, or that
/// the link has closed. Any other event changes nothing, but for a failure on
/// the way to a link, and for time that runs out while connecting, resolving
/// the services or opening a direction: those end the attempt as failed.
pub proof fn bridge_waits_for_its_answer(
    addr: Address,
    phase: BridgePhase,
    event: BridgeEvent,
    r: RegistryView,
    m: MeshView,
    link: LinkId,
)
    ensures
        ({
            let next = bridge_next(phase, event, r.active.contains(addr), link);
            let limited = phase is Connect || phase is ResolveServices || phase is OpenWrite
                || phase is OpenNotify;
            let on_the_way = limited || phase is ReadUuids || phase is QueryConnection;
            let answer = match phase {
                BridgePhase::ReadUuids => event is Uuids,
                BridgePhase::QueryConnection => event is Connection,
                BridgePhase::ResolveServices => event is Services,
                BridgePhase::Serve(_) => event is LinkClosed,
                BridgePhase::Done => false,
                BridgePhase::Failed => false,
                _ => event is Completed,
            };
            let failure = (on_the_way && event is Failed) || (limited && event is TimedOut);
            &&& failure ==> next == BridgePhase::Failed && bridge_mesh(phase, event, m) == m
            &&& !answer && !failure ==> next == phase && bridge_registry(addr, phase, event, r) == r
                && bridge_mesh(phase, event, m) == m
            &&& answer ==> next != phase && !(next is Failed)
        }),
        time_limit(BridgePhase::Connect) == Some(Stage::Connect),
        time_limit(BridgePhase::ResolveServices) == Some(Stage::ServiceResolution),
        phase is OpenWrite ==> time_limit(phase) == Some(Stage::WriteIo),
        phase is OpenNotify ==> time_limit(phase) == Some(Stage::NotifyIo),
{
}

/// The user interface is told of the number of links when the link of an
/// attempt comes up and when it closes, and at no other time. Then, and only
/// then, are the links of the mesh touched: the new one is added, or the closed
/// one is taken out, and no other.
pub proof fn bridge_tells_of_its_link(phase: BridgePhase, event: BridgeEvent, m: MeshView)
    requires
        mesh_inv(m),
        m.next_link_id < LinkId::MAX,
    ensures
        ({
            let after = bridge_mesh(phase, event, m);
            let comes_up = phase is OpenNotify && event is Completed;
            &&& bridge_changes_links(phase, event) <==> comes_up || (phase is Serve
                && event is LinkClosed)
            &&& !bridge_changes_links(phase, event) ==> after == m
            &&& comes_up ==> forall|other: LinkId| #[trigger]
                after.links.contains(other) <==> m.links.contains(other) || other
                    == m.next_link_id
            &&& phase matches BridgePhase::Serve(id) ==> event is LinkClosed ==> forall|
                other: LinkId,
            | #[trigger]
                after.links.contains(other) <==> m.links.contains(other) && other != id
        }),
{
    registering_adds_one_link(
        m,
        PacketView { msg_id: seq![], ttl: 0, sender: seq![], payload: seq![] },
    );
    if let BridgePhase::Serve(id) = phase {
        unregister_removes_one_link(m, id);
    }
}

} // verus!
