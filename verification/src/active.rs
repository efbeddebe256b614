//! The dialling side of a node: which discovered devices to connect to, how
//! one connection is set up, and how it is retried.
//!
//! Only one physical BLE connection can exist between any two addresses, so
//! for any pair of nodes only one side ever dials out (see
//! [`crate::peer_registry`]). Scanning pauses while a connection is being
//! established. Connecting, resolving the services and opening the two
//! directions of a link are each given [`OP_TIMEOUT_SECS`] seconds, and a
//! failed attempt is retried after [`RETRY_BACKOFF_SECS`] seconds, for as long
//! as the device is one of our peers.
//!
//! The functions here take the decisions. Whoever drives them performs what
//! the current phase asks for, within the time that it is given, and reports
//! the result as the next event. An event that does not answer the current
//! phase changes nothing.
use crate::address::{address_number, precedes_by_number, Address, AddressSet};
use crate::chat::{digit, digit_char};
use crate::gatt_ids::{
    advertises_service, chat_characteristic, chat_characteristic_is_found,
    find_chat_characteristic, is_last_chat, CharRef, ServiceInfo, CHAT_CHAR_UUID, SERVICE_UUID,
};
use crate::mesh::{
    flooded, mesh_inv, registering_adds_one_link, ui_view, unregister_removes_one_link, with_link,
    without_link, LinkId, Mesh, MeshView, UiEvent, UiView,
};
use crate::protocol::{encoded, PacketView};
use crate::peer_registry::{
    claim_is_exclusive, claimed, exactly_one_side_initiates, paused, released, resumed,
    PeerRegistry, RegistryView,
};
use vstd::prelude::*;

verus! {

/// How long to wait on any single BlueZ call before giving up on this
/// connection attempt, in seconds.
pub const OP_TIMEOUT_SECS: u64 = 12;

/// How long to wait before trying a device again, in seconds.
pub const RETRY_BACKOFF_SECS: u64 = 5;

// ---------------------------------------------------------------------------
// Scanning
// ---------------------------------------------------------------------------

/// Whether the radio may be used for scanning.
#[derive(Debug, Clone, Copy, PartialEq, Eq, Structural)]
pub enum ScanPermit {
    Allowed,
    Paused,
    /// Nobody will ever answer again.
    Gone,
}

/// What happens while a scan is running.
#[derive(Debug, Clone, Copy, PartialEq, Eq)]
pub enum ScanEvent {
    Permit(ScanPermit),
    DeviceAdded(Address),
    Other,
    Ended,
}

/// What to do next about scanning.
#[derive(Debug, Clone, Copy, PartialEq, Eq)]
pub enum ScanStep {
    /// Wait for the permit to change.
    AwaitPermit,
    /// Start a scan.
    StartScan,
    /// End the scan, and look at the permit again.
    EndScan,
    /// Go on with the scan.
    Continue,
    /// Start a retry loop for a device, and go on.
    Dial(Address),
    /// Stop for good.
    Finish,
}

/// The scanner remembers for which addresses a retry loop was started.
pub struct Scanner {
    dialled: AddressSet,
}

impl View for Scanner {
    type V = Set<Address>;

    closed spec fn view(&self) -> Set<Address> {
        self.dialled@
    }
}

/// What to do when no scan is running.
pub open spec fn scan_start(permit: ScanPermit) -> ScanStep {
    match permit {
        ScanPermit::Allowed => ScanStep::StartScan,
        ScanPermit::Paused => ScanStep::AwaitPermit,
        ScanPermit::Gone => ScanStep::Finish,
    }
}

/// What to do about an event of a running scan. A device is dialled if the
/// address tie-break says so and no retry loop runs for it yet.
pub open spec fn scan_step(
    dialled: Set<Address>,
    registry: RegistryView,
    event: ScanEvent,
) -> ScanStep {
    match event {
        ScanEvent::Permit(ScanPermit::Allowed) => ScanStep::Continue,
        ScanEvent::Permit(ScanPermit::Paused) => ScanStep::EndScan,
        ScanEvent::Permit(ScanPermit::Gone) => ScanStep::Finish,
        ScanEvent::DeviceAdded(addr) => if registry.initiates(addr) && !dialled.contains(addr) {
            ScanStep::Dial(addr)
        } else {
            ScanStep::Continue
        },
        ScanEvent::Other => ScanStep::Continue,
        ScanEvent::Ended => ScanStep::Finish,
    }
}

impl Scanner {
    /// A scanner that has not dialled anyone.
    pub fn new() -> (s: Scanner)
        ensures
            s@ == Set::<Address>::empty(),
    {
        Scanner { dialled: AddressSet::new() }
    }

    /// What to do while no scan is running: no scan is started while a
    /// connection attempt has asked for quiet radio time.
    pub fn before_scan(permit: ScanPermit) -> (step: ScanStep)
        ensures
            step == scan_start(permit),
    {
        match permit {
            ScanPermit::Allowed => ScanStep::StartScan,
            ScanPermit::Paused => ScanStep::AwaitPermit,
            ScanPermit::Gone => ScanStep::Finish,
        }
    }

    /// What to do about an event of a running scan.
    pub fn while_scanning(&mut self, registry: &PeerRegistry, event: ScanEvent) -> (step: ScanStep)
        ensures
            step == scan_step(old(self)@, registry@, event),
            final(self)@ == match step {
                ScanStep::Dial(addr) => old(self)@.insert(addr),
                _ => old(self)@,
            },
    {
        match event {
            ScanEvent::Permit(permit) => match permit {
                ScanPermit::Allowed => ScanStep::Continue,
                ScanPermit::Paused => ScanStep::EndScan,
                ScanPermit::Gone => ScanStep::Finish,
            },
            ScanEvent::DeviceAdded(addr) => {
                if !registry.we_should_initiate(addr) {
                    return ScanStep::Continue;
                }
                if !self.dialled.insert(addr) {
                    assert(self@ =~= old(self)@);
                    return ScanStep::Continue;
                }
                ScanStep::Dial(addr)
            },
            ScanEvent::Other => ScanStep::Continue,
            ScanEvent::Ended => ScanStep::Finish,
        }
    }
}

// ---------------------------------------------------------------------------
// Setting up one link
// ---------------------------------------------------------------------------

/// The calls on the way to a link that are given a time limit.
#[derive(Debug, Clone, Copy, PartialEq, Eq, Structural)]
pub enum Stage {
    Connect,
    ServiceResolution,
    WriteIo,
    NotifyIo,
}

/// How an attempt to set up a link ended.
#[derive(Debug, Clone, Copy, PartialEq, Eq, Structural)]
pub enum SetupOutcome {
    /// The device is not one of our peers.
    NotAPeer,
    /// The link is up and registered with the mesh.
    Linked(LinkId),
    /// A call failed.
    Failed,
    /// A call was not answered in time.
    TimedOut(Stage),
}

/// What has to be done next to set up a link.
#[derive(Debug, Clone, Copy, PartialEq, Eq, Structural)]
pub enum SetupPhase {
    ReadUuids,
    QueryConnection,
    Connect,
    ResolveServices,
    OpenWrite(CharRef),
    OpenNotify(CharRef),
    Done(SetupOutcome),
}

/// How the last thing that was done turned out.
#[derive(Debug, PartialEq, Eq)]
pub enum SetupEvent {
    /// The UUIDs that the device advertises, if it does.
    Uuids(Option<Vec<u128>>),
    /// Whether the device is connected.
    Connection(bool),
    /// The services of the device, with the characteristics of ours.
    Services(Vec<ServiceInfo>),
    /// The call succeeded.
    Completed,
    /// The call failed.
    Failed,
    /// The call was not answered in time.
    TimedOut,
}

/// The name of a stage in messages.
pub open spec fn stage_name(stage: Stage) -> Seq<char> {
    match stage {
        Stage::Connect => "Connect()"@,
        Stage::ServiceResolution => "service resolution"@,
        Stage::WriteIo => "write_io()"@,
        Stage::NotifyIo => "notify_io()"@,
    }
}

/// The two decimal digits of [`OP_TIMEOUT_SECS`].
pub open spec fn limit_digits() -> Seq<char> {
    seq![digit(OP_TIMEOUT_SECS as int / 10), digit(OP_TIMEOUT_SECS as int % 10)]
}

/// The message about a stage that was not finished in time.
pub fn timeout_err(stage: Stage) -> (message: String)
    ensures
        message@ == "timed out after "@ + limit_digits() + "s waiting for "@ + stage_name(stage),
{
    let mut message = "timed out after ".to_owned();
    message.push(digit_char((OP_TIMEOUT_SECS / 10) as u16));
    message.push(digit_char((OP_TIMEOUT_SECS % 10) as u16));
    assert(message@ =~= "timed out after "@ + limit_digits());
    message.append("s waiting for ");
    match stage {
        Stage::Connect => message.append("Connect()"),
        Stage::ServiceResolution => message.append("service resolution"),
        Stage::WriteIo => message.append("write_io()"),
        Stage::NotifyIo => message.append("notify_io()"),
    }
    message
}

/// The stage that a phase belongs to, if it is limited in time.
pub open spec fn setup_limit(phase: SetupPhase) -> Option<Stage> {
    match phase {
        SetupPhase::Connect => Some(Stage::Connect),
        SetupPhase::ResolveServices => Some(Stage::ServiceResolution),
        SetupPhase::OpenWrite(_) => Some(Stage::WriteIo),
        SetupPhase::OpenNotify(_) => Some(Stage::NotifyIo),
        _ => None,
    }
}

/// The stage that a phase belongs to, if what it asks for is given no more
/// than [`OP_TIMEOUT_SECS`].
pub fn limited_setup_stage(phase: SetupPhase) -> (stage: Option<Stage>)
    ensures
        stage == setup_limit(phase),
{
    match phase {
        SetupPhase::Connect => Some(Stage::Connect),
        SetupPhase::ResolveServices => Some(Stage::ServiceResolution),
        SetupPhase::OpenWrite(_) => Some(Stage::WriteIo),
        SetupPhase::OpenNotify(_) => Some(Stage::NotifyIo),
        _ => None,
    }
}

/// The phase that follows. `link` is the id that a new link would get.
pub open spec fn setup_next(phase: SetupPhase, event: SetupEvent, link: LinkId) -> SetupPhase {
    match (phase, event) {
        (SetupPhase::ReadUuids, SetupEvent::Uuids(uuids)) => if uuids is Some
            && uuids->Some_0@.contains(SERVICE_UUID) {
            SetupPhase::QueryConnection
        } else {
            SetupPhase::Done(SetupOutcome::NotAPeer)
        },
        (SetupPhase::QueryConnection, SetupEvent::Connection(up)) => if up {
            SetupPhase::ResolveServices
        } else {
            SetupPhase::Connect
        },
        (SetupPhase::Connect, SetupEvent::Completed) => SetupPhase::ResolveServices,
        (SetupPhase::Connect, SetupEvent::TimedOut) => SetupPhase::Done(
            SetupOutcome::TimedOut(Stage::Connect),
        ),
        (SetupPhase::ResolveServices, SetupEvent::Services(services)) => match chat_characteristic(
            services@,
        ) {
            Some(at) => SetupPhase::OpenWrite(at),
            None => SetupPhase::Done(SetupOutcome::NotAPeer),
        },
        (SetupPhase::ResolveServices, SetupEvent::TimedOut) => SetupPhase::Done(
            SetupOutcome::TimedOut(Stage::ServiceResolution),
        ),
        (SetupPhase::OpenWrite(at), SetupEvent::Completed) => SetupPhase::OpenNotify(at),
        (SetupPhase::OpenWrite(_), SetupEvent::TimedOut) => SetupPhase::Done(
            SetupOutcome::TimedOut(Stage::WriteIo),
        ),
        (SetupPhase::OpenNotify(_), SetupEvent::Completed) => SetupPhase::Done(
            SetupOutcome::Linked(link),
        ),
        (SetupPhase::OpenNotify(_), SetupEvent::TimedOut) => SetupPhase::Done(
            SetupOutcome::TimedOut(Stage::NotifyIo),
        ),
        (SetupPhase::Done(outcome), _) => SetupPhase::Done(outcome),
        (_, SetupEvent::Failed) => SetupPhase::Done(SetupOutcome::Failed),
        _ => phase,
    }
}

/// Whether this step registers a link with the mesh.
pub open spec fn setup_links(phase: SetupPhase, event: SetupEvent) -> bool {
    phase is OpenNotify && event is Completed
}

/// Takes the next step in setting up a link: is the device one of our peers,
/// is it connected, where is the chat characteristic, are both directions
/// open. When they are, the link is registered with the mesh.
pub fn establish_link(phase: SetupPhase, event: SetupEvent, mesh: &mut Mesh) -> (r: (
    SetupPhase,
    Option<UiEvent>,
))
    requires
        mesh_inv(old(mesh)@),
        setup_links(phase, event) ==> old(mesh)@.next_link_id < LinkId::MAX,
    ensures
        mesh_inv(final(mesh)@),
        r.0 == setup_next(phase, event, old(mesh)@.next_link_id as LinkId),
        final(mesh)@ == if setup_links(phase, event) {
            with_link(old(mesh)@)
        } else {
            old(mesh)@
        },
        ui_view(r.1) == if setup_links(phase, event) {
            Some(UiView::LinkCountChanged(final(mesh)@.links.len()))
        } else {
            None
        },
{
    match phase {
        SetupPhase::ReadUuids => match event {
            SetupEvent::Uuids(Some(uuids)) => if advertises_service(&uuids) {
                (SetupPhase::QueryConnection, None)
            } else {
                (SetupPhase::Done(SetupOutcome::NotAPeer), None)
            },
            SetupEvent::Uuids(None) => (SetupPhase::Done(SetupOutcome::NotAPeer), None),
            SetupEvent::Failed => (SetupPhase::Done(SetupOutcome::Failed), None),
            _ => (phase, None),
        },
        SetupPhase::QueryConnection => match event {
            SetupEvent::Connection(up) => if up {
                (SetupPhase::ResolveServices, None)
            } else {
                (SetupPhase::Connect, None)
            },
            SetupEvent::Failed => (SetupPhase::Done(SetupOutcome::Failed), None),
            _ => (phase, None),
        },
        SetupPhase::Connect => match event {
            SetupEvent::Completed => (SetupPhase::ResolveServices, None),
            SetupEvent::TimedOut => (
                SetupPhase::Done(SetupOutcome::TimedOut(Stage::Connect)),
                None,
            ),
            SetupEvent::Failed => (SetupPhase::Done(SetupOutcome::Failed), None),
            _ => (phase, None),
        },
        SetupPhase::ResolveServices => match event {
            SetupEvent::Services(services) => match find_chat_characteristic(&services) {
                Some(at) => (SetupPhase::OpenWrite(at), None),
                None => (SetupPhase::Done(SetupOutcome::NotAPeer), None),
            },
            SetupEvent::TimedOut => (
                SetupPhase::Done(SetupOutcome::TimedOut(Stage::ServiceResolution)),
                None,
            ),
            SetupEvent::Failed => (SetupPhase::Done(SetupOutcome::Failed), None),
            _ => (phase, None),
        },
        SetupPhase::OpenWrite(at) => match event {
            SetupEvent::Completed => (SetupPhase::OpenNotify(at), None),
            SetupEvent::TimedOut => (
                SetupPhase::Done(SetupOutcome::TimedOut(Stage::WriteIo)),
                None,
            ),
            SetupEvent::Failed => (SetupPhase::Done(SetupOutcome::Failed), None),
            _ => (phase, None),
        },
        SetupPhase::OpenNotify(_) => match event {
            SetupEvent::Completed => {
                let (handle, ui) = mesh.register_link();
                (SetupPhase::Done(SetupOutcome::Linked(handle.id)), Some(ui))
            },
            SetupEvent::TimedOut => (
                SetupPhase::Done(SetupOutcome::TimedOut(Stage::NotifyIo)),
                None,
            ),
            SetupEvent::Failed => (SetupPhase::Done(SetupOutcome::Failed), None),
            _ => (phase, None),
        },
        SetupPhase::Done(_) => (phase, None),
    }
}

// ---------------------------------------------------------------------------
// Retrying
// ---------------------------------------------------------------------------

/// What has to be done next about one device.
#[derive(Debug, Clone, Copy, PartialEq, Eq, Structural)]
pub enum RetryPhase {
    /// Wait for [`RETRY_BACKOFF_SECS`]. A loop starts here, without waiting.
    BackOff,
    /// Get a handle for the device.
    OpenDevice,
    /// Set up a link, while scanning is paused.
    Establish,
    /// Serve the link until it closes.
    Serve(LinkId),
    /// Ask whether the device is still connected.
    QueryConnection { give_up: bool },
    /// Disconnect the device, to clear any GATT state that is left.
    Disconnect { give_up: bool },
    /// The device is not one of our peers: stop for good.
    Finished,
}

/// How the last thing that was done turned out.
#[derive(Debug, Clone, Copy, PartialEq, Eq, Structural)]
pub enum RetryEvent {
    Woken,
    /// Whether there is a handle for the device.
    DeviceHandle(bool),
    Setup(SetupOutcome),
    LinkClosed,
    Connection(bool),
    Disconnected,
}

/// Where an attempt leads when everything is cleared.
pub open spec fn retry_or_finish(give_up: bool) -> RetryPhase {
    if give_up {
        RetryPhase::Finished
    } else {
        RetryPhase::BackOff
    }
}

/// The phase that follows. `taken` tells whether the address is claimed when
/// the event comes.
pub open spec fn retry_next(phase: RetryPhase, event: RetryEvent, taken: bool) -> RetryPhase {
    match (phase, event) {
        (RetryPhase::BackOff, RetryEvent::Woken) => if taken {
            RetryPhase::BackOff
        } else {
            RetryPhase::OpenDevice
        },
        (RetryPhase::OpenDevice, RetryEvent::DeviceHandle(ok)) => if ok {
            RetryPhase::Establish
        } else {
            RetryPhase::BackOff
        },
        (RetryPhase::Establish, RetryEvent::Setup(outcome)) => match outcome {
            SetupOutcome::NotAPeer => RetryPhase::QueryConnection { give_up: true },
            SetupOutcome::Linked(id) => RetryPhase::Serve(id),
            _ => RetryPhase::QueryConnection { give_up: false },
        },
        (RetryPhase::Serve(_), RetryEvent::LinkClosed) => RetryPhase::QueryConnection {
            give_up: false,
        },
        (RetryPhase::QueryConnection { give_up }, RetryEvent::Connection(up)) => if up {
            RetryPhase::Disconnect { give_up }
        } else {
            retry_or_finish(give_up)
        },
        (RetryPhase::Disconnect { give_up }, RetryEvent::Disconnected) => retry_or_finish(give_up),
        _ => phase,
    }
}

/// What the step does to the registry: an attempt claims its address, pauses
/// scanning while it sets up the link, and gives the address up when it ends.
pub open spec fn retry_registry(
    addr: Address,
    phase: RetryPhase,
    event: RetryEvent,
    r: RegistryView,
) -> RegistryView {
    match (phase, event) {
        (RetryPhase::BackOff, RetryEvent::Woken) => claimed(r, addr),
        (RetryPhase::OpenDevice, RetryEvent::DeviceHandle(ok)) => if ok {
            paused(r)
        } else {
            released(r, addr)
        },
        (RetryPhase::Establish, RetryEvent::Setup(outcome)) => if outcome is Linked {
            resumed(r)
        } else {
            released(resumed(r), addr)
        },
        (RetryPhase::Serve(_), RetryEvent::LinkClosed) => released(r, addr),
        _ => r,
    }
}

/// What the step does to the mesh: a link that closed is removed.
pub open spec fn retry_mesh(phase: RetryPhase, event: RetryEvent, m: MeshView) -> MeshView {
    match (phase, event) {
        (RetryPhase::Serve(id), RetryEvent::LinkClosed) => without_link(m, id),
        _ => m,
    }
}

/// Takes the next step in keeping a device linked: claim the address, get a
/// handle, set up the link, serve it, clear what is left, and start over
/// after a pause, until the device turns out not to be one of our peers.
pub fn connect_retry_loop(
    addr: Address,
    phase: RetryPhase,
    event: RetryEvent,
    registry: &mut PeerRegistry,
    mesh: &mut Mesh,
) -> (r: (RetryPhase, Option<UiEvent>))
    requires
        mesh_inv(old(mesh)@),
    ensures
        mesh_inv(final(mesh)@),
        r.0 == retry_next(phase, event, old(registry)@.active.contains(addr)),
        final(registry)@ == retry_registry(addr, phase, event, old(registry)@),
        final(mesh)@ == retry_mesh(phase, event, old(mesh)@),
        ui_view(r.1) == if phase is Serve && event is LinkClosed {
            Some(UiView::LinkCountChanged(final(mesh)@.links.len()))
        } else {
            None
        },
{
    match phase {
        RetryPhase::BackOff => match event {
            RetryEvent::Woken => if registry.claim(addr) {
                (RetryPhase::OpenDevice, None)
            } else {
                (RetryPhase::BackOff, None)
            },
            _ => (phase, None),
        },
        RetryPhase::OpenDevice => match event {
            RetryEvent::DeviceHandle(ok) => if ok {
                registry.pause_scanning();
                (RetryPhase::Establish, None)
            } else {
                registry.release(addr);
                (RetryPhase::BackOff, None)
            },
            _ => (phase, None),
        },
        RetryPhase::Establish => match event {
            RetryEvent::Setup(outcome) => {
                registry.resume_scanning();
                match outcome {
                    SetupOutcome::NotAPeer => {
                        registry.release(addr);
                        (RetryPhase::QueryConnection { give_up: true }, None)
                    },
                    SetupOutcome::Linked(id) => (RetryPhase::Serve(id), None),
                    _ => {
                        registry.release(addr);
                        (RetryPhase::QueryConnection { give_up: false }, None)
                    },
                }
            },
            _ => (phase, None),
        },
        RetryPhase::Serve(id) => match event {
            RetryEvent::LinkClosed => {
                let ui = mesh.unregister_link(id);
                registry.release(addr);
                (RetryPhase::QueryConnection { give_up: false }, Some(ui))
            },
            _ => (phase, None),
        },
        RetryPhase::QueryConnection { give_up } => match event {
            RetryEvent::Connection(up) => if up {
                (RetryPhase::Disconnect { give_up }, None)
            } else if give_up {
                (RetryPhase::Finished, None)
            } else {
                (RetryPhase::BackOff, None)
            },
            _ => (phase, None),
        },
        RetryPhase::Disconnect { give_up } => match event {
            RetryEvent::Disconnected => if give_up {
                (RetryPhase::Finished, None)
            } else {
                (RetryPhase::BackOff, None)
            },
            _ => (phase, None),
        },
        RetryPhase::Finished => (phase, None),
    }
}

// ---------------------------------------------------------------------------
// Laws
// ---------------------------------------------------------------------------

/// The addresses that were dialled after a run of scan events.
pub open spec fn dialled_after(
    dialled: Set<Address>,
    registry: RegistryView,
    events: Seq<ScanEvent>,
) -> Set<Address>
    decreases events.len(),
{
    if events.len() == 0 {
        dialled
    } else {
        let before = dialled_after(dialled, registry, events.drop_last());
        match scan_step(before, registry, events.last()) {
            ScanStep::Dial(addr) => before.insert(addr),
            _ => before,
        }
    }
}

proof fn lemma_dialled_grows(
    dialled: Set<Address>,
    registry: RegistryView,
    events: Seq<ScanEvent>,
    i: int,
    addr: Address,
)
    requires
        0 <= i <= events.len(),
        dialled_after(dialled, registry, events.take(i)).contains(addr),
    ensures
        dialled_after(dialled, registry, events).contains(addr),
    decreases events.len() - i,
{
    if i == events.len() {
        assert(events.take(i) =~= events);
    } else {
        assert(events.take(i + 1).drop_last() =~= events.take(i));
        lemma_dialled_grows(dialled, registry, events, i + 1, addr);
    }
}

/// However often a device is discovered, at most one retry loop is started for
/// it.
pub proof fn each_address_is_dialled_once(
    dialled: Set<Address>,
    registry: RegistryView,
    events: Seq<ScanEvent>,
    i: int,
    j: int,
    addr: Address,
)
    requires
        0 <= i < j < events.len(),
        scan_step(dialled_after(dialled, registry, events.take(i)), registry, events[i])
            == ScanStep::Dial(addr),
    ensures
        scan_step(dialled_after(dialled, registry, events.take(j)), registry, events[j])
            != ScanStep::Dial(addr),
{
    assert(events.take(i + 1).drop_last() =~= events.take(i));
    assert(events.take(i + 1).last() == events[i]);
    assert(events.take(j).take(i + 1) =~= events.take(i + 1));
    lemma_dialled_grows(dialled, registry, events.take(j), i + 1, addr);
}

/// Of two nodes that discover each other at most one dials out, and a node
/// never dials itself.
pub proof fn at_most_one_side_dials(
    here: RegistryView,
    here_dialled: Set<Address>,
    there: RegistryView,
    there_dialled: Set<Address>,
)
    ensures
        !(scan_step(here_dialled, here, ScanEvent::DeviceAdded(there.our_addr)) is Dial
            && scan_step(there_dialled, there, ScanEvent::DeviceAdded(here.our_addr)) is Dial),
        !(scan_step(here_dialled, here, ScanEvent::DeviceAdded(here.our_addr)) is Dial),
{
    exactly_one_side_initiates(here, there);
}

/// How far the setup of a link has come.
pub open spec fn setup_rank(phase: SetupPhase) -> int {
    match phase {
        SetupPhase::ReadUuids => 0,
        SetupPhase::QueryConnection => 1,
        SetupPhase::Connect => 2,
        SetupPhase::ResolveServices => 3,
        SetupPhase::OpenWrite(_) => 4,
        SetupPhase::OpenNotify(_) => 5,
        SetupPhase::Done(_) => 6,
    }
}

/// Time runs out exactly in the phases that are limited: there it ends the
/// setup and names the stage, and anywhere else it changes nothing.
pub proof fn setup_times_out_by_its_limit(phase: SetupPhase, link: LinkId)
    ensures
        setup_next(phase, SetupEvent::TimedOut, link) == match setup_limit(phase) {
            Some(stage) => SetupPhase::Done(SetupOutcome::TimedOut(stage)),
            None => phase,
        },
        !setup_links(phase, SetupEvent::TimedOut),
{
}

/// Setting up a link never goes back: an event either leaves the phase as it
/// is or brings it closer to its end. A call that failed ends it at once.
pub proof fn setup_makes_progress(phase: SetupPhase, event: SetupEvent, link: LinkId)
    ensures
        setup_next(phase, event, link) == phase || setup_rank(setup_next(phase, event, link))
            > setup_rank(phase),
        !(phase is Done) && event is Failed ==> setup_next(phase, event, link) == SetupPhase::Done(
            SetupOutcome::Failed,
        ),
{
}

/// The phase that a run of events leads to, from the start.
pub open spec fn setup_run(events: Seq<SetupEvent>, link: LinkId) -> SetupPhase
    decreases events.len(),
{
    if events.len() == 0 {
        SetupPhase::ReadUuids
    } else {
        setup_next(setup_run(events.drop_last(), link), events.last(), link)
    }
}

/// The mesh after a run of events, from the start.
pub open spec fn setup_run_mesh(events: Seq<SetupEvent>, m: MeshView) -> MeshView
    decreases events.len(),
{
    if events.len() == 0 {
        m
    } else {
        let before = setup_run_mesh(events.drop_last(), m);
        if setup_links(setup_run(events.drop_last(), m.next_link_id as LinkId), events.last()) {
            with_link(before)
        } else {
            before
        }
    }
}

/// Whether `event` came in `phase` at some point of a run.
pub open spec fn answered(
    events: Seq<SetupEvent>,
    link: LinkId,
    phase: SetupPhase,
    event: SetupEvent,
) -> bool {
    exists|i: int|
        #![trigger events[i]]
        0 <= i < events.len() && setup_run(events.take(i), link) == phase && events[i] == event
}

/// Whether the device was found to advertise our service.
pub open spec fn was_advertised(events: Seq<SetupEvent>, link: LinkId) -> bool {
    exists|uuids: Vec<u128>|
        uuids@.contains(SERVICE_UUID) && #[trigger] answered(
            events,
            link,
            SetupPhase::ReadUuids,
            SetupEvent::Uuids(Some(uuids)),
        )
}

/// Whether the device was found connected, or could be connected.
pub open spec fn was_connected(events: Seq<SetupEvent>, link: LinkId) -> bool {
    ||| answered(events, link, SetupPhase::QueryConnection, SetupEvent::Connection(true))
    ||| answered(events, link, SetupPhase::Connect, SetupEvent::Completed)
}

/// Whether the chat characteristic was found among the services.
pub open spec fn was_found(events: Seq<SetupEvent>, link: LinkId, at: CharRef) -> bool {
    exists|services: Vec<ServiceInfo>|
        is_last_chat(services@, at) && #[trigger] answered(
            events,
            link,
            SetupPhase::ResolveServices,
            SetupEvent::Services(services),
        )
}

/// Whether both directions of the chat characteristic were opened.
pub open spec fn was_opened(events: Seq<SetupEvent>, link: LinkId, at: CharRef) -> bool {
    &&& answered(events, link, SetupPhase::OpenWrite(at), SetupEvent::Completed)
    &&& answered(events, link, SetupPhase::OpenNotify(at), SetupEvent::Completed)
}

proof fn lemma_answered_grows(events: Seq<SetupEvent>, link: LinkId)
    requires
        events.len() > 0,
    ensures
        forall|phase: SetupPhase, event: SetupEvent| #[trigger]
            answered(events.drop_last(), link, phase, event) ==> answered(
                events,
                link,
                phase,
                event,
            ),
        answered(events, link, setup_run(events.drop_last(), link), events.last()),
{
    let front = events.drop_last();
    let n = events.len() - 1;
    assert forall|phase: SetupPhase, event: SetupEvent| #[trigger]
        answered(front, link, phase, event) implies answered(events, link, phase, event) by {
        let i = choose|i: int|
            #![trigger front[i]]
            0 <= i < front.len() && setup_run(front.take(i), link) == phase && front[i] == event;
        assert(front.take(i) =~= events.take(i));
        assert(events[i] == event);
    }
    assert(events.take(n) =~= front);
    assert(events[n] == events.last());
}

proof fn lemma_setup_evidence(events: Seq<SetupEvent>, link: LinkId)
    ensures
        1 <= setup_rank(setup_run(events, link)) <= 5 ==> was_advertised(events, link),
        3 <= setup_rank(setup_run(events, link)) <= 5 ==> was_connected(events, link),
        setup_run(events, link) matches SetupPhase::OpenWrite(at) ==> was_found(events, link, at),
        setup_run(events, link) matches SetupPhase::OpenNotify(at) ==> was_found(events, link, at)
            && answered(events, link, SetupPhase::OpenWrite(at), SetupEvent::Completed),
        setup_run(events, link) matches SetupPhase::Done(SetupOutcome::Linked(id)) ==> id == link
            && was_advertised(events, link) && was_connected(events, link) && exists|at: CharRef|
            was_found(events, link, at) && was_opened(events, link, at),
    decreases events.len(),
{
    if events.len() > 0 {
        let front = events.drop_last();
        let before = setup_run(front, link);
        lemma_setup_evidence(front, link);
        lemma_answered_grows(events, link);
        if was_advertised(front, link) {
            let uuids = choose|uuids: Vec<u128>|
                uuids@.contains(SERVICE_UUID) && #[trigger] answered(
                    front,
                    link,
                    SetupPhase::ReadUuids,
                    SetupEvent::Uuids(Some(uuids)),
                );
            assert(answered(
                events,
                link,
                SetupPhase::ReadUuids,
                SetupEvent::Uuids(Some(uuids)),
            ));
        }
        assert forall|at: CharRef| #[trigger] was_found(front, link, at) implies was_found(
            events,
            link,
            at,
        ) by {
            let services = choose|services: Vec<ServiceInfo>|
                is_last_chat(services@, at) && #[trigger] answered(
                    front,
                    link,
                    SetupPhase::ResolveServices,
                    SetupEvent::Services(services),
                );
            assert(answered(
                events,
                link,
                SetupPhase::ResolveServices,
                SetupEvent::Services(services),
            ));
        }
        assert forall|at: CharRef| #[trigger] was_opened(front, link, at) implies was_opened(
            events,
            link,
            at,
        ) by {}
        match (before, events.last()) {
            (SetupPhase::ReadUuids, SetupEvent::Uuids(Some(uuids))) => {
                assert(answered(
                    events,
                    link,
                    SetupPhase::ReadUuids,
                    SetupEvent::Uuids(Some(uuids)),
                ));
            },
            (SetupPhase::ResolveServices, SetupEvent::Services(services)) => {
                if let Some(at) = chat_characteristic(services@) {
                    assert(is_last_chat(services@, at));
                    assert(answered(
                        events,
                        link,
                        SetupPhase::ResolveServices,
                        SetupEvent::Services(services),
                    ));
                    assert(was_found(events, link, at));
                }
            },
            (SetupPhase::OpenNotify(at), SetupEvent::Completed) => {
                assert(was_found(events, link, at) && was_opened(events, link, at));
            },
            _ => {},
        }
    }
}

/// A link comes up only with a device that advertises our service, is
/// connected and has the chat characteristic, and after both directions of
/// that characteristic were opened.
pub proof fn link_needs_a_complete_peer(events: Seq<SetupEvent>, link: LinkId)
    requires
        setup_run(events, link) is Done,
        setup_run(events, link)->Done_0 is Linked,
    ensures
        setup_run(events, link) == SetupPhase::Done(SetupOutcome::Linked(link)),
        was_advertised(events, link),
        was_connected(events, link),
        exists|at: CharRef| was_found(events, link, at) && was_opened(events, link, at),
{
    lemma_setup_evidence(events, link);
}

/// An attempt registers one link with the mesh if it ends in a link, under
/// the id that it reports, and leaves the mesh alone otherwise.
pub proof fn setup_registers_what_it_reports(events: Seq<SetupEvent>, m: MeshView)
    ensures
        setup_run_mesh(events, m) == if setup_run(events, m.next_link_id as LinkId)
            == SetupPhase::Done(SetupOutcome::Linked(m.next_link_id as LinkId)) {
            with_link(m)
        } else {
            m
        },
    decreases events.len(),
{
    if events.len() > 0 {
        setup_registers_what_it_reports(events.drop_last(), m);
        lemma_setup_evidence(events.drop_last(), m.next_link_id as LinkId);
    }
}

/// Whether a retry loop holds the claim on its address in this phase.
pub open spec fn holds_claim(phase: RetryPhase) -> bool {
    phase is OpenDevice || phase is Establish || phase is Serve
}

/// Whether a retry loop has given up on its device in this phase.
pub open spec fn has_given_up(phase: RetryPhase) -> bool {
    phase == (RetryPhase::QueryConnection { give_up: true }) || phase == (RetryPhase::Disconnect {
        give_up: true,
    }) || phase is Finished
}

/// The phase and the registry after a run of events, from the start of a
/// retry loop.
pub open spec fn retry_run(addr: Address, events: Seq<RetryEvent>, r: RegistryView) -> (
    RetryPhase,
    RegistryView,
)
    decreases events.len(),
{
    if events.len() == 0 {
        (RetryPhase::BackOff, r)
    } else {
        let (phase, before) = retry_run(addr, events.drop_last(), r);
        (
            retry_next(phase, events.last(), before.active.contains(addr)),
            retry_registry(addr, phase, events.last(), before),
        )
    }
}

/// One step of a retry loop keeps its claim and its request for silence in
/// step with its phase, and touches no other address.
pub proof fn retry_step_is_balanced(
    addr: Address,
    phase: RetryPhase,
    event: RetryEvent,
    r: RegistryView,
)
    requires
        holds_claim(phase) ==> r.active.contains(addr),
        phase is Establish ==> r.pauses > 0,
        r.pauses < usize::MAX,
    ensures
        ({
            let next = retry_next(phase, event, r.active.contains(addr));
            let after = retry_registry(addr, phase, event, r);
            &&& holds_claim(next) ==> after.active.contains(addr)
            &&& holds_claim(phase) && !holds_claim(next) ==> !after.active.contains(addr)
            &&& !holds_claim(phase) && !holds_claim(next) ==> after == r
            &&& !holds_claim(phase) && holds_claim(next) ==> !r.active.contains(addr)
            &&& forall|other: Address|
                other != addr ==> #[trigger] after.active.contains(other) == r.active.contains(
                    other,
                )
            &&& after.pauses + (if phase is Establish {
                1int
            } else {
                0
            }) == r.pauses + (if next is Establish {
                1int
            } else {
                0
            })
            &&& after.our_addr == r.our_addr
        }),
{
    if !holds_claim(phase) && !holds_claim(retry_next(phase, event, r.active.contains(addr))) {
        if phase is BackOff && event is Woken {
            assert(claimed(r, addr).active =~= r.active);
        }
    }
}

/// Between attempts, and when it has given up, a retry loop leaves the
/// registry as it found it. While it works, it holds the claim on its address,
/// and scanning is paused for it exactly while it sets up the link. An address
/// that is taken by someone else is left to them.
pub proof fn retry_loop_cleans_up(addr: Address, events: Seq<RetryEvent>, r: RegistryView)
    requires
        r.pauses + 1 < usize::MAX,
    ensures
        ({
            let (phase, now) = retry_run(addr, events, r);
            &&& !holds_claim(phase) ==> now == r
            &&& holds_claim(phase) ==> !r.active.contains(addr)
            &&& holds_claim(phase) && !(phase is Establish) ==> now == claimed(r, addr)
            &&& phase is Establish ==> now == paused(claimed(r, addr))
        }),
    decreases events.len(),
{
    if events.len() > 0 {
        retry_loop_cleans_up(addr, events.drop_last(), r);
        let (phase, before) = retry_run(addr, events.drop_last(), r);
        let (next, now) = retry_run(addr, events, r);
        claim_is_exclusive(r, addr);
        claim_is_exclusive(before, addr);
        if phase is BackOff && r.active.contains(addr) {
            assert(claimed(r, addr).active =~= r.active);
        }
        assert(released(claimed(r, addr), addr).active =~= r.active.remove(addr));
        if !r.active.contains(addr) {
            assert(r.active.remove(addr) =~= r.active);
        }
    }
}

/// A device is retried indefinitely: the loop gives up only on a device that
/// turned out not to be one of our peers.
pub proof fn only_strangers_are_given_up(addr: Address, events: Seq<RetryEvent>, r: RegistryView)
    requires
        forall|i: int|
            0 <= i < events.len() ==> #[trigger] events[i] != RetryEvent::Setup(
                SetupOutcome::NotAPeer,
            ),
    ensures
        !has_given_up(retry_run(addr, events, r).0),
    decreases events.len(),
{
    if events.len() > 0 {
        let front = events.drop_last();
        assert forall|i: int| 0 <= i < front.len() implies #[trigger] front[i] != RetryEvent::Setup(
            SetupOutcome::NotAPeer,
        ) by {
            assert(front[i] == events[i]);
        }
        only_strangers_are_given_up(addr, front, r);
        assert(events[events.len() - 1] != RetryEvent::Setup(SetupOutcome::NotAPeer));
    }
}

/// A scan is started exactly while nobody asks for silence, and a running scan
/// is ended as soon as somebody does. Scanning stops for good when the permit
/// is gone or the scan ends by itself, and for no other reason.
pub proof fn scans_keep_the_silence(
    permit: ScanPermit,
    dialled: Set<Address>,
    r: RegistryView,
    event: ScanEvent,
)
    ensures
        scan_start(permit) == ScanStep::StartScan <==> permit == ScanPermit::Allowed,
        scan_start(permit) == ScanStep::AwaitPermit <==> permit == ScanPermit::Paused,
        scan_start(permit) == ScanStep::Finish <==> permit == ScanPermit::Gone,
        scan_step(dialled, r, event) == ScanStep::EndScan <==> event == ScanEvent::Permit(
            ScanPermit::Paused,
        ),
        scan_step(dialled, r, event) == ScanStep::Finish <==> event == ScanEvent::Permit(
            ScanPermit::Gone,
        ) || event == ScanEvent::Ended,
{
}

/// A device is dialled when it is discovered for the first time and its address
/// is the higher of the two. A node with the lower address is left to dial us.
pub proof fn higher_addresses_are_dialled(dialled: Set<Address>, r: RegistryView, addr: Address)
    ensures
        scan_step(dialled, r, ScanEvent::DeviceAdded(addr)) == if address_number(r.our_addr@)
            < address_number(addr@) && !dialled.contains(addr) {
            ScanStep::Dial(addr)
        } else {
            ScanStep::Continue
        },
        scan_step(dialled, r, ScanEvent::Other) == ScanStep::Continue,
{
    precedes_by_number(r.our_addr, addr);
}

proof fn lemma_setup_push(events: Seq<SetupEvent>, event: SetupEvent, link: LinkId)
    ensures
        setup_run(events.push(event), link) == setup_next(setup_run(events, link), event, link),
{
    assert(events.push(event).drop_last() =~= events);
}

/// A complete peer gets its link. Whatever else a device advertises and offers,
/// and in whatever order: if our service is among its UUIDs, it is connected or
/// connects, the chat characteristic is among those of our service, and both
/// directions open, the setup ends in a link.
pub proof fn complete_peer_gets_its_link(
    uuids: Vec<u128>,
    i: int,
    up: bool,
    services: Vec<ServiceInfo>,
    s: usize,
    c: usize,
    link: LinkId,
)
    requires
        0 <= i < uuids@.len(),
        uuids@[i] == SERVICE_UUID,
        s < services@.len(),
        services@[s as int].uuid == SERVICE_UUID,
        c < services@[s as int].characteristics@.len(),
        services@[s as int].characteristics@[c as int] == CHAT_CHAR_UUID,
    ensures
        setup_run(seq![SetupEvent::Uuids(Some(uuids))], link) == SetupPhase::QueryConnection,
        setup_run(
            if up {
                seq![
                    SetupEvent::Uuids(Some(uuids)),
                    SetupEvent::Connection(true),
                    SetupEvent::Services(services),
                    SetupEvent::Completed,
                    SetupEvent::Completed,
                ]
            } else {
                seq![
                    SetupEvent::Uuids(Some(uuids)),
                    SetupEvent::Connection(false),
                    SetupEvent::Completed,
                    SetupEvent::Services(services),
                    SetupEvent::Completed,
                    SetupEvent::Completed,
                ]
            },
            link,
        ) == SetupPhase::Done(SetupOutcome::Linked(link)),
{
    let none = Seq::<SetupEvent>::empty();
    let asked = none.push(SetupEvent::Uuids(Some(uuids)));
    let answered = asked.push(SetupEvent::Connection(up));
    let connected = if up {
        answered
    } else {
        answered.push(SetupEvent::Completed)
    };
    let found = connected.push(SetupEvent::Services(services));
    let writing = found.push(SetupEvent::Completed);
    let open = writing.push(SetupEvent::Completed);
    lemma_setup_push(none, SetupEvent::Uuids(Some(uuids)), link);
    lemma_setup_push(asked, SetupEvent::Connection(up), link);
    lemma_setup_push(answered, SetupEvent::Completed, link);
    lemma_setup_push(connected, SetupEvent::Services(services), link);
    lemma_setup_push(found, SetupEvent::Completed, link);
    lemma_setup_push(writing, SetupEvent::Completed, link);
    chat_characteristic_is_found(services@);
    assert(uuids@.contains(SERVICE_UUID));
    assert(services@[s as int].characteristics@[c as int] == CHAT_CHAR_UUID);
    assert(asked =~= seq![SetupEvent::Uuids(Some(uuids))]);
    assert(up ==> open =~= seq![
        SetupEvent::Uuids(Some(uuids)),
        SetupEvent::Connection(true),
        SetupEvent::Services(services),
        SetupEvent::Completed,
        SetupEvent::Completed,
    ]);
    assert(!up ==> open =~= seq![
        SetupEvent::Uuids(Some(uuids)),
        SetupEvent::Connection(false),
        SetupEvent::Completed,
        SetupEvent::Services(services),
        SetupEvent::Completed,
        SetupEvent::Completed,
    ]);
}

/// A device is found not to be a peer for two reasons only: our service is not
/// among its UUIDs, or the chat characteristic is not among those of our
/// service.
pub proof fn only_strangers_are_turned_away(phase: SetupPhase, event: SetupEvent, link: LinkId)
    requires
        !(phase is Done),
    ensures
        setup_next(phase, event, link) == SetupPhase::Done(SetupOutcome::NotAPeer) <==> {
            ||| phase is ReadUuids && event == SetupEvent::Uuids(None)
            ||| phase is ReadUuids && (event matches SetupEvent::Uuids(Some(uuids)) && forall|i: int|
                0 <= i < uuids@.len() ==> #[trigger] uuids@[i] != SERVICE_UUID)
            ||| phase is ResolveServices && (event matches SetupEvent::Services(services)
                && forall|s: usize, c: usize|
                s < services@.len() && services@[s as int].uuid == SERVICE_UUID && c
                    < services@[s as int].characteristics@.len()
                    ==> #[trigger] services@[s as int].characteristics@[c as int] != CHAT_CHAR_UUID)
        },
{
    if let SetupEvent::Services(services) = event {
        chat_characteristic_is_found(services@);
    }
    if let SetupEvent::Uuids(Some(uuids)) = event {
        if uuids@.contains(SERVICE_UUID) {
            let i = choose|i: int| 0 <= i < uuids@.len() && uuids@[i] == SERVICE_UUID;
            assert(uuids@[i] == SERVICE_UUID);
        } else {
            assert forall|i: int| 0 <= i < uuids@.len() implies #[trigger] uuids@[i]
                != SERVICE_UUID by {
                assert(uuids@.contains(uuids@[i]));
            }
        }
    }
}

/// The setup of a link waits for the answer that its phase asks for: the UUIDs,
/// the state of the connection, the services, or that a call has succeeded. Any
/// other event changes nothing, but for a failure, and for time that runs out
/// while connecting, resolving the services or opening a direction. An answer
/// always leads on.
pub proof fn setup_waits_for_its_answer(phase: SetupPhase, event: SetupEvent, link: LinkId)
    ensures
        ({
            let limited = phase is Connect || phase is ResolveServices || phase is OpenWrite
                || phase is OpenNotify;
            let answer = match phase {
                SetupPhase::ReadUuids => event is Uuids,
                SetupPhase::QueryConnection => event is Connection,
                SetupPhase::ResolveServices => event is Services,
                SetupPhase::Done(_) => false,
                _ => event is Completed,
            };
            let over = !(phase is Done) && (event is Failed || (event is TimedOut && limited));
            setup_next(phase, event, link) == phase <==> !answer && !over
        }),
        setup_limit(SetupPhase::Connect) == Some(Stage::Connect),
        setup_limit(SetupPhase::ResolveServices) == Some(Stage::ServiceResolution),
        phase is OpenWrite ==> setup_limit(phase) == Some(Stage::WriteIo),
        phase is OpenNotify ==> setup_limit(phase) == Some(Stage::NotifyIo),
{
}

/// A link that the setup reports is a link of the mesh, next to all those that
/// were there before, and flooded packets reach it.
pub proof fn reported_link_is_with_the_mesh(events: Seq<SetupEvent>, m: MeshView, p: PacketView)
    requires
        mesh_inv(m),
        m.next_link_id < LinkId::MAX,
        setup_run(events, m.next_link_id as LinkId) is Done,
        setup_run(events, m.next_link_id as LinkId)->Done_0 is Linked,
    ensures
        ({
            let id = setup_run(events, m.next_link_id as LinkId)->Done_0->Linked_0;
            let after = setup_run_mesh(events, m);
            &&& after.links.contains(id) && !m.links.contains(id)
            &&& after.links.len() == m.links.len() + 1
            &&& forall|other: LinkId|
                m.links.contains(other) ==> #[trigger] after.links.contains(other)
            &&& encoded(p) is Ok ==> flooded(after.links, p, None) is Some && flooded(
                after.links,
                p,
                None,
            )->Some_0.to.contains(id)
        }),
{
    link_needs_a_complete_peer(events, m.next_link_id as LinkId);
    setup_registers_what_it_reports(events, m);
    registering_adds_one_link(m, p);
}

/// A device that is not a peer is given up for good. From the moment the setup
/// says so, whatever happens, the loop only asks whether the device is still
/// connected, disconnects it, or is finished, and it leaves the registry alone.
pub proof fn strangers_are_given_up_for_good(
    addr: Address,
    events: Seq<RetryEvent>,
    r: RegistryView,
    i: int,
)
    requires
        0 <= i < events.len(),
        retry_run(addr, events.take(i), r).0 == RetryPhase::Establish,
        events[i] == RetryEvent::Setup(SetupOutcome::NotAPeer),
    ensures
        ({
            let phase = retry_run(addr, events, r).0;
            ||| phase == (RetryPhase::QueryConnection { give_up: true })
            ||| phase == (RetryPhase::Disconnect { give_up: true })
            ||| phase == RetryPhase::Finished
        }),
        retry_run(addr, events, r).1 == retry_run(addr, events.take(i + 1), r).1,
    decreases events.len(),
{
    let front = events.drop_last();
    if i == events.len() - 1 {
        assert(events.take(i) =~= front);
        assert(events.take(i + 1) =~= events);
    } else {
        assert(front.take(i) =~= events.take(i));
        assert(front.take(i + 1) =~= events.take(i + 1));
        strangers_are_given_up_for_good(addr, front, r, i);
    }
}

/// A loop that has given up comes to its end: it is finished once the device is
/// found not to be connected, or has been disconnected. A finished loop stays
/// finished.
pub proof fn giving_up_ends_the_loop(event: RetryEvent, taken: bool)
    ensures
        retry_next(
            RetryPhase::QueryConnection { give_up: true },
            RetryEvent::Connection(false),
            taken,
        ) == RetryPhase::Finished,
        retry_next(
            RetryPhase::QueryConnection { give_up: true },
            RetryEvent::Connection(true),
            taken,
        ) == (RetryPhase::Disconnect { give_up: true }),
        retry_next(RetryPhase::Disconnect { give_up: true }, RetryEvent::Disconnected, taken)
            == RetryPhase::Finished,
        retry_next(RetryPhase::Finished, event, taken) == RetryPhase::Finished,
{
}

proof fn lemma_retry_push(addr: Address, events: Seq<RetryEvent>, event: RetryEvent, r: RegistryView)
    ensures
        retry_run(addr, events.push(event), r) == ({
            let (phase, before) = retry_run(addr, events, r);
            (
                retry_next(phase, event, before.active.contains(addr)),
                retry_registry(addr, phase, event, before),
            )
        }),
{
    assert(events.push(event).drop_last() =~= events);
}

/// A device that nobody holds is served: the loop claims its address, sets up
/// the link while scanning is paused, and serves the link that comes up. While
/// it does, the address is taken and scanning goes on.
pub proof fn free_device_is_served(addr: Address, id: LinkId, r: RegistryView)
    requires
        !r.active.contains(addr),
        r.pauses + 1 < usize::MAX,
    ensures
        retry_run(addr, seq![RetryEvent::Woken, RetryEvent::DeviceHandle(true)], r).0
            == RetryPhase::Establish,
        !retry_run(addr, seq![RetryEvent::Woken, RetryEvent::DeviceHandle(true)], r).1.scan_allowed(),
        ({
            let (phase, now) = retry_run(
                addr,
                seq![
                    RetryEvent::Woken,
                    RetryEvent::DeviceHandle(true),
                    RetryEvent::Setup(SetupOutcome::Linked(id)),
                ],
                r,
            );
            &&& phase == RetryPhase::Serve(id)
            &&& now.active.contains(addr)
            &&& now.pauses == r.pauses
        }),
{
    let none = Seq::<RetryEvent>::empty();
    let one = none.push(RetryEvent::Woken);
    let two = one.push(RetryEvent::DeviceHandle(true));
    let three = two.push(RetryEvent::Setup(SetupOutcome::Linked(id)));
    lemma_retry_push(addr, none, RetryEvent::Woken, r);
    lemma_retry_push(addr, one, RetryEvent::DeviceHandle(true), r);
    lemma_retry_push(addr, two, RetryEvent::Setup(SetupOutcome::Linked(id)), r);
    assert(two =~= seq![RetryEvent::Woken, RetryEvent::DeviceHandle(true)]);
    assert(three =~= seq![
        RetryEvent::Woken,
        RetryEvent::DeviceHandle(true),
        RetryEvent::Setup(SetupOutcome::Linked(id)),
    ]);
}

/// Whatever ends an attempt with a device that is not known to be a stranger,
/// the loop comes back to it: a handle that is missing, a setup that failed or
/// ran out of time, or a link that closed. If the device is still connected it
/// is disconnected first. In the end the address is free, and after the pause
/// the loop claims it again.
pub proof fn every_attempt_is_followed_by_another(
    addr: Address,
    phase: RetryPhase,
    event: RetryEvent,
    r: RegistryView,
    taken: bool,
)
    requires
        ({
            ||| phase == RetryPhase::OpenDevice && event == RetryEvent::DeviceHandle(false)
            ||| phase == RetryPhase::Establish && event == RetryEvent::Setup(SetupOutcome::Failed)
            ||| phase == RetryPhase::Establish && (event matches RetryEvent::Setup(
                SetupOutcome::TimedOut(_),
            ))
            ||| phase is Serve && event == RetryEvent::LinkClosed
        }),
    ensures
        !retry_registry(addr, phase, event, r).active.contains(addr),
        ({
            let next = retry_next(phase, event, taken);
            &&& phase == RetryPhase::OpenDevice ==> next == RetryPhase::BackOff
            &&& phase != RetryPhase::OpenDevice ==> next == (RetryPhase::QueryConnection {
                give_up: false,
            })
        }),
        retry_next(
            RetryPhase::QueryConnection { give_up: false },
            RetryEvent::Connection(false),
            taken,
        ) == RetryPhase::BackOff,
        retry_next(
            RetryPhase::QueryConnection { give_up: false },
            RetryEvent::Connection(true),
            taken,
        ) == (RetryPhase::Disconnect { give_up: false }),
        retry_next(RetryPhase::Disconnect { give_up: false }, RetryEvent::Disconnected, taken)
            == RetryPhase::BackOff,
        retry_next(RetryPhase::BackOff, RetryEvent::Woken, false) == RetryPhase::OpenDevice,
        retry_next(RetryPhase::BackOff, RetryEvent::Woken, true) == RetryPhase::BackOff,
{
}

/// A retry loop waits for the answer that its phase asks for, and any other
/// event changes nothing: not the phase, not the registry and not the mesh.
pub proof fn retry_loop_waits_for_its_answer(
    addr: Address,
    phase: RetryPhase,
    event: RetryEvent,
    r: RegistryView,
    m: MeshView,
    taken: bool,
)
    requires
        match phase {
            RetryPhase::BackOff => !(event is Woken),
            RetryPhase::OpenDevice => !(event is DeviceHandle),
            RetryPhase::Establish => !(event is Setup),
            RetryPhase::Serve(_) => !(event is LinkClosed),
            RetryPhase::QueryConnection { .. } => !(event is Connection),
            RetryPhase::Disconnect { .. } => !(event is Disconnected),
            RetryPhase::Finished => true,
        },
    ensures
        retry_next(phase, event, taken) == phase,
        retry_registry(addr, phase, event, r) == r,
        retry_mesh(phase, event, m) == m,
{
}

/// A retry loop takes its own link out of the mesh when it closes, that one and
/// no other, and leaves the mesh alone at any other time.
pub proof fn closed_link_leaves_the_mesh(phase: RetryPhase, event: RetryEvent, m: MeshView)
    requires
        mesh_inv(m),
    ensures
        ({
            let after = retry_mesh(phase, event, m);
            match phase {
                RetryPhase::Serve(id) => if event is LinkClosed {
                    &&& !after.links.contains(id)
                    &&& forall|other: LinkId|
                        other != id ==> #[trigger] after.links.contains(other) == m.links.contains(
                            other,
                        )
                    &&& after == (MeshView { links: after.links, ..m })
                } else {
                    after == m
                },
                _ => after == m,
            }
        }),
{
    if let RetryPhase::Serve(id) = phase {
        unregister_removes_one_link(m, id);
    }
}

} // verus!
