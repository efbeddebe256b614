use blemesh::active::{
    connect_retry_loop, establish_link, limited_setup_stage, timeout_err, RetryEvent, RetryPhase,
    ScanEvent, ScanPermit, ScanStep, Scanner, SetupEvent, SetupOutcome, SetupPhase, Stage,
    OP_TIMEOUT_SECS, RETRY_BACKOFF_SECS,
};
use blemesh::address::Address;
use blemesh::central::{
    bridge_candidate, limited_stage, try_bridge_device, BridgeEvent, BridgePhase, DiscoveryEvent,
};
use blemesh::gatt_ids::{
    advertises_service, find_chat_characteristic, is_chat_service, CharRef, ServiceInfo,
    CHAT_CHAR_UUID, SERVICE_UUID,
};
use blemesh::mesh::{Mesh, UiEvent};
use blemesh::peer_registry::PeerRegistry;

fn us() -> PeerRegistry {
    PeerRegistry::new(Address([5; 6]))
}

fn mesh() -> Mesh {
    Mesh::new("alice".to_string())
}

fn chat_services() -> Vec<ServiceInfo> {
    vec![
        ServiceInfo { uuid: 1, characteristics: vec![CHAT_CHAR_UUID] },
        ServiceInfo { uuid: SERVICE_UUID, characteristics: vec![7, CHAT_CHAR_UUID] },
    ]
}

const AT: CharRef = CharRef { service: 1, characteristic: 1 };

#[test]
fn uuids_are_the_fixed_ones() {
    let service = uuid::Uuid::from_u128(SERVICE_UUID).to_string();
    let chat = uuid::Uuid::from_u128(CHAT_CHAR_UUID).to_string();
    assert_eq!(service, "7a1e8f00-0001-4000-8000-00805f9b34fb");
    assert_eq!(chat, "7a1e8f00-0002-4000-8000-00805f9b34fb");
}

#[test]
fn finding_the_characteristic() {
    assert!(advertises_service(&vec![1, SERVICE_UUID]));
    assert!(!advertises_service(&vec![1, CHAT_CHAR_UUID]));
    assert!(!advertises_service(&vec![]));
    assert!(is_chat_service(SERVICE_UUID));
    assert!(!is_chat_service(CHAT_CHAR_UUID));
    assert_eq!(find_chat_characteristic(&chat_services()), Some(AT));
    assert_eq!(find_chat_characteristic(&vec![]), None);
    let mut twice = chat_services();
    twice[1].characteristics.push(CHAT_CHAR_UUID);
    twice.push(ServiceInfo { uuid: SERVICE_UUID, characteristics: vec![3] });
    assert_eq!(
        find_chat_characteristic(&twice),
        Some(CharRef { service: 1, characteristic: 2 })
    );
}

#[test]
fn scanning_waits_for_silence_to_end() {
    assert_eq!(Scanner::before_scan(ScanPermit::Allowed), ScanStep::StartScan);
    assert_eq!(Scanner::before_scan(ScanPermit::Paused), ScanStep::AwaitPermit);
    assert_eq!(Scanner::before_scan(ScanPermit::Gone), ScanStep::Finish);
    let r = us();
    let mut s = Scanner::new();
    assert_eq!(s.while_scanning(&r, ScanEvent::Permit(ScanPermit::Allowed)), ScanStep::Continue);
    assert_eq!(s.while_scanning(&r, ScanEvent::Permit(ScanPermit::Paused)), ScanStep::EndScan);
    assert_eq!(s.while_scanning(&r, ScanEvent::Permit(ScanPermit::Gone)), ScanStep::Finish);
    assert_eq!(s.while_scanning(&r, ScanEvent::Other), ScanStep::Continue);
    assert_eq!(s.while_scanning(&r, ScanEvent::Ended), ScanStep::Finish);
}

#[test]
fn each_higher_address_is_dialled_once() {
    let r = us();
    let mut s = Scanner::new();
    let low = Address([4; 6]);
    let high = Address([6; 6]);
    assert_eq!(s.while_scanning(&r, ScanEvent::DeviceAdded(low)), ScanStep::Continue);
    assert_eq!(s.while_scanning(&r, ScanEvent::DeviceAdded(high)), ScanStep::Dial(high));
    assert_eq!(s.while_scanning(&r, ScanEvent::DeviceAdded(high)), ScanStep::Continue);
    let other = Address([7; 6]);
    assert_eq!(s.while_scanning(&r, ScanEvent::DeviceAdded(other)), ScanStep::Dial(other));
}

#[test]
fn timeouts_and_messages() {
    assert_eq!(OP_TIMEOUT_SECS, 12);
    assert_eq!(RETRY_BACKOFF_SECS, 5);
    assert_eq!(timeout_err(Stage::Connect), "timed out after 12s waiting for Connect()");
    assert_eq!(
        timeout_err(Stage::ServiceResolution),
        "timed out after 12s waiting for service resolution"
    );
    assert_eq!(timeout_err(Stage::WriteIo), "timed out after 12s waiting for write_io()");
    assert_eq!(timeout_err(Stage::NotifyIo), "timed out after 12s waiting for notify_io()");
}

fn setup(events: Vec<SetupEvent>) -> (SetupPhase, usize) {
    let mut m = mesh();
    let mut phase = SetupPhase::ReadUuids;
    let mut shown = None;
    for e in events {
        let (next, ui) = establish_link(phase, e, &mut m);
        phase = next;
        if ui.is_some() {
            shown = ui;
        }
    }
    if m.link_count() == 1 {
        assert_eq!(shown, Some(UiEvent::LinkCountChanged(1)));
    } else {
        assert_eq!(shown, None);
    }
    (phase, m.link_count())
}

fn ours() -> SetupEvent {
    SetupEvent::Uuids(Some(vec![SERVICE_UUID]))
}

#[test]
fn complete_peer_gets_a_link() {
    let (phase, links) = setup(vec![
        ours(),
        SetupEvent::Connection(false),
        SetupEvent::Completed,
        SetupEvent::Services(chat_services()),
        SetupEvent::Completed,
        SetupEvent::Completed,
    ]);
    assert_eq!(phase, SetupPhase::Done(SetupOutcome::Linked(0)));
    assert_eq!(links, 1);
    let (phase, links) = setup(vec![
        ours(),
        SetupEvent::Connection(true),
        SetupEvent::Services(chat_services()),
        SetupEvent::Completed,
    ]);
    assert_eq!(phase, SetupPhase::OpenNotify(AT));
    assert_eq!(links, 0);
}

#[test]
fn strangers_are_not_peers() {
    let not_a_peer = (SetupPhase::Done(SetupOutcome::NotAPeer), 0);
    assert_eq!(setup(vec![SetupEvent::Uuids(None)]), not_a_peer);
    assert_eq!(setup(vec![SetupEvent::Uuids(Some(vec![1]))]), not_a_peer);
    assert_eq!(
        setup(vec![ours(), SetupEvent::Connection(true), SetupEvent::Services(vec![])]),
        not_a_peer
    );
}

#[test]
fn failures_and_timeouts_end_the_setup() {
    let failed = (SetupPhase::Done(SetupOutcome::Failed), 0);
    let late = |s| (SetupPhase::Done(SetupOutcome::TimedOut(s)), 0);
    assert_eq!(setup(vec![SetupEvent::Failed]), failed);
    assert_eq!(setup(vec![ours(), SetupEvent::Failed]), failed);
    assert_eq!(
        setup(vec![ours(), SetupEvent::Connection(false), SetupEvent::TimedOut]),
        late(Stage::Connect)
    );
    assert_eq!(
        setup(vec![ours(), SetupEvent::Connection(true), SetupEvent::TimedOut]),
        late(Stage::ServiceResolution)
    );
    assert_eq!(
        setup(vec![
            ours(),
            SetupEvent::Connection(true),
            SetupEvent::Services(chat_services()),
            SetupEvent::TimedOut
        ]),
        late(Stage::WriteIo)
    );
    assert_eq!(
        setup(vec![
            ours(),
            SetupEvent::Connection(true),
            SetupEvent::Services(chat_services()),
            SetupEvent::Completed,
            SetupEvent::TimedOut,
            SetupEvent::Completed
        ]),
        late(Stage::NotifyIo)
    );
    assert_eq!(setup(vec![SetupEvent::Completed]), (SetupPhase::ReadUuids, 0));
}

#[test]
fn retry_loop_serves_and_starts_over() {
    let addr = Address([9; 6]);
    let mut r = us();
    let mut m = mesh();
    let (handle, _) = m.register_link();
    let mut phase = RetryPhase::BackOff;
    let script = [
        (RetryEvent::Woken, RetryPhase::OpenDevice, true),
        (RetryEvent::DeviceHandle(true), RetryPhase::Establish, false),
        (
            RetryEvent::Setup(SetupOutcome::Linked(handle.id)),
            RetryPhase::Serve(handle.id),
            true,
        ),
        (RetryEvent::LinkClosed, RetryPhase::QueryConnection { give_up: false }, true),
        (RetryEvent::Connection(true), RetryPhase::Disconnect { give_up: false }, true),
        (RetryEvent::Disconnected, RetryPhase::BackOff, true),
        (RetryEvent::Woken, RetryPhase::OpenDevice, true),
        (RetryEvent::DeviceHandle(false), RetryPhase::BackOff, true),
    ];
    for (event, want, scan) in script {
        let (next, ui) = connect_retry_loop(addr, phase, event, &mut r, &mut m);
        assert_eq!(next, want);
        assert_eq!(r.scan_allowed(), scan);
        if event == RetryEvent::LinkClosed {
            assert_eq!(ui, Some(UiEvent::LinkCountChanged(0)));
        } else {
            assert_eq!(ui, None);
        }
        phase = next;
    }
    assert!(r.claim(addr));
}

#[test]
fn retry_loop_gives_up_on_strangers_only() {
    let addr = Address([9; 6]);
    let mut r = us();
    let mut m = mesh();
    for (outcome, give_up) in [
        (SetupOutcome::NotAPeer, true),
        (SetupOutcome::Failed, false),
        (SetupOutcome::TimedOut(Stage::Connect), false),
    ] {
        let mut phase = RetryPhase::BackOff;
        for event in [
            RetryEvent::Woken,
            RetryEvent::DeviceHandle(true),
            RetryEvent::Setup(outcome),
        ] {
            phase = connect_retry_loop(addr, phase, event, &mut r, &mut m).0;
        }
        assert_eq!(phase, RetryPhase::QueryConnection { give_up });
        let (phase, _) =
            connect_retry_loop(addr, phase, RetryEvent::Connection(false), &mut r, &mut m);
        let want = if give_up { RetryPhase::Finished } else { RetryPhase::BackOff };
        assert_eq!(phase, want);
        assert!(r.scan_allowed());
    }
}

#[test]
fn retry_loop_leaves_a_taken_address_alone() {
    let addr = Address([9; 6]);
    let mut r = us();
    let mut m = mesh();
    assert!(r.claim(addr));
    let (phase, _) =
        connect_retry_loop(addr, RetryPhase::BackOff, RetryEvent::Woken, &mut r, &mut m);
    assert_eq!(phase, RetryPhase::BackOff);
    assert!(!r.claim(addr));
}

#[test]
fn candidates_by_tie_break() {
    let r = us();
    let high = Address([6; 6]);
    assert_eq!(bridge_candidate(&r, DiscoveryEvent::DeviceAdded(high)), Some(high));
    assert_eq!(bridge_candidate(&r, DiscoveryEvent::DeviceAdded(Address([4; 6]))), None);
    assert_eq!(bridge_candidate(&r, DiscoveryEvent::Other), None);
}

fn bridge(r: &mut PeerRegistry, m: &mut Mesh, events: Vec<BridgeEvent>) -> BridgePhase {
    let mut phase = BridgePhase::ReadUuids;
    for e in events {
        phase = try_bridge_device(Address([9; 6]), phase, e, r, m).0;
    }
    phase
}

#[test]
fn bridge_serves_and_cleans_up() {
    let addr = Address([9; 6]);
    let mut r = us();
    let mut m = mesh();
    let phase = bridge(
        &mut r,
        &mut m,
        vec![
            BridgeEvent::Uuids(Some(vec![SERVICE_UUID])),
            BridgeEvent::Connection(false),
            BridgeEvent::Completed,
            BridgeEvent::Services(chat_services()),
            BridgeEvent::Completed,
            BridgeEvent::Completed,
        ],
    );
    assert_eq!(phase, BridgePhase::Serve(0));
    assert_eq!(m.link_count(), 1);
    assert!(!r.claim(addr));
    let (phase, ui) = try_bridge_device(addr, phase, BridgeEvent::LinkClosed, &mut r, &mut m);
    assert_eq!(phase, BridgePhase::Done);
    assert_eq!(ui, Some(UiEvent::LinkCountChanged(0)));
    assert_eq!(m.link_count(), 0);
    assert!(r.claim(addr));
}

#[test]
fn bridge_ends_early() {
    let addr = Address([9; 6]);
    let mut r = us();
    let mut m = mesh();
    assert_eq!(bridge(&mut r, &mut m, vec![BridgeEvent::Uuids(None)]), BridgePhase::Done);
    let phase = bridge(
        &mut r,
        &mut m,
        vec![
            BridgeEvent::Uuids(Some(vec![SERVICE_UUID])),
            BridgeEvent::Connection(true),
            BridgeEvent::Services(vec![]),
        ],
    );
    assert_eq!(phase, BridgePhase::Done);
    let phase = bridge(
        &mut r,
        &mut m,
        vec![BridgeEvent::Uuids(Some(vec![SERVICE_UUID])), BridgeEvent::Failed],
    );
    assert_eq!(phase, BridgePhase::Failed);
    assert!(r.claim(addr));
    let phase = bridge(&mut r, &mut m, vec![BridgeEvent::Uuids(Some(vec![SERVICE_UUID]))]);
    assert_eq!(phase, BridgePhase::Done);
    assert!(!r.claim(addr));
    assert_eq!(m.link_count(), 0);
}

#[test]
fn failed_read_leaves_the_claim_of_another() {
    let addr = Address([9; 6]);
    let mut r = us();
    let mut m = mesh();
    assert!(r.claim(addr));
    assert_eq!(bridge(&mut r, &mut m, vec![BridgeEvent::Failed]), BridgePhase::Failed);
    assert!(!r.claim(addr));
    assert_eq!(
        bridge(&mut r, &mut m, vec![BridgeEvent::TimedOut]),
        BridgePhase::ReadUuids
    );
    assert!(!r.claim(addr));
}

#[test]
fn bridge_times_out_and_frees_the_address() {
    let addr = Address([9; 6]);
    let uuids = || BridgeEvent::Uuids(Some(vec![SERVICE_UUID]));
    let scripts = vec![
        (Stage::Connect, vec![uuids(), BridgeEvent::Connection(false)]),
        (Stage::ServiceResolution, vec![uuids(), BridgeEvent::Connection(true)]),
        (
            Stage::WriteIo,
            vec![
                uuids(),
                BridgeEvent::Connection(true),
                BridgeEvent::Services(chat_services()),
            ],
        ),
        (
            Stage::NotifyIo,
            vec![
                uuids(),
                BridgeEvent::Connection(true),
                BridgeEvent::Services(chat_services()),
                BridgeEvent::Completed,
            ],
        ),
    ];
    for (stage, events) in scripts {
        let mut r = us();
        let mut m = mesh();
        let phase = bridge(&mut r, &mut m, events);
        assert_eq!(limited_stage(phase), Some(stage));
        assert!(!r.claim(addr));
        let (phase, ui) = try_bridge_device(addr, phase, BridgeEvent::TimedOut, &mut r, &mut m);
        assert_eq!(phase, BridgePhase::Failed);
        assert_eq!(ui, None);
        assert_eq!(m.link_count(), 0);
        assert!(r.claim(addr));
    }
    assert_eq!(limited_stage(BridgePhase::ReadUuids), None);
    assert_eq!(limited_stage(BridgePhase::QueryConnection), None);
    assert_eq!(limited_stage(BridgePhase::Serve(0)), None);
}

#[test]
fn steps_of_one_attempt_leave_other_addresses_alone() {
    let other = Address([8; 6]);
    let mut r = us();
    let mut m = mesh();
    assert!(r.claim(other));
    let events = vec![
        BridgeEvent::Uuids(Some(vec![SERVICE_UUID])),
        BridgeEvent::Connection(false),
        BridgeEvent::TimedOut,
    ];
    assert_eq!(bridge(&mut r, &mut m, events), BridgePhase::Failed);
    assert!(!r.claim(other));
}

#[test]
fn setup_is_limited_in_four_phases() {
    let phases = [
        (SetupPhase::ReadUuids, None),
        (SetupPhase::QueryConnection, None),
        (SetupPhase::Connect, Some(Stage::Connect)),
        (SetupPhase::ResolveServices, Some(Stage::ServiceResolution)),
        (SetupPhase::OpenWrite(AT), Some(Stage::WriteIo)),
        (SetupPhase::OpenNotify(AT), Some(Stage::NotifyIo)),
        (SetupPhase::Done(SetupOutcome::NotAPeer), None),
    ];
    for (phase, limit) in phases {
        assert_eq!(limited_setup_stage(phase), limit);
        let want = match limit {
            Some(stage) => SetupPhase::Done(SetupOutcome::TimedOut(stage)),
            None => phase,
        };
        let (next, ui) = establish_link(phase, SetupEvent::TimedOut, &mut mesh());
        assert_eq!(next, want);
        assert_eq!(ui, None);
    }
}
