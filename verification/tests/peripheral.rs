use blemesh::address::Address;
use blemesh::mesh::{Mesh, UiEvent};
use blemesh::peripheral::{
    ensure_link, on_control_event, reader_step, writer_step, ControlEvent, ControlStep, Peers,
    ReaderStep, Stash, WriterStep,
};
use blemesh::protocol::Packet;
use blemesh::pump::{on_write, WriteEvent};

#[test]
fn stash_gives_back_once() {
    let mut s: Stash<&str> = Stash::new();
    s.insert(3, "a");
    s.insert(4, "b");
    s.insert(3, "c");
    assert_eq!(s.take(3), Some("c"));
    assert_eq!(s.take(3), None);
    assert_eq!(s.take(4), Some("b"));
}

#[test]
fn one_link_per_central() {
    let mut m = Mesh::new("alice".to_string());
    let mut peers = Peers::new();
    let mut stash: Stash<u32> = Stash::new();
    let a = Address([1; 6]);
    let b = Address([2; 6]);
    let (id, ui) = ensure_link(&mut m, &mut peers, &mut stash, a, 10);
    assert_eq!((id, ui), (0, Some(UiEvent::LinkCountChanged(1))));
    let (id, ui) = ensure_link(&mut m, &mut peers, &mut stash, a, 11);
    assert_eq!((id, ui), (0, None));
    let (id, ui) = ensure_link(&mut m, &mut peers, &mut stash, b, 12);
    assert_eq!((id, ui), (1, Some(UiEvent::LinkCountChanged(2))));
    assert_eq!(stash.take(0), Some(10));
    assert_eq!(stash.take(1), Some(12));
}

#[test]
fn control_events() {
    let mut m = Mesh::new("alice".to_string());
    let mut peers = Peers::new();
    let mut stash: Stash<u32> = Stash::new();
    let addr = Address([1; 6]);
    let refused = ControlEvent::Write { addr, accepted: false };
    let r = on_control_event(&mut m, &mut peers, &mut stash, refused, 1);
    assert_eq!(r, (ControlStep::Ignore, None));
    assert_eq!(m.link_count(), 0);
    let r = on_control_event(&mut m, &mut peers, &mut stash, ControlEvent::Notify { addr }, 2);
    assert_eq!(r, (ControlStep::SpawnWriter(0), Some(UiEvent::LinkCountChanged(1))));
    let accepted = ControlEvent::Write { addr, accepted: true };
    let r = on_control_event(&mut m, &mut peers, &mut stash, accepted, 3);
    assert_eq!(r, (ControlStep::SpawnReader(0), None));
    let r = on_control_event(&mut m, &mut peers, &mut stash, ControlEvent::Closed, 4);
    assert_eq!(r, (ControlStep::Stop, None));
    assert_eq!(stash.take(0), Some(2));
}

#[test]
fn reader_removes_its_link_at_the_end() {
    let mut m = Mesh::new("alice".to_string());
    let (handle, _) = m.register_link();
    let p = Packet::with_id([3; 16], "bob", "hi").encode().unwrap();
    match reader_step(&mut m, handle.id, Some(&p)) {
        ReaderStep::Deliver(d) => {
            assert!(d.ui.is_some());
            assert_eq!(d.flood.unwrap().to, Vec::<u64>::new());
        }
        ReaderStep::Closed(_) => panic!("closed"),
    }
    let closed = ReaderStep::Closed(UiEvent::LinkCountChanged(0));
    assert_eq!(reader_step(&mut m, handle.id, Some(&[])), closed);
    assert_eq!(reader_step(&mut m, handle.id, None), closed);
    assert_eq!(m.link_count(), 0);
}

#[test]
fn writer_removes_its_link_at_the_end() {
    for end in [WriteEvent::Failed, WriteEvent::QueueClosed] {
        let mut m = Mesh::new("alice".to_string());
        let (handle, _) = m.register_link();
        assert_eq!(writer_step(&mut m, handle.id, WriteEvent::Written), WriterStep::Next);
        assert_eq!(m.link_count(), 1);
        assert_eq!(
            writer_step(&mut m, handle.id, end),
            WriterStep::Closed(UiEvent::LinkCountChanged(0))
        );
    }
}

#[test]
fn writing_stops_at_the_first_failure() {
    assert!(on_write(WriteEvent::Written));
    assert!(!on_write(WriteEvent::Failed));
    assert!(!on_write(WriteEvent::QueueClosed));
}
