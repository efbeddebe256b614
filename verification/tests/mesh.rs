use blemesh::mesh::{Delivery, Flood, Mesh, UiEvent};
use blemesh::protocol::Packet;
use blemesh::pump::{on_read, on_read_at, ReadStep};
use blemesh::seen::{SeenCache, SEEN_CAPACITY, SEEN_TTL};

fn mesh_with_links(n: u64) -> Mesh {
    let mut m = Mesh::new("alice".to_string());
    for i in 0..n {
        assert!(m.can_register());
        let (handle, ui) = m.register_link();
        assert_eq!(handle.id, i);
        assert_eq!(ui, UiEvent::LinkCountChanged(i as usize + 1));
    }
    m
}

fn packet(n: u32) -> Packet {
    let mut id = [0u8; 16];
    id[0..4].copy_from_slice(&n.to_le_bytes());
    Packet::with_id(id, "bob", "hi")
}

fn nothing() -> Delivery {
    Delivery { ui: None, flood: None }
}

#[test]
fn links_come_and_go() {
    let mut m = mesh_with_links(3);
    assert_eq!(m.link_count(), 3);
    assert_eq!(m.unregister_link(1), UiEvent::LinkCountChanged(2));
    assert_eq!(m.unregister_link(1), UiEvent::LinkCountChanged(2));
    assert_eq!(m.link_count(), 2);
    let (handle, ui) = m.register_link();
    assert_eq!(handle.id, 3);
    assert_eq!(ui, UiEvent::LinkCountChanged(3));
    assert_eq!(m.unregister_link(3), UiEvent::LinkCountChanged(2));
}

#[test]
fn new_packet_is_shown_and_forwarded_to_the_others() {
    let mut m = mesh_with_links(3);
    let p = packet(1);
    let d = m.handle_incoming_at(1, &p.encode().unwrap(), 0);
    assert_eq!(
        d.ui,
        Some(UiEvent::Message { sender: "bob".to_string(), text: "hi".to_string() })
    );
    let flood = d.flood.unwrap();
    assert_eq!(flood.to, vec![0, 2]);
    let forwarded = Packet::decode(&flood.data).unwrap();
    assert_eq!(forwarded, p.with_decremented_ttl().unwrap());
}

#[test]
fn repeat_is_dropped_from_any_link() {
    let mut m = mesh_with_links(3);
    let p = packet(1);
    assert!(m.handle_incoming_at(1, &p.encode().unwrap(), 0).ui.is_some());
    assert_eq!(m.handle_incoming_at(1, &p.encode().unwrap(), 1), nothing());
    let mut q = p.clone();
    q.ttl = 3;
    assert_eq!(m.handle_incoming_at(2, &q.encode().unwrap(), SEEN_TTL), nothing());
    assert!(m.handle_incoming_at(2, &q.encode().unwrap(), SEEN_TTL + 1).ui.is_some());
}

#[test]
fn packet_without_hops_is_shown_only() {
    let mut m = mesh_with_links(2);
    let mut p = packet(1);
    p.ttl = 0;
    let d = m.handle_incoming_at(0, &p.encode().unwrap(), 0);
    assert!(d.ui.is_some());
    assert_eq!(d.flood, None);
    let mut p = packet(2);
    p.ttl = 1;
    let d = m.handle_incoming_at(0, &p.encode().unwrap(), 0);
    assert_eq!(Packet::decode(&d.flood.unwrap().data).unwrap().ttl, 0);
}

#[test]
fn malformed_bytes_are_dropped() {
    let mut m = mesh_with_links(2);
    assert_eq!(m.handle_incoming_at(0, b"not a packet", 0), nothing());
    assert_eq!(m.handle_incoming(0, &[]), nothing());
}

#[test]
fn oversized_packet_is_shown_but_not_forwarded() {
    let mut m = mesh_with_links(2);
    let mut bytes = vec![9u8; 16];
    bytes.extend_from_slice(&[3, 0, 200, 1]);
    bytes.extend_from_slice(&[b'x'; 456]);
    let d = m.handle_incoming_at(0, &bytes, 0);
    assert!(d.ui.is_some());
    assert_eq!(d.flood, None);
}

#[test]
fn own_message_goes_to_all_links_and_is_not_processed_again() {
    let mut m = mesh_with_links(2);
    let Flood { data, to } = m.send_local("hello").unwrap();
    assert_eq!(to, vec![0, 1]);
    let p = Packet::decode(&data).unwrap();
    assert_eq!(p.sender, "alice");
    assert_eq!(p.payload, "hello");
    assert_eq!(p.ttl, 7);
    assert_eq!(m.handle_incoming(1, &data), nothing());
}

#[test]
fn own_packet_at_a_time() {
    let mut m = mesh_with_links(1);
    let p = packet(5);
    let flood = m.send_packet_at(&p, 10).unwrap();
    assert_eq!(flood.data, p.encode().unwrap());
    assert_eq!(flood.to, vec![0]);
    assert_eq!(m.handle_incoming_at(0, &p.encode().unwrap(), 10 + SEEN_TTL), nothing());
    assert!(m.handle_incoming_at(0, &p.encode().unwrap(), 11 + SEEN_TTL).ui.is_some());
}

#[test]
fn long_message_is_rejected() {
    let mut m = mesh_with_links(2);
    assert_eq!(m.send_local(&"x".repeat(400)), None);
    assert!(m.send_local(&"x".repeat(350)).is_some());
}

#[test]
fn message_crosses_two_nodes() {
    let mut a = mesh_with_links(1);
    let mut b = Mesh::new("bob".to_string());
    b.register_link();
    b.register_link();
    let out = a.send_local("ping").unwrap();
    let d = b.handle_incoming(0, &out.data);
    assert_eq!(
        d.ui,
        Some(UiEvent::Message { sender: "alice".to_string(), text: "ping".to_string() })
    );
    let back = d.flood.unwrap();
    assert_eq!(back.to, vec![1]);
    assert_eq!(Packet::decode(&back.data).unwrap().ttl, 6);
    assert_eq!(a.handle_incoming(0, &back.data), nothing());
}

#[test]
fn clock_of_incoming_packets() {
    let mut m = mesh_with_links(2);
    let p = packet(1).encode().unwrap();
    assert!(m.handle_incoming(0, &p).ui.is_some());
    assert_eq!(m.handle_incoming(1, &p), nothing());
}

#[test]
fn the_newest_ids_are_remembered() {
    let mut m = mesh_with_links(0);
    for n in 0..SEEN_CAPACITY as u32 {
        assert!(m.handle_incoming_at(0, &packet(n).encode().unwrap(), 0).ui.is_some());
    }
    assert_eq!(m.handle_incoming_at(0, &packet(0).encode().unwrap(), 0), nothing());
    assert!(m.handle_incoming_at(0, &packet(9999).encode().unwrap(), 0).ui.is_some());
    assert_eq!(m.handle_incoming_at(0, &packet(1).encode().unwrap(), 0), nothing());
    assert!(m.handle_incoming_at(0, &packet(0).encode().unwrap(), 0).ui.is_some());
}

#[test]
fn cache_evicts_by_age_and_count() {
    let mut c = SeenCache::new();
    assert!(c.note_arrival([1; 16], 0));
    assert!(!c.note_arrival([1; 16], SEEN_TTL));
    assert!(c.note_arrival([1; 16], SEEN_TTL + 1));
    c.note_own([2; 16], SEEN_TTL + 2);
    assert!(!c.note_arrival([2; 16], SEEN_TTL + 2));
    // A clock that steps back makes nothing older.
    assert!(!c.note_arrival([2; 16], 0));
}

#[test]
fn reads_are_delivered_until_the_stream_ends() {
    let mut m = mesh_with_links(2);
    let p = packet(1).encode().unwrap();
    let mut fresh = mesh_with_links(2);
    let want = fresh.handle_incoming_at(0, &p, 3);
    assert_eq!(on_read_at(&mut m, 0, Some(&p), 3), ReadStep::Deliver(want));
    assert_eq!(on_read_at(&mut m, 0, Some(&[]), 3), ReadStep::Stop);
    assert_eq!(on_read_at(&mut m, 0, None, 3), ReadStep::Stop);
    assert_eq!(m.link_count(), 2);
    assert_eq!(on_read(&mut m, 0, Some(&p)), ReadStep::Deliver(nothing()));
    assert_eq!(on_read(&mut m, 0, None), ReadStep::Stop);
}

#[test]
fn message_travels_eight_nodes_and_stops() {
    let mut author = mesh_with_links(1);
    let mut data = author.send_local("far").unwrap().data;
    for hop in 0..8u8 {
        let mut node = mesh_with_links(2);
        let d = node.handle_incoming_at(0, &data, 0);
        assert!(d.ui.is_some());
        assert_eq!(Packet::decode(&data).unwrap().ttl, 7 - hop);
        match d.flood {
            Some(flood) => data = flood.data,
            None => assert_eq!(hop, 7),
        }
    }
}

#[test]
fn nickname_can_be_read() {
    let m = Mesh::new("alice".to_string());
    assert_eq!(m.nickname(), "alice");
    assert_eq!(m.nickname, "alice");
}

#[test]
fn repeats_and_strays_push_nothing_out() {
    let mut m = mesh_with_links(2);
    let first = packet(1).encode().unwrap();
    let second = packet(2).encode().unwrap();
    assert!(m.handle_incoming_at(0, &first, 0).ui.is_some());
    assert!(m.handle_incoming_at(0, &second, 0).ui.is_some());
    for _ in 0..SEEN_CAPACITY + 1 {
        assert_eq!(m.handle_incoming_at(1, &second, 1), nothing());
        assert_eq!(m.handle_incoming_at(1, b"not a packet", 1), nothing());
        let (handle, _) = m.register_link();
        m.unregister_link(handle.id);
    }
    assert_eq!(m.handle_incoming_at(1, &first, 2), nothing());
}

#[test]
fn own_message_is_crowded_out_by_new_ids() {
    let mut m = mesh_with_links(2);
    let own = packet(0);
    let data = own.encode().unwrap();
    assert!(m.send_packet_at(&own, 0).is_some());
    for n in 1..SEEN_CAPACITY as u32 {
        assert!(m.handle_incoming_at(0, &packet(n).encode().unwrap(), 0).ui.is_some());
    }
    let mut echo = own.clone();
    echo.ttl = 5;
    assert_eq!(m.handle_incoming_at(0, &echo.encode().unwrap(), 0), nothing());
    assert!(m.handle_incoming_at(0, &packet(9999).encode().unwrap(), 0).ui.is_some());
    let d = m.handle_incoming_at(0, &data, 0);
    assert_eq!(
        d.ui,
        Some(UiEvent::Message { sender: "bob".to_string(), text: "hi".to_string() })
    );
    assert_eq!(d.flood.unwrap().to, vec![1]);
}

#[test]
fn repeats_do_not_make_a_message_younger() {
    let mut m = mesh_with_links(2);
    let data = packet(1).encode().unwrap();
    assert!(m.handle_incoming_at(0, &data, 1000).ui.is_some());
    for part in 1..11u128 {
        assert_eq!(m.handle_incoming_at(1, &data, 1000 + SEEN_TTL / 10 * part), nothing());
    }
    let d = m.handle_incoming_at(1, &data, 1001 + SEEN_TTL);
    assert_eq!(
        d.ui,
        Some(UiEvent::Message { sender: "bob".to_string(), text: "hi".to_string() })
    );
    assert_eq!(d.flood.unwrap().to, vec![0]);
}

#[test]
fn clock_runs_on_while_links_change() {
    let mut m = mesh_with_links(1);
    let data = packet(1).encode().unwrap();
    assert!(m.handle_incoming(0, &data).ui.is_some());
    let (handle, _) = m.register_link();
    assert!(m.send_local("hello").is_some());
    assert_eq!(m.handle_incoming(handle.id, &data), nothing());
    m.unregister_link(handle.id);
    assert_eq!(m.handle_incoming(0, &data), nothing());
    assert_eq!(m.nickname(), "alice");
}
