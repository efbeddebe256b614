use blemesh::address::{Address, AddressSet};
use blemesh::peer_registry::PeerRegistry;

#[test]
fn lower_address_initiates() {
    let low = Address([0x00, 0x11, 0x22, 0x33, 0x44, 0x55]);
    let high = Address([0x00, 0x11, 0x22, 0x33, 0x44, 0x56]);
    assert!(PeerRegistry::new(low).we_should_initiate(high));
    assert!(!PeerRegistry::new(high).we_should_initiate(low));
    assert!(!PeerRegistry::new(low).we_should_initiate(low));
}

#[test]
fn first_differing_byte_decides() {
    let a = Address([0x01, 0xff, 0xff, 0xff, 0xff, 0xff]);
    let b = Address([0x02, 0x00, 0x00, 0x00, 0x00, 0x00]);
    assert!(a.is_lower_than(&b));
    assert!(!b.is_lower_than(&a));
    assert_eq!(a.number(), 0x01ff_ffff_ffff);
    assert!(a.number() < b.number());
}

#[test]
fn order_is_that_of_bluer() {
    let samples = [
        [0, 0, 0, 0, 0, 0],
        [0, 0, 0, 0, 0, 255],
        [0, 0, 0, 0, 1, 0],
        [0, 255, 0, 0, 0, 0],
        [1, 0, 0, 0, 0, 0],
        [255, 255, 255, 255, 255, 255],
    ];
    for a in samples {
        for b in samples {
            assert_eq!(
                Address(a).is_lower_than(&Address(b)),
                bluer::Address(a) < bluer::Address(b)
            );
        }
    }
}

#[test]
fn claims_are_exclusive() {
    let a = Address([1; 6]);
    let b = Address([2; 6]);
    let mut r = PeerRegistry::new(Address([0; 6]));
    assert!(r.claim(a));
    assert!(!r.claim(a));
    assert!(r.claim(b));
    r.release(a);
    assert!(!r.claim(b));
    assert!(r.claim(a));
    r.release(Address([3; 6]));
    assert!(!r.claim(a));
}

#[test]
fn silence_lasts_until_the_last_attempt_ends() {
    let mut r = PeerRegistry::new(Address([0; 6]));
    assert!(r.scan_allowed());
    r.pause_scanning();
    r.pause_scanning();
    assert!(!r.scan_allowed());
    r.resume_scanning();
    assert!(!r.scan_allowed());
    r.resume_scanning();
    assert!(r.scan_allowed());
    r.resume_scanning();
    assert!(r.scan_allowed());
}

#[test]
fn address_set() {
    let mut s = AddressSet::new();
    let a = Address([1, 2, 3, 4, 5, 6]);
    assert!(s.insert(a));
    assert!(!s.insert(a));
    assert!(s.insert(Address([6, 5, 4, 3, 2, 1])));
    s.remove(a);
    assert!(s.insert(a));
}
