//! The mesh-chat GATT service and its single characteristic.
//!
//! Every node advertises and looks for the same service UUID, so that peers
//! can find each other. UUIDs are given by their 128-bit value.
use vstd::prelude::*;

verus! {

/// The service that every node offers.
pub const SERVICE_UUID: u128 = 0x7a1e8f00_0001_4000_8000_00805f9b34fb;

/// The characteristic over which packets are written and notified.
pub const CHAT_CHAR_UUID: u128 = 0x7a1e8f00_0002_4000_8000_00805f9b34fb;

/// What a peer's GATT server offers under one service.
#[derive(Debug, PartialEq, Eq)]
pub struct ServiceInfo {
    pub uuid: u128,
    pub characteristics: Vec<u128>,
}

/// Picks one characteristic of one service, both by position.
#[derive(Debug, Clone, Copy, PartialEq, Eq, Structural)]
pub struct CharRef {
    pub service: usize,
    pub characteristic: usize,
}

/// Whether `at` picks a chat characteristic under our service.
pub open spec fn is_chat(services: Seq<ServiceInfo>, at: CharRef) -> bool {
    &&& at.service < services.len()
    &&& services[at.service as int].uuid == SERVICE_UUID
    &&& at.characteristic < services[at.service as int].characteristics@.len()
    &&& services[at.service as int].characteristics@[at.characteristic as int] == CHAT_CHAR_UUID
}

/// Whether `a` comes no later than `b`.
pub open spec fn not_after(a: CharRef, b: CharRef) -> bool {
    a.service < b.service || (a.service == b.service && a.characteristic <= b.characteristic)
}

/// Whether `at` picks the last chat characteristic.
pub open spec fn is_last_chat(services: Seq<ServiceInfo>, at: CharRef) -> bool {
    &&& is_chat(services, at)
    &&& forall|other: CharRef| #[trigger] is_chat(services, other) ==> not_after(other, at)
}

/// The last chat characteristic, if there is any.
pub open spec fn chat_characteristic(services: Seq<ServiceInfo>) -> Option<CharRef> {
    if exists|at: CharRef| is_last_chat(services, at) {
        Some(choose|at: CharRef| is_last_chat(services, at))
    } else {
        None
    }
}

/// Whether a device that advertises `uuids` offers our service.
pub fn advertises_service(uuids: &Vec<u128>) -> (r: bool)
    ensures
        r == uuids@.contains(SERVICE_UUID),
{
    let mut i: usize = 0;
    while i < uuids.len()
        invariant
            i <= uuids.len(),
            forall|j: int| 0 <= j < i ==> uuids@[j] != SERVICE_UUID,
        decreases uuids.len() - i,
    {
        if uuids[i] == SERVICE_UUID {
            return true;
        }
        i += 1;
    }
    false
}

/// Whether the characteristics of a service are of interest.
pub fn is_chat_service(uuid: u128) -> (r: bool)
    ensures
        r == (uuid == SERVICE_UUID),
{
    uuid == SERVICE_UUID
}

/// The chat characteristic among what a peer offers. If it occurs more than
/// once, the last one counts.
pub fn find_chat_characteristic(services: &Vec<ServiceInfo>) -> (r: Option<CharRef>)
    ensures
        r == chat_characteristic(services@),
        r matches Some(at) ==> is_last_chat(services@, at),
        r is None ==> forall|at: CharRef| !is_chat(services@, at),
{
    let mut found: Option<CharRef> = None;
    let mut s: usize = 0;
    while s < services.len()
        invariant
            s <= services.len(),
            found matches Some(at) ==> is_chat(services@, at),
            forall|at: CharRef| #[trigger]
                is_chat(services@, at) && at.service < s ==> (found matches Some(last)
                    && not_after(at, last)),
            found matches Some(at) ==> at.service < s,
        decreases services.len() - s,
    {
        if is_chat_service(services[s].uuid) {
            let chars = &services[s].characteristics;
            let mut c: usize = 0;
            while c < chars.len()
                invariant
                    s < services.len(),
                    services@[s as int].uuid == SERVICE_UUID,
                    *chars == services@[s as int].characteristics,
                    c <= chars.len(),
                    found matches Some(at) ==> is_chat(services@, at),
                    forall|at: CharRef| #[trigger]
                        is_chat(services@, at) && (at.service < s || (at.service == s
                            && at.characteristic < c)) ==> (found matches Some(last) && not_after(
                            at,
                            last,
                        )),
                    found matches Some(at) ==> at.service < s || (at.service == s
                        && at.characteristic < c),
                decreases chars.len() - c,
            {
                if chars[c] == CHAT_CHAR_UUID {
                    found = Some(CharRef { service: s, characteristic: c });
                }
                c += 1;
            }
        }
        s += 1;
    }
    proof {
        match found {
            Some(at) => {
                assert(is_last_chat(services@, at));
                last_chat_is_unique(services@, at);
            },
            None => {},
        }
    }
    found
}

/// There is at most one last chat characteristic.
pub proof fn last_chat_is_unique(services: Seq<ServiceInfo>, at: CharRef)
    requires
        is_last_chat(services, at),
    ensures
        chat_characteristic(services) == Some(at),
{
    let chosen = choose|other: CharRef| is_last_chat(services, other);
    assert(is_chat(services, chosen));
    assert(is_chat(services, at));
}

/// Whether there is a chat characteristic under our service decides whether
/// one is found, at whatever place it stands. The one that is found is one of
/// them, and none of them stands behind it.
pub proof fn chat_characteristic_is_found(services: Seq<ServiceInfo>)
    ensures
        chat_characteristic(services) is Some <==> exists|s: usize, c: usize|
            s < services.len() && services[s as int].uuid == SERVICE_UUID && c
                < services[s as int].characteristics@.len()
                && #[trigger] services[s as int].characteristics@[c as int] == CHAT_CHAR_UUID,
        chat_characteristic(services) matches Some(at) ==> {
            &&& at.service < services.len()
            &&& services[at.service as int].uuid == SERVICE_UUID
            &&& at.characteristic < services[at.service as int].characteristics@.len()
            &&& services[at.service as int].characteristics@[at.characteristic as int]
                == CHAT_CHAR_UUID
            &&& forall|s: usize, c: usize|
                s < services.len() && services[s as int].uuid == SERVICE_UUID && c
                    < services[s as int].characteristics@.len()
                    && #[trigger] services[s as int].characteristics@[c as int] == CHAT_CHAR_UUID
                    ==> s < at.service || (s == at.service && c <= at.characteristic)
        },
{
    if exists|s: usize, c: usize|
        s < services.len() && services[s as int].uuid == SERVICE_UUID && c
            < services[s as int].characteristics@.len()
            && #[trigger] services[s as int].characteristics@[c as int] == CHAT_CHAR_UUID {
        let (s, c) = choose|s: usize, c: usize|
            s < services.len() && services[s as int].uuid == SERVICE_UUID && c
                < services[s as int].characteristics@.len()
                && #[trigger] services[s as int].characteristics@[c as int] == CHAT_CHAR_UUID;
        let last = lemma_last_chat(services, CharRef { service: s, characteristic: c });
        last_chat_is_unique(services, last);
    }
    if let Some(at) = chat_characteristic(services) {
        assert(is_last_chat(services, at));
        assert(services[at.service as int].characteristics@[at.characteristic as int]
            == CHAT_CHAR_UUID);
        assert forall|s: usize, c: usize|
            s < services.len() && services[s as int].uuid == SERVICE_UUID && c
                < services[s as int].characteristics@.len()
                && #[trigger] services[s as int].characteristics@[c as int]
                == CHAT_CHAR_UUID implies s < at.service || (s == at.service && c
            <= at.characteristic) by {
            assert(is_chat(services, CharRef { service: s, characteristic: c }));
        }
    }
}

proof fn lemma_last_chat(services: Seq<ServiceInfo>, at: CharRef) -> (last: CharRef)
    requires
        is_chat(services, at),
    ensures
        is_last_chat(services, last),
    decreases
            services.len() - at.service,
            services[at.service as int].characteristics@.len() - at.characteristic,
{
    if is_last_chat(services, at) {
        at
    } else {
        let other = choose|other: CharRef| #[trigger]
            is_chat(services, other) && !not_after(other, at);
        lemma_last_chat(services, other)
    }
}

} // verus!
