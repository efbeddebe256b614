//! Prevents the central and peripheral roles from independently opening two
//! physical BLE connections to the same peer address.
//!
//! A single BLE controller can only maintain one LE connection per peer
//! address. If our central role connects out to a device while that device's
//! central role connects to our peripheral side, both attempts race on the
//! radio. So for any pair of devices exactly one side is the initiator: the
//! one with the lower Bluetooth address. Both nodes agree on who connects to
//! whom without having to talk first.
//!
//! The registry also keeps the scanner quiet while a connection is being
//! established: a radio that scans and sets up a new connection at the same
//! time can lose that connection at once.
use crate::address::{
    address_number, precedes, precedes_by_number, precedes_is_total, Address, AddressSet,
};
use vstd::prelude::*;

verus! {

/// Which peers have an active link, and how many connection attempts have
/// asked for radio silence.
pub struct PeerRegistry {
    our_addr: Address,
    active: AddressSet,
    pauses: usize,
}

/// The mathematical content of a [`PeerRegistry`].
#[verifier::ext_equal]
pub struct RegistryView {
    pub our_addr: Address,
    pub active: Set<Address>,
    pub pauses: nat,
}

impl RegistryView {
    /// Whether scanning is allowed: no connection attempt is under way.
    pub open spec fn scan_allowed(self) -> bool {
        self.pauses == 0
    }

    /// Whether we are the one to dial out to `peer`.
    pub open spec fn initiates(self, peer: Address) -> bool {
        precedes(self.our_addr@, peer@)
    }
}

/// The registry with a claim on `peer`.
pub open spec fn claimed(r: RegistryView, peer: Address) -> RegistryView {
    RegistryView { active: r.active.insert(peer), ..r }
}

/// The registry without a claim on `peer`.
pub open spec fn released(r: RegistryView, peer: Address) -> RegistryView {
    RegistryView { active: r.active.remove(peer), ..r }
}

/// The registry with one more request for radio silence, as far as they can
/// be counted.
pub open spec fn paused(r: RegistryView) -> RegistryView {
    if r.pauses < usize::MAX {
        RegistryView { pauses: r.pauses + 1, ..r }
    } else {
        r
    }
}

/// The registry with one request for radio silence less, if there is any.
pub open spec fn resumed(r: RegistryView) -> RegistryView {
    if r.pauses > 0 {
        RegistryView { pauses: (r.pauses - 1) as nat, ..r }
    } else {
        r
    }
}

impl View for PeerRegistry {
    type V = RegistryView;

    closed spec fn view(&self) -> RegistryView {
        RegistryView {
            our_addr: self.our_addr,
            active: self.active@,
            pauses: self.pauses as nat,
        }
    }
}

impl PeerRegistry {
    /// A registry for a node with the given address, without any link.
    pub fn new(our_addr: Address) -> (r: PeerRegistry)
        ensures
            r@ == (RegistryView { our_addr, active: Set::empty(), pauses: 0 }),
    {
        PeerRegistry { our_addr, active: AddressSet::new(), pauses: 0 }
    }

    /// True if *we* are the one who should dial out to `peer` when both sides
    /// can see each other. The other side sees `false` for the same pair and
    /// stays passive.
    pub fn we_should_initiate(&self, peer: Address) -> (r: bool)
        ensures
            r == self@.initiates(peer),
    {
        self.our_addr.is_lower_than(&peer)
    }

    /// Tries to claim `peer` as having an active mesh link. Returns `true` if
    /// this is a new claim, `false` if a link to this address is already
    /// active and the caller should back off.
    pub fn claim(&mut self, peer: Address) -> (fresh: bool)
        ensures
            fresh == !old(self)@.active.contains(peer),
            final(self)@ == claimed(old(self)@, peer),
    {
        self.active.insert(peer)
    }

    /// Gives up the claim on `peer`, if there is one.
    pub fn release(&mut self, peer: Address)
        ensures
            final(self)@ == released(old(self)@, peer),
    {
        self.active.remove(peer);
    }

    /// Asks for radio silence for one connection attempt.
    pub fn pause_scanning(&mut self)
        ensures
            final(self)@ == paused(old(self)@),
    {
        if self.pauses < usize::MAX {
            self.pauses = self.pauses + 1;
        }
    }

    /// Ends the radio silence of one connection attempt.
    pub fn resume_scanning(&mut self)
        ensures
            final(self)@ == resumed(old(self)@),
    {
        if self.pauses > 0 {
            self.pauses = self.pauses - 1;
        }
    }

    /// Whether scanning is allowed right now.
    pub fn scan_allowed(&self) -> (r: bool)
        ensures
            r == self@.scan_allowed(),
    {
        self.pauses == 0
    }
}

/// Of two nodes with different addresses exactly one dials out to the other,
/// and no node dials out to itself.
pub proof fn exactly_one_side_initiates(here: RegistryView, there: RegistryView)
    ensures
        here.our_addr != there.our_addr ==> (here.initiates(there.our_addr)
            <==> !there.initiates(here.our_addr)),
        !here.initiates(here.our_addr),
{
    precedes_is_total(here.our_addr, there.our_addr);
}

/// The node with the lower address, read as one number, is the one that dials
/// out.
pub proof fn lower_address_initiates(r: RegistryView, peer: Address)
    ensures
        r.initiates(peer) <==> address_number(r.our_addr@) < address_number(peer@),
{
    precedes_by_number(r.our_addr, peer);
}

/// A claim succeeds once and fails until it is given up, and giving it up
/// restores the registry. Neither touches other addresses, nor the requests for
/// silence.
pub proof fn claim_is_exclusive(r: RegistryView, peer: Address)
    ensures
        claimed(r, peer).active.contains(peer),
        !released(r, peer).active.contains(peer),
        !r.active.contains(peer) ==> released(claimed(r, peer), peer) == r,
        forall|other: Address|
            other != peer ==> #[trigger] claimed(r, peer).active.contains(other)
                == r.active.contains(other),
        forall|other: Address|
            other != peer ==> #[trigger] released(r, peer).active.contains(other)
                == r.active.contains(other),
        claimed(r, peer).pauses == r.pauses && claimed(r, peer).our_addr == r.our_addr,
        released(r, peer).pauses == r.pauses && released(r, peer).our_addr == r.our_addr,
{
    if !r.active.contains(peer) {
        assert(released(claimed(r, peer), peer).active =~= r.active);
    }
}

/// Scanning stays off while any connection attempt asks for silence, and a
/// finished attempt leaves the requests of the others as they were. Without
/// any request, scanning is allowed. Neither touches the claims.
pub proof fn silence_lasts_for_every_attempt(r: RegistryView)
    requires
        r.pauses < usize::MAX,
    ensures
        !paused(r).scan_allowed(),
        resumed(paused(r)) == r,
        r.pauses > 1 ==> !resumed(r).scan_allowed(),
        r.pauses == 1 ==> resumed(r).scan_allowed(),
        r.pauses == 0 ==> r.scan_allowed() && resumed(r) == r,
        r.pauses > 0 ==> !r.scan_allowed(),
        paused(r).active == r.active && paused(r).our_addr == r.our_addr,
        resumed(r).active == r.active && resumed(r).our_addr == r.our_addr,
{
}

} // verus!
