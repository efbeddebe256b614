//! Bluetooth device addresses and their order.
use std::collections::HashSet;
use vstd::prelude::*;

verus! {

broadcast use vstd::std_specs::hash::group_hash_axioms;

/// A Bluetooth device address, most significant byte first.
#[derive(Debug, Clone, Copy, PartialEq, Eq)]
pub struct Address(pub [u8; 6]);

impl View for Address {
    type V = Seq<u8>;

    open spec fn view(&self) -> Seq<u8> {
        self.0@
    }
}

/// Byte-wise lexicographic order: at the first byte in which the two differ,
/// `a` has the lower one.
pub open spec fn precedes(a: Seq<u8>, b: Seq<u8>) -> bool {
    exists|i: int|
        #![trigger a[i]]
        #![trigger b[i]]
        0 <= i < a.len() && i < b.len() && a[i] < b[i] && forall|j: int| 0 <= j < i ==> a[j] == b[j]
}

/// The address read as one big-endian number.
pub open spec fn address_number(a: Seq<u8>) -> int {
    a[0] * 0x100_0000_0000 + a[1] * 0x1_0000_0000 + a[2] * 0x100_0000 + a[3] * 0x1_0000 + a[4]
        * 0x100 + a[5]
}

/// `bluer::Address` orders addresses byte by byte: its order is derived from
/// that of the byte array it wraps, which is lexicographic.
#[verifier::external_body]
fn address_less(a: [u8; 6], b: [u8; 6]) -> (r: bool)
    ensures
        r == precedes(a@, b@),
{
    bluer::Address(a) < bluer::Address(b)
}

impl Address {
    /// Whether this address is the lower of the two.
    pub fn is_lower_than(&self, other: &Address) -> (r: bool)
        ensures
            r == precedes(self@, other@),
    {
        address_less(self.0, other.0)
    }

    /// This address as one number.
    pub fn number(&self) -> (n: u64)
        ensures
            n == address_number(self@),
    {
        self.0[0] as u64 * 0x100_0000_0000 + self.0[1] as u64 * 0x1_0000_0000 + self.0[2] as u64
            * 0x100_0000 + self.0[3] as u64 * 0x1_0000 + self.0[4] as u64 * 0x100 + self.0[5] as u64
    }
}

/// A set of addresses.
pub struct AddressSet {
    numbers: HashSet<u64>,
}

impl View for AddressSet {
    type V = Set<Address>;

    closed spec fn view(&self) -> Set<Address> {
        Set::new(|a: Address| self.numbers@.contains(address_number(a@) as u64))
    }
}

impl AddressSet {
    /// The empty set.
    pub fn new() -> (s: AddressSet)
        ensures
            s@ == Set::<Address>::empty(),
    {
        let s = AddressSet { numbers: HashSet::new() };
        assert(s@ =~= Set::empty());
        s
    }

    /// Adds an address, and tells whether it is new.
    pub fn insert(&mut self, addr: Address) -> (fresh: bool)
        ensures
            fresh == !old(self)@.contains(addr),
            final(self)@ == old(self)@.insert(addr),
    {
        let ghost before = self@;
        let fresh = self.numbers.insert(addr.number());
        proof {
            assert forall|a: Address| #[trigger] self@.contains(a) == before.insert(addr).contains(
                a,
            ) by {
                lemma_number_determines(a, addr);
            }
            assert(self@ =~= before.insert(addr));
        }
        fresh
    }

    /// Takes an address out, if it is there.
    pub fn remove(&mut self, addr: Address)
        ensures
            final(self)@ == old(self)@.remove(addr),
    {
        let ghost before = self@;
        self.numbers.remove(&addr.number());
        proof {
            assert forall|a: Address| #[trigger] self@.contains(a) == before.remove(addr).contains(
                a,
            ) by {
                lemma_number_determines(a, addr);
            }
            assert(self@ =~= before.remove(addr));
        }
    }
}

/// Two addresses are equal exactly when their numbers, as machine integers,
/// are.
pub proof fn lemma_number_determines(a: Address, b: Address)
    ensures
        a == b <==> address_number(a@) as u64 == address_number(b@) as u64,
        0 <= address_number(a@) <= u64::MAX,
        0 <= address_number(b@) <= u64::MAX,
{
    if address_number(a@) == address_number(b@) {
        address_number_injective(a, b);
    }
}

/// An address is determined by its number.
pub proof fn address_number_injective(a: Address, b: Address)
    requires
        address_number(a@) == address_number(b@),
    ensures
        a == b,
{
    if a != b {
        precedes_is_total(a, b);
        if precedes(a@, b@) {
            lemma_precedes_number(a@, b@);
        } else {
            lemma_precedes_number(b@, a@);
        }
    }
}

/// For any two different addresses exactly one is the lower one, and none is
/// lower than itself.
pub proof fn precedes_is_total(a: Address, b: Address)
    ensures
        a != b ==> (precedes(a@, b@) <==> !precedes(b@, a@)),
        !precedes(a@, a@),
{
    if precedes(a@, b@) && precedes(b@, a@) {
        let i = choose|i: int|
            #![trigger a@[i]]
            0 <= i < a@.len() && i < b@.len() && a@[i] < b@[i] && forall|j: int|
                0 <= j < i ==> a@[j] == b@[j];
        let k = choose|k: int|
            #![trigger b@[k]]
            0 <= k < b@.len() && k < a@.len() && b@[k] < a@[k] && forall|j: int|
                0 <= j < k ==> b@[j] == a@[j];
        assert(a@[i] < b@[i] && b@[k] < a@[k]);
        assert(false);
    }
    if !precedes(a@, b@) && !precedes(b@, a@) {
        lemma_equal_up_to(a@, b@, 6);
        assert(a@ =~= b@);
        assert(a.0 =~= b.0);
    }
}

proof fn lemma_equal_up_to(a: Seq<u8>, b: Seq<u8>, n: int)
    requires
        a.len() == 6,
        b.len() == 6,
        0 <= n <= 6,
        !precedes(a, b),
        !precedes(b, a),
    ensures
        forall|j: int| 0 <= j < n ==> a[j] == b[j],
    decreases n,
{
    if n > 0 {
        lemma_equal_up_to(a, b, n - 1);
        assert(a[n - 1] == b[n - 1]);
    }
}

/// The order of addresses is the order of their numbers.
pub proof fn precedes_by_number(a: Address, b: Address)
    ensures
        precedes(a@, b@) <==> address_number(a@) < address_number(b@),
{
    if precedes(a@, b@) {
        lemma_precedes_number(a@, b@);
    } else if a != b {
        precedes_is_total(a, b);
        lemma_precedes_number(b@, a@);
    }
}

proof fn lemma_precedes_number(a: Seq<u8>, b: Seq<u8>)
    requires
        a.len() == 6,
        b.len() == 6,
        precedes(a, b),
    ensures
        address_number(a) < address_number(b),
{
    let i = choose|i: int|
        #![trigger a[i]]
        0 <= i < a.len() && i < b.len() && a[i] < b[i] && forall|j: int| 0 <= j < i ==> a[j] == b[j];
    assert(a[i] < b[i]);
    assert(i == 0 || i == 1 || i == 2 || i == 3 || i == 4 || i == 5);
}

} // verus!
