//! The device-sighting registry: first-seen devices, deduplicated by
//! hardware address, each annotated with its resolved vendor label.
//! Insertion is the only mutation; a membership test before insertion
//! enforces the dedup, so the registry grows by at most one entry per
//! distinct address however often an address is observed.

use vstd::prelude::*;

use crate::hw::{lemma_addr_key_injective, HardwareAddress};
use crate::vendor::{resolve_label, VendorDirectory};

verus! {

broadcast use vstd::std_specs::hash::group_hash_axioms;

/// One registry entry: the address and its vendor label, created the first
/// time the address is observed and never mutated afterwards.
#[derive(Clone, Debug)]
pub struct DeviceSighting {
    pub address: HardwareAddress,
    pub vendor_label: String,
}

/// The mathematical content of a registry: sighted (address, label) pairs
/// in order of first sighting.
pub type SightingSeq = Seq<(Seq<u8>, Seq<char>)>;

/// The mathematical content of one sighting.
pub open spec fn sighting_model(s: DeviceSighting) -> (Seq<u8>, Seq<char>) {
    (s.address@, s.vendor_label@)
}

/// The address has already been sighted.
pub open spec fn seen_addr(v: SightingSeq, a: Seq<u8>) -> bool {
    exists|i: int| 0 <= i < v.len() && (#[trigger] v[i]).0 == a
}

/// The registry contents after one observation of address `a` resolving to
/// label `l`: unchanged when `a` was already sighted, extended by one entry
/// otherwise.
pub open spec fn after_observe(v: SightingSeq, a: Seq<u8>, l: Seq<char>) -> SightingSeq {
    if seen_addr(v, a) {
        v
    } else {
        v.push((a, l))
    }
}

/// First-seen devices keyed by hardware address.
pub struct DeviceRegistry {
    seen: std::collections::HashSet<u64>,
    sightings: Vec<DeviceSighting>,
}

impl View for DeviceRegistry {
    type V = SightingSeq;

    closed spec fn view(&self) -> SightingSeq {
        self.sightings@.map(|i: int, s: DeviceSighting| (s.address@, s.vendor_label@))
    }
}

impl DeviceRegistry {
    /// Well-formedness: no address appears twice, and the key index mirrors
    /// the recorded sightings exactly.
    pub closed spec fn inv(&self) -> bool {
        &&& forall|i: int, j: int|
            0 <= i < j < self.sightings@.len() ==> (#[trigger] self.sightings@[i]).address@ != (
            #[trigger] self.sightings@[j]).address@
        &&& forall|i: int|
            0 <= i < self.sightings@.len() ==> self.seen@.contains(
                (#[trigger] self.sightings@[i]).address.spec_addr_key(),
            )
        &&& forall|k: u64|
            self.seen@.contains(k) ==> exists|i: int|
                0 <= i < self.sightings@.len() && (#[trigger] self.sightings@[i]).address.spec_addr_key()
                    == k
    }

    pub fn new() -> (r: DeviceRegistry)
        ensures
            r.inv(),
            r@ =~= Seq::<(Seq<u8>, Seq<char>)>::empty(),
    {
        DeviceRegistry { seen: std::collections::HashSet::new(), sightings: Vec::new() }
    }

    /// How many distinct devices have been sighted.
    pub fn len(&self) -> (r: usize)
        ensures
            r == self@.len(),
    {
        self.sightings.len()
    }

    /// Records the address if it is new, resolving its vendor; returns the
    /// fresh sighting exactly on the first observation of the address, so
    /// the caller can report it exactly once.
    pub fn observe(&mut self, addr: &HardwareAddress, dir: &VendorDirectory) -> (r: Option<
        DeviceSighting,
    >)
        requires
            old(self).inv(),
        ensures
            final(self).inv(),
            final(self)@ == after_observe(old(self)@, addr@, resolve_label(dir@, addr@)),
            match r {
                Some(s) => !seen_addr(old(self)@, addr@) && s.address@ == addr@ && s.vendor_label@
                    == resolve_label(dir@, addr@),
                None => seen_addr(old(self)@, addr@),
            },
    {
        let ghost v0 = self@;
        let k = addr.addr_key();
        if self.seen.contains(&k) {
            proof {
                let i = choose|i: int|
                    0 <= i < self.sightings@.len() && (#[trigger] self.sightings@[i]).address.spec_addr_key()
                        == k;
                lemma_addr_key_injective(self.sightings@[i].address, *addr);
                assert(v0[i].0 == addr@);
                assert(seen_addr(v0, addr@));
            }
            None
        } else {
            proof {
                if seen_addr(v0, addr@) {
                    let i = choose|i: int| 0 <= i < v0.len() && (#[trigger] v0[i]).0 == addr@;
                    assert(self.sightings@[i].address@ == addr@);
                    assert(self.sightings@[i].address.spec_addr_key() == addr.spec_addr_key());
                }
            }
            let ghost sight0 = self.sightings@;
            let ghost seen0 = self.seen@;
            let label = dir.resolve(addr);
            let recorded = DeviceSighting { address: *addr, vendor_label: label.clone() };
            self.sightings.push(recorded);
            self.seen.insert(k);
            proof {
                let n = self.sightings@.len() as int;
                assert(self.sightings@ == sight0.push(recorded));
                assert(self.seen@ == seen0.insert(k));
                assert(self@ =~= v0.push((addr@, label@)));
                assert(self.sightings@[n - 1].address.spec_addr_key() == k);
                assert forall|i: int, j: int| 0 <= i < j < n implies (
                #[trigger] self.sightings@[i]).address@ != (
                #[trigger] self.sightings@[j]).address@ by {
                    if j == n - 1 {
                        if self.sightings@[i].address@ == addr@ {
                            assert(sight0[i].address.spec_addr_key() == addr.spec_addr_key());
                        }
                    } else {
                        assert(sight0[i].address@ != sight0[j].address@);
                    }
                }
                assert forall|i: int| 0 <= i < n implies self.seen@.contains(
                    (#[trigger] self.sightings@[i]).address.spec_addr_key(),
                ) by {
                    if i < n - 1 {
                        assert(seen0.contains(sight0[i].address.spec_addr_key()));
                    }
                }
                assert forall|kk: u64| self.seen@.contains(kk) implies exists|i: int|
                    0 <= i < n && (#[trigger] self.sightings@[i]).address.spec_addr_key()
                        == kk by {
                    if kk == k {
                        assert(self.sightings@[n - 1].address.spec_addr_key() == kk);
                    } else {
                        assert(seen0.contains(kk));
                        let i = choose|i: int|
                            0 <= i < sight0.len() && (#[trigger] sight0[i]).address.spec_addr_key()
                                == kk;
                        assert(self.sightings@[i].address.spec_addr_key() == kk);
                    }
                }
            }
            Some(DeviceSighting { address: *addr, vendor_label: label })
        }
    }

    /// The sightings so far, in order of first sighting.
    pub fn snapshot(&self) -> (r: &Vec<DeviceSighting>)
        ensures
            r@.len() == self@.len(),
            forall|i: int|
                0 <= i < r@.len() ==> ((#[trigger] r@[i]).address@, r@[i].vendor_label@)
                    == self@[i],
    {
        &self.sightings
    }
}

/// Observation is idempotent for dedup purposes: once an address has been
/// observed, any further observation of it changes nothing, and a first
/// observation grows the registry by exactly one entry.
pub proof fn lemma_observe_idempotent(v: SightingSeq, a: Seq<u8>, l1: Seq<char>, l2: Seq<char>)
    ensures
        seen_addr(after_observe(v, a, l1), a),
        after_observe(after_observe(v, a, l1), a, l2) == after_observe(v, a, l1),
        !seen_addr(v, a) ==> after_observe(v, a, l1).len() == v.len() + 1,
        seen_addr(v, a) ==> after_observe(v, a, l1) == v,
{
    if !seen_addr(v, a) {
        let v1 = v.push((a, l1));
        assert(v1[v.len() as int].0 == a);
        assert(seen_addr(v1, a));
    }
}

} // verus!
