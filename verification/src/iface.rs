//! Network interfaces: the properties one enumeration snapshot reports for
//! each interface, the wireless-classification policy, and snapshot hygiene
//! (non-empty, unique names; truncation to a configured count).

use vstd::prelude::*;

verus! {

use vstd::string::StringExecFns;

broadcast use vstd::string::group_string_axioms;

/// One OS-visible network interface, as plain values. Created fresh on every
/// enumeration; immutable; never persisted.
#[derive(Debug)]
pub struct InterfaceInfo {
    pub name: String,
    pub ipv4_addresses: Vec<String>,
    pub ipv6_addresses: Vec<String>,
    pub is_up: bool,
    pub is_loopback: bool,
    pub is_multicast: bool,
    pub is_broadcast: bool,
    pub is_point_to_point: bool,
    pub is_running: bool,
    pub is_wireless: bool,
}

/// The fixed platform token the wireless policy matches interface names
/// against. A named, swappable heuristic, not a hardware capability query.
pub open spec fn wireless_token() -> Seq<char> {
    seq!['e', 'n', '0']
}

/// The wireless-classification policy: an interface is taken to be wireless
/// exactly when its name is the fixed platform token.
pub open spec fn spec_is_wireless_name(name: Seq<char>) -> bool {
    name == wireless_token()
}

/// Decides the wireless policy for one interface name.
pub fn is_wireless_name(name: &str) -> (r: bool)
    ensures
        r == spec_is_wireless_name(name@),
{
    let owned: String = name.to_owned();
    let token: String = "en0".to_owned();
    let r = owned.eq(&token);
    proof {
        reveal_strlit("en0");
        assert(token@ =~= wireless_token());
        if name@ =~= wireless_token() {
            assert(owned@ == token@);
        }
    }
    r
}

impl InterfaceInfo {
    /// Derives the `is_wireless` flag from the name policy, leaving every
    /// reported property as the enumeration gave it.
    pub fn classify(self) -> (r: InterfaceInfo)
        ensures
            r.name == self.name,
            r.ipv4_addresses == self.ipv4_addresses,
            r.ipv6_addresses == self.ipv6_addresses,
            r.is_up == self.is_up,
            r.is_loopback == self.is_loopback,
            r.is_multicast == self.is_multicast,
            r.is_broadcast == self.is_broadcast,
            r.is_point_to_point == self.is_point_to_point,
            r.is_running == self.is_running,
            r.is_wireless == spec_is_wireless_name(self.name@),
    {
        let InterfaceInfo {
            name,
            ipv4_addresses,
            ipv6_addresses,
            is_up,
            is_loopback,
            is_multicast,
            is_broadcast,
            is_point_to_point,
            is_running,
            is_wireless: _,
        } = self;
        let is_wireless = is_wireless_name(name.as_str());
        InterfaceInfo {
            name,
            ipv4_addresses,
            ipv6_addresses,
            is_up,
            is_loopback,
            is_multicast,
            is_broadcast,
            is_point_to_point,
            is_running,
            is_wireless,
        }
    }
}

/// Keeps only the interfaces the wireless policy selects, in order.
pub fn wireless_interfaces(list: Vec<InterfaceInfo>) -> (r: Vec<InterfaceInfo>)
    ensures
        r@ == list@.filter(|x: InterfaceInfo| x.is_wireless),
{
    let ghost orig = list@;
    let mut rest = list;
    let mut out: Vec<InterfaceInfo> = Vec::new();
    proof {
        reveal(Seq::filter);
        assert(orig.take(0) =~= Seq::<InterfaceInfo>::empty());
        assert(rest@ =~= orig.skip(0));
    }
    let ghost mut i: int = 0;
    while rest.len() > 0
        invariant
            0 <= i <= orig.len(),
            rest@ =~= orig.skip(i),
            out@ == orig.take(i).filter(|x: InterfaceInfo| x.is_wireless),
        decreases rest@.len(),
    {
        let x = rest.remove(0);
        proof {
            assert(x == orig[i]);
        }
        if x.is_wireless {
            out.push(x);
        }
        proof {
            reveal(Seq::filter);
            let t = orig.take(i + 1);
            assert(t.drop_last() =~= orig.take(i));
            assert(t.last() == orig[i]);
            assert(out@ == t.filter(|x: InterfaceInfo| x.is_wireless));
            assert(rest@ =~= orig.skip(i + 1));
            i = i + 1;
        }
    }
    proof {
        assert(orig.take(orig.len() as int) =~= orig);
    }
    out
}

/// No interface the wireless policy selects exists in the snapshot, so
/// discovery has no capture target. Fatal: the loop cannot start.
#[derive(Clone, Copy, Debug, PartialEq, Eq, Structural)]
pub struct NoWirelessInterfaceError;

/// Picks the capture target: the first interface the wireless policy
/// selects. `Err` exactly when the snapshot has none.
pub fn select_capture_target(list: &Vec<InterfaceInfo>) -> (r: Result<
    usize,
    NoWirelessInterfaceError,
>)
    ensures
        match r {
            Ok(i) => 0 <= i < list@.len() && list@[i as int].is_wireless && (forall|j: int|
                0 <= j < i ==> !(#[trigger] list@[j]).is_wireless),
            Err(_) => forall|j: int| 0 <= j < list@.len() ==> !(#[trigger] list@[j]).is_wireless,
        },
{
    let mut i: usize = 0;
    while i < list.len()
        invariant
            i <= list@.len(),
            forall|j: int| 0 <= j < i ==> !(#[trigger] list@[j]).is_wireless,
        decreases list@.len() - i,
    {
        if list[i].is_wireless {
            return Ok(i);
        }
        i = i + 1;
    }
    Err(NoWirelessInterfaceError)
}

/// Bounds a listing to the first `limit` interfaces in enumeration order:
/// truncation, not filtering.
pub fn truncate_interfaces(list: &mut Vec<InterfaceInfo>, limit: usize)
    ensures
        limit <= old(list)@.len() ==> final(list)@ == old(list)@.take(limit as int),
        limit > old(list)@.len() ==> final(list)@ == old(list)@,
{
    list.truncate(limit);
    proof {
        if limit <= old(list)@.len() {
            assert(old(list)@.subrange(0, limit as int) =~= old(list)@.take(limit as int));
        }
    }
}

/// Whether a snapshot already holds an interface of this name.
pub open spec fn contains_name(s: Seq<InterfaceInfo>, n: Seq<char>) -> bool {
    exists|i: int| 0 <= i < s.len() && (#[trigger] s[i]).name@ == n
}

/// The snapshot with unnamed and repeated-name interfaces dropped, keeping
/// the first interface of each name.
pub open spec fn well_named_snapshot(s: Seq<InterfaceInfo>) -> Seq<InterfaceInfo>
    decreases s.len(),
{
    if s.len() == 0 {
        s
    } else {
        let d = well_named_snapshot(s.drop_last());
        let x = s.last();
        if x.name@.len() == 0 || contains_name(d, x.name@) {
            d
        } else {
            d.push(x)
        }
    }
}

fn name_known(acc: &Vec<InterfaceInfo>, n: &String) -> (r: bool)
    ensures
        r == contains_name(acc@, n@),
{
    let mut i: usize = 0;
    while i < acc.len()
        invariant
            i <= acc@.len(),
            forall|j: int| 0 <= j < i ==> (#[trigger] acc@[j]).name@ != n@,
        decreases acc@.len() - i,
    {
        if acc[i].name.eq(n) {
            return true;
        }
        i = i + 1;
    }
    false
}

/// Enforces the snapshot invariant: every kept interface has a non-empty
/// name and each name appears at most once, first occurrence winning.
pub fn sanitize_snapshot(list: Vec<InterfaceInfo>) -> (r: Vec<InterfaceInfo>)
    ensures
        r@ == well_named_snapshot(list@),
{
    let ghost orig = list@;
    let mut rest = list;
    let mut out: Vec<InterfaceInfo> = Vec::new();
    proof {
        assert(orig.take(0) =~= Seq::<InterfaceInfo>::empty());
        assert(rest@ =~= orig.skip(0));
    }
    let ghost mut i: int = 0;
    while rest.len() > 0
        invariant
            0 <= i <= orig.len(),
            rest@ =~= orig.skip(i),
            out@ == well_named_snapshot(orig.take(i)),
        decreases rest@.len(),
    {
        let x = rest.remove(0);
        proof {
            assert(x == orig[i as int]);
        }
        let keep = if x.name.as_str().is_empty() {
            false
        } else {
            !name_known(&out, &x.name)
        };
        if keep {
            out.push(x);
        }
        proof {
            let t = orig.take(i + 1);
            assert(t.drop_last() =~= orig.take(i));
            assert(t.last() == orig[i]);
            assert(out@ == well_named_snapshot(t));
            assert(rest@ =~= orig.skip(i + 1));
            i = i + 1;
        }
    }
    proof {
        assert(orig.take(orig.len() as int) =~= orig);
    }
    out
}

/// Snapshot hygiene holds of every sanitized snapshot: each kept interface
/// has a non-empty name, and a name appears at most once.
pub proof fn lemma_well_named_snapshot(s: Seq<InterfaceInfo>)
    ensures
        forall|i: int|
            0 <= i < well_named_snapshot(s).len() ==> (#[trigger] well_named_snapshot(
                s,
            )[i]).name@.len() > 0,
        forall|i: int, j: int|
            0 <= i < j < well_named_snapshot(s).len() ==> (#[trigger] well_named_snapshot(
                s,
            )[i]).name@ != (#[trigger] well_named_snapshot(s)[j]).name@,
    decreases s.len(),
{
    if s.len() > 0 {
        lemma_well_named_snapshot(s.drop_last());
        let d = well_named_snapshot(s.drop_last());
        let w = well_named_snapshot(s);
        let x = s.last();
        if !(x.name@.len() == 0 || contains_name(d, x.name@)) {
            assert forall|i: int, j: int| 0 <= i < j < w.len() implies (#[trigger] w[i]).name@ != (
            #[trigger] w[j]).name@ by {
                if j == w.len() - 1 {
                    assert(w[i] == d[i]);
                    if d[i].name@ == x.name@ {
                        assert(contains_name(d, x.name@));
                    }
                } else {
                    assert(w[i] == d[i] && w[j] == d[j]);
                }
            }
        }
    }
}

} // verus!
