//! Lists of ports in canonical form: sorted ascending, each port once.
//!
//! Whatever leaves the library as a list of open ports, or as its text, is
//! in this form, so that one set of open ports has one wording.

use vstd::prelude::*;
use vstd::seq_lib::*;

verus! {

/// The number of values a port number can take, 0 included.
pub const PORT_SPACE: usize = 65536;

/// The sequence ascends strictly: it is sorted and holds nothing twice.
pub open spec fn strictly_ascending(ports: Seq<u16>) -> bool {
    forall|i: int, j: int| 0 <= i < j < ports.len() ==> ports[i] < ports[j]
}

/// The members of `ports` that lie below `bound`, in ascending order.
pub open spec fn ascending_below(ports: Set<u16>, bound: nat) -> Seq<u16>
    decreases bound,
{
    if bound == 0 {
        Seq::empty()
    } else {
        let lower = ascending_below(ports, (bound - 1) as nat);
        if ports.contains((bound - 1) as u16) {
            lower.push((bound - 1) as u16)
        } else {
            lower
        }
    }
}

/// The members of a set of ports in ascending order.
pub open spec fn ascending(ports: Set<u16>) -> Seq<u16> {
    ascending_below(ports, PORT_SPACE as nat)
}

/// The list is a list of open ports in canonical form: it ascends strictly
/// and holds no 0, which is no port.
pub open spec fn is_port_list(ports: Seq<u16>) -> bool {
    &&& strictly_ascending(ports)
    &&& forall|i: int| 0 <= i < ports.len() ==> ports[i] >= 1
}

/// The canonical form of a list of ports: its members other than 0, each
/// once, in ascending order.
pub open spec fn port_list(ports: Seq<u16>) -> Seq<u16> {
    ascending(ports.to_set().remove(0))
}

/// Brings a list of ports into canonical form: sorted ascending, without
/// duplicates and without 0.
pub fn canonical_ports(ports: &Vec<u16>) -> (list: Vec<u16>)
    ensures
        list@ == port_list(ports@),
        is_port_list(list@),
{
    let mut list = sorted_unique(ports);
    proof {
        lemma_port_list(ports@);
        lemma_ascending(ports@.to_set());
    }
    let ghost sorted = list@;
    if list.len() > 0 && list[0] == 0 {
        list.remove(0);
        proof {
            let rest = list@;
            assert forall|i: int, j: int| 0 <= i < j < rest.len() implies rest[i] < rest[j] by {
                assert(rest[i] == sorted[i + 1] && rest[j] == sorted[j + 1]);
            }
            assert forall|p: u16| rest.to_set().contains(p) <==> ports@.to_set().remove(
                0,
            ).contains(p) by {
                if rest.to_set().contains(p) {
                    let i = choose|i: int| 0 <= i < rest.len() && rest[i] == p;
                    assert(sorted[i + 1] == p);
                    assert(sorted[0] < sorted[i + 1]);
                    assert(sorted.to_set().contains(p));
                }
                if ports@.to_set().remove(0).contains(p) {
                    assert(sorted.to_set().contains(p));
                    let i = choose|i: int| 0 <= i < sorted.len() && sorted[i] == p;
                    assert(rest[i - 1] == p);
                }
            }
            assert(rest.to_set() =~= ports@.to_set().remove(0));
            lemma_ascending_unique(rest, ports@.to_set().remove(0));
        }
    } else {
        proof {
            if ports@.to_set().contains(0) {
                assert(sorted.to_set().contains(0));
                let i = choose|i: int| 0 <= i < sorted.len() && sorted[i] == 0;
                if i > 0 {
                    assert(sorted[0] < sorted[i]);
                }
            }
            assert(ports@.to_set().remove(0) =~= ports@.to_set());
        }
    }
    list
}

/// The canonical form of any list is a canonical list, and holds the ports
/// of the list.
pub proof fn lemma_port_list(ports: Seq<u16>)
    ensures
        is_port_list(port_list(ports)),
        forall|p: u16| port_list(ports).contains(p) <==> (ports.contains(p) && p >= 1),
{
    let members = ports.to_set().remove(0);
    lemma_ascending(members);
    let list = port_list(ports);
    assert forall|i: int| 0 <= i < list.len() implies list[i] >= 1 by {
        assert(list.to_set().contains(list[i]));
    }
    assert forall|p: u16| list.contains(p) <==> (ports.contains(p) && p >= 1) by {
        assert(list.to_set().contains(p) <==> members.contains(p));
    }
}

/// A list that is canonical already is its own canonical form.
pub proof fn lemma_port_list_of_canonical(ports: Seq<u16>)
    requires
        is_port_list(ports),
    ensures
        port_list(ports) == ports,
{
    assert(ports.to_set().remove(0) =~= ports.to_set()) by {
        if ports.to_set().contains(0) {
            let i = choose|i: int| 0 <= i < ports.len() && ports[i] == 0;
        }
    }
    lemma_ascending_unique(ports, ports.to_set());
}

/// Sorts a list of ports ascending and drops what occurs more than once.
pub fn sorted_unique(ports: &Vec<u16>) -> (sorted: Vec<u16>)
    ensures
        sorted@ == ascending(ports@.to_set()),
{
    let mut seen: Vec<bool> = vec![false; PORT_SPACE];
    let mut at: usize = 0;
    while at < ports.len()
        invariant
            at <= ports@.len(),
            seen@.len() == PORT_SPACE,
            forall|p: int|
                0 <= p < PORT_SPACE ==> (#[trigger] seen@[p] <==> ports@.take(at as int).contains(
                    p as u16,
                )),
        decreases ports@.len() - at,
    {
        let port: u16 = ports[at];
        let ghost before = ports@.take(at as int);
        let ghost after = ports@.take(at + 1);
        seen.set(port as usize, true);
        proof {
            assert(after == before.push(port));
            assert forall|p: int| 0 <= p < PORT_SPACE implies (#[trigger] seen@[p]
                <==> after.contains(p as u16)) by {
                if after.contains(p as u16) {
                    let i = choose|i: int| 0 <= i < after.len() && after[i] == p as u16;
                    if i < before.len() {
                        assert(before[i] == p as u16);
                    }
                }
                if before.contains(p as u16) {
                    let i = choose|i: int| 0 <= i < before.len() && before[i] == p as u16;
                    assert(after[i] == p as u16);
                }
                if p == port {
                    assert(after[at as int] == port);
                }
            }
        }
        at = at + 1;
    }
    assert(ports@.take(at as int) == ports@);
    let ghost members = ports@.to_set();
    let mut sorted: Vec<u16> = Vec::new();
    let mut bound: usize = 0;
    while bound < PORT_SPACE
        invariant
            bound <= PORT_SPACE,
            seen@.len() == PORT_SPACE,
            members == ports@.to_set(),
            forall|p: int|
                0 <= p < PORT_SPACE ==> (#[trigger] seen@[p] <==> ports@.contains(p as u16)),
            sorted@ == ascending_below(members, bound as nat),
        decreases PORT_SPACE - bound,
    {
        if seen[bound] {
            sorted.push(bound as u16);
        }
        bound = bound + 1;
    }
    sorted
}

/// The members of a set below a bound, listed ascending, are exactly those
/// members, each once.
pub proof fn lemma_ascending_below(ports: Set<u16>, bound: nat)
    requires
        bound <= PORT_SPACE,
    ensures
        strictly_ascending(ascending_below(ports, bound)),
        forall|p: u16|
            #[trigger] ascending_below(ports, bound).contains(p) <==> (ports.contains(p) && p
                < bound),
    decreases bound,
{
    let listed = ascending_below(ports, bound);
    if bound > 0 {
        let lower = ascending_below(ports, (bound - 1) as nat);
        let top = (bound - 1) as u16;
        lemma_ascending_below(ports, (bound - 1) as nat);
        if ports.contains(top) {
            assert(listed == lower.push(top));
            assert forall|i: int, j: int| 0 <= i < j < listed.len() implies listed[i]
                < listed[j] by {
                if j < lower.len() {
                    assert(listed[i] == lower[i] && listed[j] == lower[j]);
                } else {
                    assert(listed[j] == top);
                    assert(listed[i] == lower[i]);
                    assert(lower.contains(lower[i]));
                }
            }
            assert forall|p: u16| listed.contains(p) <==> (ports.contains(p) && p < bound) by {
                if listed.contains(p) {
                    let i = choose|i: int| 0 <= i < listed.len() && listed[i] == p;
                    if i < lower.len() {
                        assert(lower.contains(lower[i]));
                    }
                }
                if ports.contains(p) && p < bound {
                    if p == top {
                        assert(listed[lower.len() as int] == p);
                    } else {
                        assert(lower.contains(p));
                        let i = choose|i: int| 0 <= i < lower.len() && lower[i] == p;
                        assert(listed[i] == p);
                    }
                }
            }
        } else {
            assert forall|p: u16| listed.contains(p) <==> (ports.contains(p) && p < bound) by {
                if ports.contains(p) && p < bound {
                    assert(p != top);
                }
            }
        }
    } else {
        assert forall|p: u16| !listed.contains(p) by {
            if listed.contains(p) {
                let i = choose|i: int| 0 <= i < listed.len() && listed[i] == p;
            }
        }
    }
}

/// The ascending listing of a set of ports is sorted, holds nothing twice,
/// and holds exactly the members of the set.
pub proof fn lemma_ascending(ports: Set<u16>)
    ensures
        strictly_ascending(ascending(ports)),
        ascending(ports).no_duplicates(),
        ascending(ports).to_set() == ports,
{
    lemma_ascending_below(ports, PORT_SPACE as nat);
    assert(ascending(ports).to_set() =~= ports);
}

/// Two strictly ascending sequences with the same members are the same
/// sequence.
pub proof fn lemma_strictly_ascending_unique(a: Seq<u16>, b: Seq<u16>)
    requires
        strictly_ascending(a),
        strictly_ascending(b),
        forall|p: u16| a.contains(p) <==> b.contains(p),
    ensures
        a == b,
    decreases a.len(),
{
    if a.len() == 0 {
        if b.len() > 0 {
            assert(b.contains(b[0]));
        }
        assert(a =~= b);
    } else {
        let top = a.last();
        assert(a.contains(top)) by {
            assert(a[a.len() - 1] == top);
        }
        assert(b.contains(top));
        assert(b.contains(b.last())) by {
            assert(b[b.len() - 1] == b.last());
        }
        assert(a.contains(b.last()));
        let i = choose|i: int| 0 <= i < b.len() && b[i] == top;
        let j = choose|j: int| 0 <= j < a.len() && a[j] == b.last();
        assert(b.last() == top);
        let a_rest = a.drop_last();
        let b_rest = b.drop_last();
        assert forall|p: u16| a_rest.contains(p) <==> b_rest.contains(p) by {
            if a_rest.contains(p) {
                let k = choose|k: int| 0 <= k < a_rest.len() && a_rest[k] == p;
                assert(a[k] == p);
                assert(a.contains(p));
                let m = choose|m: int| 0 <= m < b.len() && b[m] == p;
                assert(b_rest[m] == p);
            }
            if b_rest.contains(p) {
                let k = choose|k: int| 0 <= k < b_rest.len() && b_rest[k] == p;
                assert(b[k] == p);
                assert(b.contains(p));
                let m = choose|m: int| 0 <= m < a.len() && a[m] == p;
                assert(a_rest[m] == p);
            }
        }
        lemma_strictly_ascending_unique(a_rest, b_rest);
        assert(a =~= a_rest.push(top));
        assert(b =~= b_rest.push(top));
    }
}

/// Sorting and dropping duplicates has one result only: whatever ascends
/// strictly and holds the members of a set is the ascending listing of it.
pub proof fn lemma_ascending_unique(sorted: Seq<u16>, ports: Set<u16>)
    requires
        strictly_ascending(sorted),
        sorted.to_set() == ports,
    ensures
        sorted == ascending(ports),
{
    lemma_ascending(ports);
    assert forall|p: u16| sorted.contains(p) <==> ascending(ports).contains(p) by {
        assert(sorted.to_set().contains(p) <==> ascending(ports).to_set().contains(p));
    }
    lemma_strictly_ascending_unique(sorted, ascending(ports));
}

/// A list of ports that is already sorted and free of duplicates is left as
/// it is.
pub proof fn lemma_ascending_keeps_sorted(sorted: Seq<u16>)
    requires
        strictly_ascending(sorted),
    ensures
        ascending(sorted.to_set()) == sorted,
{
    lemma_ascending_unique(sorted, sorted.to_set());
}

/// The ascending listing of a finite set of ports has as many entries as
/// the set has members.
pub proof fn lemma_ascending_len(ports: Set<u16>)
    requires
        ports.finite(),
    ensures
        ascending(ports).len() == ports.len(),
{
    lemma_ascending(ports);
    ascending(ports).unique_seq_to_set();
}

/// The canonical listing does not depend on the order of a list, nor on
/// how often a port occurs in it: two lists with the same ports, one a
/// rearrangement of the other or not, have the same listing.
pub proof fn lemma_ascending_ignores_order(a: Seq<u16>, b: Seq<u16>)
    requires
        a.to_multiset() == b.to_multiset() || a.to_set() == b.to_set(),
    ensures
        ascending(a.to_set()) == ascending(b.to_set()),
{
    broadcast use to_multiset_contains;

    if a.to_multiset() == b.to_multiset() {
        assert forall|p: u16| a.to_set().contains(p) <==> b.to_set().contains(p) by {
            assert(a.contains(p) <==> a.to_multiset().count(p) > 0);
            assert(b.contains(p) <==> b.to_multiset().count(p) > 0);
        }
        assert(a.to_set() =~= b.to_set());
    }
}

} // verus!
