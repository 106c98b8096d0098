//! Walking a port map in ascending order of its keys.

use std::collections::HashMap;
use vstd::prelude::*;
use vstd::std_specs::iter::IteratorSpec;

verus! {

/// Whether every member of `s` is smaller than those behind it.
pub open spec fn ascending(s: Seq<i32>) -> bool {
    forall|i: int, j: int| 0 <= i < j < s.len() ==> s[i] < s[j]
}

/// Whether `s` holds the keys of `m`, each once, smallest first.
pub open spec fn lists_keys(s: Seq<i32>, m: Map<i32, i32>) -> bool {
    ascending(s) && forall|p: i32| s.contains(p) <==> m.contains_key(p)
}

/// The keys of `m` from the smallest to the largest.
pub open spec fn ascending_keys(m: Map<i32, i32>) -> Seq<i32> {
    choose|s: Seq<i32>| lists_keys(s, m)
}

/// A map has at most one ascending list of its keys.
pub proof fn ascending_list_is_unique(s: Seq<i32>, t: Seq<i32>, m: Map<i32, i32>)
    requires
        lists_keys(s, m),
        lists_keys(t, m),
    ensures
        s == t,
    decreases s.len(),
{
    if s.len() == 0 {
        if t.len() > 0 {
            assert(t.contains(t[0]));
            assert(s.contains(t[0]));
        }
        assert(s =~= t);
    } else {
        let top = s.last();
        assert(s.contains(top));
        assert(t.contains(top));
        let at = choose|k: int| 0 <= k < t.len() && t[k] == top;
        assert(t.contains(t.last()));
        assert(s.contains(t.last()));
        let back = choose|k: int| 0 <= k < s.len() && s[k] == t.last();
        assert(t.last() == top);
        let rest = m.remove(top);
        assert forall|p: i32| s.drop_last().contains(p) <==> rest.contains_key(p) by {
            if s.drop_last().contains(p) {
                let k = choose|k: int| 0 <= k < s.drop_last().len() && s.drop_last()[k] == p;
                assert(s[k] == p);
                assert(s.contains(p));
            }
            if rest.contains_key(p) {
                assert(s.contains(p));
                let k = choose|k: int| 0 <= k < s.len() && s[k] == p;
                assert(s.drop_last()[k] == p);
            }
        }
        assert forall|p: i32| t.drop_last().contains(p) <==> rest.contains_key(p) by {
            if t.drop_last().contains(p) {
                let k = choose|k: int| 0 <= k < t.drop_last().len() && t.drop_last()[k] == p;
                assert(t[k] == p);
                assert(t.contains(p));
            }
            if rest.contains_key(p) {
                assert(t.contains(p));
                let k = choose|k: int| 0 <= k < t.len() && t[k] == p;
                assert(t.drop_last()[k] == p);
            }
        }
        ascending_list_is_unique(s.drop_last(), t.drop_last(), rest);
        assert(s =~= s.drop_last().push(top));
        assert(t =~= t.drop_last().push(top));
    }
}

/// The ascending list `s` with `key` put at its place.
pub open spec fn with_key(s: Seq<i32>, key: i32) -> Seq<i32>
    decreases s.len(),
{
    if s.len() == 0 {
        seq![key]
    } else if s.last() < key {
        s.push(key)
    } else {
        with_key(s.drop_last(), key).push(s.last())
    }
}

/// Putting a new key at its place keeps a list ascending and adds just that
/// key.
pub proof fn with_key_stays_ascending(s: Seq<i32>, key: i32)
    requires
        ascending(s),
        !s.contains(key),
    ensures
        ascending(with_key(s, key)),
        with_key(s, key).contains(key),
        forall|p: i32| #[trigger] s.contains(p) ==> with_key(s, key).contains(p),
        forall|p: i32| #[trigger] with_key(s, key).contains(p) ==> s.contains(p) || p == key,
    decreases s.len(),
{
    let grown = with_key(s, key);
    if s.len() == 0 {
        assert(grown[0] == key);
    } else if s.last() < key {
        assert(grown[s.len() as int] == key);
        assert forall|p: i32| #[trigger] s.contains(p) implies grown.contains(p) by {
            let k = choose|k: int| 0 <= k < s.len() && s[k] == p;
            assert(grown[k] == p);
        }
        assert forall|p: i32| #[trigger] grown.contains(p) implies s.contains(p) || p == key by {
            let k = choose|k: int| 0 <= k < grown.len() && grown[k] == p;
            if k < s.len() {
                assert(s[k] == p);
            }
        }
    } else {
        let front = s.drop_last();
        let top = s.last();
        assert(s[s.len() - 1] == top);
        assert(s.contains(top));
        assert(key < top);
        assert forall|p: i32| #[trigger] front.contains(p) implies s.contains(p) && p < top by {
            let k = choose|k: int| 0 <= k < front.len() && front[k] == p;
            assert(s[k] == p);
        }
        with_key_stays_ascending(front, key);
        let inner = with_key(front, key);
        assert(grown == inner.push(top));
        assert forall|i: int| 0 <= i < inner.len() implies inner[i] < top by {
            assert(inner.contains(inner[i]));
            if inner[i] != key {
                assert(front.contains(inner[i]));
            }
        }
        assert(inner.contains(key));
        let at = choose|at: int| 0 <= at < inner.len() && inner[at] == key;
        assert(grown[at] == key);
        assert forall|p: i32| #[trigger] s.contains(p) implies grown.contains(p) by {
            let k = choose|k: int| 0 <= k < s.len() && s[k] == p;
            if k < front.len() {
                assert(front[k] == p);
                assert(front.contains(p));
                assert(inner.contains(p));
                let j = choose|j: int| 0 <= j < inner.len() && inner[j] == p;
                assert(grown[j] == p);
            } else {
                assert(grown[inner.len() as int] == p);
            }
        }
        assert forall|p: i32| #[trigger] grown.contains(p) implies s.contains(p) || p == key by {
            let k = choose|k: int| 0 <= k < grown.len() && grown[k] == p;
            if k < inner.len() {
                assert(inner[k] == p);
                assert(inner.contains(p));
                if p != key {
                    assert(front.contains(p));
                }
            }
        }
    }
}

/// A map with finitely many keys has an ascending list of them.
pub proof fn finite_map_has_ascending_keys(m: Map<i32, i32>)
    requires
        m.dom().finite(),
    ensures
        lists_keys(ascending_keys(m), m),
    decreases m.dom().len(),
{
    if m.dom().len() == 0 {
        let none = Seq::<i32>::empty();
        assert forall|p: i32| none.contains(p) <==> m.contains_key(p) by {
            if m.contains_key(p) {
                assert(m.dom().contains(p));
                vstd::set_lib::lemma_set_empty_equivalency_len(m.dom());
            }
        }
        assert(lists_keys(none, m));
    } else {
        let key = m.dom().choose();
        vstd::set_lib::lemma_set_empty_equivalency_len(m.dom());
        assert(m.dom().contains(key));
        let rest = m.remove(key);
        assert(rest.dom() =~= m.dom().remove(key));
        finite_map_has_ascending_keys(rest);
        let listed = ascending_keys(rest);
        assert(!listed.contains(key));
        with_key_stays_ascending(listed, key);
        let grown = with_key(listed, key);
        assert forall|p: i32| grown.contains(p) <==> m.contains_key(p) by {
            if grown.contains(p) && p != key {
                assert(listed.contains(p));
                assert(rest.contains_key(p));
            }
            if m.contains_key(p) && p != key {
                assert(rest.contains_key(p));
                assert(listed.contains(p));
            }
        }
        assert(lists_keys(grown, m));
    }
}

/// Puts `x` at its place in the ascending `v`, unless it is there already.
fn insert_ascending(v: &mut Vec<i32>, x: i32)
    requires
        ascending(old(v)@),
    ensures
        ascending(final(v)@),
        final(v)@.contains(x),
        forall|p: i32| #[trigger] old(v)@.contains(p) ==> final(v)@.contains(p),
        forall|p: i32| #[trigger] final(v)@.contains(p) ==> old(v)@.contains(p) || p == x,
{
    let mut at: usize = 0;
    while at < v.len() && v[at] < x
        invariant
            v@ == old(v)@,
            at <= v.len(),
            forall|k: int| 0 <= k < at ==> v@[k] < x,
        decreases v.len() - at,
    {
        at = at + 1;
    }
    if at < v.len() && v[at] == x {
        assert(v@[at as int] == x);
    } else {
        let ghost before = v@;
        v.insert(at, x);
        proof {
            assert(v@[at as int] == x);
            assert forall|p: i32| #[trigger] before.contains(p) implies v@.contains(p) by {
                let k = choose|k: int| 0 <= k < before.len() && before[k] == p;
                if k < at {
                    assert(v@[k] == p);
                } else {
                    assert(v@[k + 1] == p);
                }
            }
            assert forall|p: i32| #[trigger] v@.contains(p) implies before.contains(p) || p == x by {
                let k = choose|k: int| 0 <= k < v@.len() && v@[k] == p;
                if k < at {
                    assert(before[k] == p);
                } else if k > at {
                    assert(before[k - 1] == p);
                }
            }
        }
    }
}

/// The keys of `m` in ascending order. A hash map hands its keys out in no
/// order that could be relied on; sorting them makes every walk over the map
/// the same.
pub fn keys_ascending(m: &HashMap<i32, i32>) -> (ports: Vec<i32>)
    ensures
        lists_keys(ports@, m@),
        ports@ == ascending_keys(m@),
{
    let mut ports: Vec<i32> = Vec::new();
    let ghost walk = vstd::std_specs::hash::spec_keys_iter(m).remaining();
    proof {
        vstd::std_specs::hash::axiom_spec_keys_iter(m);
    }
    for k in it: m.keys()
        invariant
            it.seq() == walk,
            ascending(ports@),
            forall|p: i32| #[trigger]
                ports@.contains(p) ==> exists|j: int| 0 <= j < it.index() && *walk[j] == p,
            forall|j: int| 0 <= j < it.index() ==> ports@.contains(*#[trigger] walk[j]),
    {
        insert_ascending(&mut ports, *k);
    }
    proof {
        assert forall|p: i32| ports@.contains(p) <==> m@.contains_key(p) by {
            if ports@.contains(p) {
                let j = choose|j: int| 0 <= j < walk.len() && *walk[j] == p;
                assert(walk.unref()[j] == p);
                assert(walk.unref().to_set().contains(p));
            }
            if m@.contains_key(p) {
                assert(walk.unref().to_set().contains(p));
                let j = choose|j: int| 0 <= j < walk.unref().len() && walk.unref()[j] == p;
                assert(*walk[j] == p);
            }
        }
        assert(lists_keys(ports@, m@));
        assert(lists_keys(ascending_keys(m@), m@));
        ascending_list_is_unique(ports@, ascending_keys(m@), m@);
    }
    ports
}

} // verus!
