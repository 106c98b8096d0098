//! What the controller reads of the cluster: services, nodes and pods as
//! plain values, and the text-to-text maps that hold their labels and
//! annotations.

use vstd::prelude::*;

verus! {

/// The map that a list of pairs writes: a later pair replaces an earlier one
/// with the same key.
pub open spec fn pairs_map(pairs: Seq<(Seq<char>, Seq<char>)>) -> Map<Seq<char>, Seq<char>>
    decreases pairs.len(),
{
    if pairs.len() == 0 {
        Map::empty()
    } else {
        pairs_map(pairs.drop_last()).insert(pairs.last().0, pairs.last().1)
    }
}

/// Whether no two of `pairs` have the same key.
pub open spec fn distinct_keys(pairs: Seq<(Seq<char>, Seq<char>)>) -> bool {
    forall|i: int, j: int| 0 <= i < j < pairs.len() ==> pairs[i].0 != pairs[j].0
}

/// A pair is in the map that its list writes, when the keys are distinct.
pub proof fn pair_is_mapped(pairs: Seq<(Seq<char>, Seq<char>)>, at: int)
    requires
        distinct_keys(pairs),
        0 <= at < pairs.len(),
    ensures
        pairs_map(pairs).contains_key(pairs[at].0),
        pairs_map(pairs)[pairs[at].0] == pairs[at].1,
    decreases pairs.len(),
{
    if at < pairs.len() - 1 {
        pair_is_mapped(pairs.drop_last(), at);
    }
}

/// Every key of the map that a list writes is the key of one of its pairs.
pub proof fn mapped_key_has_pair(pairs: Seq<(Seq<char>, Seq<char>)>, key: Seq<char>)
    requires
        pairs_map(pairs).contains_key(key),
    ensures
        exists|i: int| 0 <= i < pairs.len() && (#[trigger] pairs[i]).0 == key,
    decreases pairs.len(),
{
    if pairs.len() > 0 {
        if pairs.last().0 == key {
            assert(pairs[pairs.len() - 1].0 == key);
        } else {
            mapped_key_has_pair(pairs.drop_last(), key);
            let i = choose|i: int|
                0 <= i < pairs.drop_last().len() && (#[trigger] pairs.drop_last()[i]).0 == key;
            assert(pairs[i].0 == key);
        }
    }
}

/// A map from text to text, as labels, annotations and selectors are. It
/// keeps its entries in the order in which their keys were first inserted.
#[derive(Debug, PartialEq, Eq)]
pub struct StringMap {
    entries: Vec<(String, String)>,
}

impl View for StringMap {
    type V = Map<Seq<char>, Seq<char>>;

    closed spec fn view(&self) -> Map<Seq<char>, Seq<char>> {
        pairs_map(self.entries.deep_view())
    }
}

impl DeepView for StringMap {
    type V = Map<Seq<char>, Seq<char>>;

    open spec fn deep_view(&self) -> Map<Seq<char>, Seq<char>> {
        self.view()
    }
}

impl Clone for StringMap {
    /// A map with the same entries in the same order.
    fn clone(&self) -> (copy: StringMap)
        ensures
            copy@ == self@,
            copy.pairs() == self.pairs(),
    {
        proof {
            use_type_invariant(self);
        }
        let mut entries: Vec<(String, String)> = Vec::new();
        let mut i: usize = 0;
        while i < self.entries.len()
            invariant
                i <= self.entries.len(),
                entries.len() == i,
                entries.deep_view() == self.entries.deep_view().take(i as int),
            decreases self.entries.len() - i,
        {
            let ghost before = entries.deep_view();
            entries.push((self.entries[i].0.clone(), self.entries[i].1.clone()));
            assert(entries@[i as int].deep_view() == self.entries@[i as int].deep_view());
            assert(entries.deep_view() =~= self.entries.deep_view().take(i as int + 1)) by {
                assert forall|k: int| 0 <= k < i + 1 implies entries.deep_view()[k]
                    == self.entries.deep_view()[k] by {
                    if k < i {
                        assert(entries.deep_view()[k] == before[k]);
                    }
                }
            }
            i = i + 1;
        }
        assert(self.entries.deep_view().take(self.entries.len() as int)
            =~= self.entries.deep_view());
        StringMap { entries }
    }
}

impl StringMap {
    /// The entries in their order.
    pub closed spec fn pairs(&self) -> Seq<(Seq<char>, Seq<char>)> {
        self.entries.deep_view()
    }

    #[verifier::type_invariant]
    spec fn keys_are_distinct(&self) -> bool {
        distinct_keys(self.entries.deep_view())
    }

    /// The map without entries.
    pub fn new() -> (map: StringMap)
        ensures
            map@ == Map::<Seq<char>, Seq<char>>::empty(),
            map.pairs() == Seq::<(Seq<char>, Seq<char>)>::empty(),
    {
        let map = StringMap { entries: Vec::new() };
        assert(map.entries.deep_view() =~= Seq::empty());
        map
    }

    /// The number of entries. The map is the one that the entries write, and
    /// no key occurs twice among them.
    pub fn len(&self) -> (n: usize)
        ensures
            n == self.pairs().len(),
            self@ == pairs_map(self.pairs()),
            distinct_keys(self.pairs()),
    {
        proof {
            use_type_invariant(self);
        }
        self.entries.len()
    }

    /// Whether the map has no entries.
    pub fn is_empty(&self) -> (empty: bool)
        ensures
            empty == (self.pairs().len() == 0),
            empty == (self@ == Map::<Seq<char>, Seq<char>>::empty()),
    {
        proof {
            use_type_invariant(self);
            if self.entries.len() > 0 {
                pair_is_mapped(self.entries.deep_view(), 0);
            }
        }
        self.entries.len() == 0
    }

    /// Where the entry for `key` stands, if there is one.
    fn position(&self, key: &str) -> (at: Option<usize>)
        ensures
            match at {
                Some(i) => i < self.pairs().len() && self.pairs()[i as int].0 == key@,
                None => forall|k: int| 0 <= k < self.pairs().len() ==> self.pairs()[k].0 != key@,
            },
    {
        let mut i: usize = 0;
        while i < self.entries.len()
            invariant
                i <= self.entries.len(),
                forall|k: int| 0 <= k < i ==> self.entries.deep_view()[k].0 != key@,
            decreases self.entries.len() - i,
        {
            if self.entries[i].0.as_str().eq(key) {
                return Some(i);
            }
            i = i + 1;
        }
        None
    }

    /// The value for `key`, if the map has one.
    pub fn get(&self, key: &str) -> (value: Option<&String>)
        ensures
            match value {
                Some(v) => self@.contains_key(key@) && self@[key@] == v@,
                None => !self@.contains_key(key@),
            },
    {
        proof {
            use_type_invariant(self);
        }
        match self.position(key) {
            Some(i) => {
                proof {
                    pair_is_mapped(self.entries.deep_view(), i as int);
                }
                Some(&self.entries[i].1)
            },
            None => {
                proof {
                    if self@.contains_key(key@) {
                        mapped_key_has_pair(self.entries.deep_view(), key@);
                        let i = choose|i: int|
                            0 <= i < self.entries.deep_view().len() && (
                            #[trigger] self.entries.deep_view()[i]).0 == key@;
                        assert(self.pairs()[i].0 == key@);
                    }
                }
                None
            },
        }
    }

    /// The key and the value of the entry at `at`.
    pub fn entry(&self, at: usize) -> (pair: (&String, &String))
        requires
            at < self.pairs().len(),
        ensures
            pair.0@ == self.pairs()[at as int].0,
            pair.1@ == self.pairs()[at as int].1,
    {
        (&self.entries[at].0, &self.entries[at].1)
    }

    /// Sets the value for `key`. A key that the map already has keeps its
    /// place among the entries; a new key goes behind them.
    pub fn insert(&mut self, key: String, value: String)
        ensures
            final(self)@ == old(self)@.insert(key@, value@),
            old(self)@.contains_key(key@) ==> exists|at: int|
                0 <= at < old(self).pairs().len() && (#[trigger] old(self).pairs()[at]).0 == key@
                    && final(self).pairs() == old(self).pairs().update(at, (key@, value@)),
            !old(self)@.contains_key(key@) ==> final(self).pairs() == old(self).pairs().push(
                (key@, value@),
            ),
    {
        proof {
            use_type_invariant(&*self);
        }
        let ghost before = self.entries.deep_view();
        let ghost pair = (key@, value@);
        let place = self.position(key.as_str());
        let mut entries: Vec<(String, String)> = Vec::new();
        let mut i: usize = 0;
        while i < self.entries.len()
            invariant
                before == self.entries.deep_view(),
                i <= before.len(),
                entries.deep_view().len() == i,
                forall|k: int|
                    0 <= k < i ==> #[trigger] entries.deep_view()[k] == (if place == Some(k as usize) {
                        pair
                    } else {
                        before[k]
                    }),
                pair == (key@, value@),
            decreases before.len() - i,
        {
            let ghost so_far = entries.deep_view();
            if place == Some(i) {
                entries.push((key.clone(), value.clone()));
                assert(entries@[i as int].deep_view() == pair);
            } else {
                entries.push((self.entries[i].0.clone(), self.entries[i].1.clone()));
                assert(entries@[i as int].deep_view() == self.entries@[i as int].deep_view());
            }
            proof {
                assert(entries.deep_view().drop_last() =~= so_far);
                assert forall|k: int| 0 <= k < i + 1 implies #[trigger] entries.deep_view()[k] == (
                if place == Some(k as usize) {
                    pair
                } else {
                    before[k]
                }) by {
                    if k < i {
                        assert(entries.deep_view()[k] == so_far[k]);
                    }
                }
            }
            i = i + 1;
        }
        match place {
            Some(at) => {
                proof {
                    pair_is_mapped(before, at as int);
                    assert(entries.deep_view() =~= before.update(at as int, pair));
                    update_writes_insert(before, at as int, pair.1);
                    assert(old(self).pairs()[at as int].0 == key@);
                }
            },
            None => {
                let ghost copied = entries.deep_view();
                entries.push((key, value));
                proof {
                    assert(copied =~= before);
                    assert(entries.deep_view() =~= before.push(pair));
                    assert(before.push(pair).drop_last() =~= before);
                    if pairs_map(before).contains_key(pair.0) {
                        mapped_key_has_pair(before, pair.0);
                        let i = choose|i: int|
                            0 <= i < before.len() && (#[trigger] before[i]).0 == pair.0;
                        assert(old(self).pairs()[i].0 == key@);
                    }
                }
            },
        }
        *self = StringMap { entries };
    }
}

/// Replacing the value of a pair writes the map with that key set anew.
proof fn update_writes_insert(pairs: Seq<(Seq<char>, Seq<char>)>, at: int, value: Seq<char>)
    requires
        distinct_keys(pairs),
        0 <= at < pairs.len(),
    ensures
        distinct_keys(pairs.update(at, (pairs[at].0, value))),
        pairs_map(pairs.update(at, (pairs[at].0, value))) == pairs_map(pairs).insert(
            pairs[at].0,
            value,
        ),
    decreases pairs.len(),
{
    let changed = pairs.update(at, (pairs[at].0, value));
    if at == pairs.len() - 1 {
        assert(changed.drop_last() =~= pairs.drop_last());
        assert(pairs_map(changed) =~= pairs_map(pairs).insert(pairs[at].0, value));
    } else {
        update_writes_insert(pairs.drop_last(), at, value);
        assert(changed.drop_last() =~= pairs.drop_last().update(at, (pairs[at].0, value)));
        assert(changed.last() == pairs.last());
        assert(pairs.last().0 != pairs[at].0);
        assert(pairs_map(changed) =~= pairs_map(pairs).insert(pairs[at].0, value));
    }
}


/// One port of a service.
#[derive(Clone, Debug, PartialEq, Eq)]
pub struct ServicePort {
    pub port: i32,
    pub node_port: Option<i32>,
    pub protocol: Option<String>,
}

/// [`ServicePort`] as contracts speak of it: a plain value with texts as character sequences.
pub struct ServicePortView {
    pub port: i32,
    pub node_port: Option<i32>,
    pub protocol: Option<Seq<char>>,
}

impl DeepView for ServicePort {
    type V = ServicePortView;

    open spec fn deep_view(&self) -> ServicePortView {
        ServicePortView {
            port: self.port,
            node_port: self.node_port,
            protocol: self.protocol.deep_view(),
        }
    }
}

/// What the controller reads of a service. `name` is the service's name, or
/// the name it is to be generated from, or empty. `deletion_requested` says
/// whether the service carries a deletion timestamp.
#[derive(Clone, Debug, PartialEq, Eq)]
pub struct Service {
    pub name: String,
    pub namespace: Option<String>,
    pub service_type: Option<String>,
    pub annotations: StringMap,
    pub finalizers: Vec<String>,
    pub deletion_requested: bool,
    pub selector: Option<StringMap>,
    pub ports: Vec<ServicePort>,
}

/// [`Service`] as contracts speak of it: a plain value with texts as character sequences.
pub struct ServiceView {
    pub name: Seq<char>,
    pub namespace: Option<Seq<char>>,
    pub service_type: Option<Seq<char>>,
    pub annotations: Map<Seq<char>, Seq<char>>,
    pub finalizers: Seq<Seq<char>>,
    pub deletion_requested: bool,
    /// The selector's entries in their order, if the service has a selector.
    pub selector: Option<Seq<(Seq<char>, Seq<char>)>>,
    pub ports: Seq<ServicePortView>,
}

impl DeepView for Service {
    type V = ServiceView;

    open spec fn deep_view(&self) -> ServiceView {
        ServiceView {
            name: self.name@,
            namespace: self.namespace.deep_view(),
            service_type: self.service_type.deep_view(),
            annotations: self.annotations@,
            finalizers: self.finalizers.deep_view(),
            deletion_requested: self.deletion_requested,
            selector: match self.selector {
                Some(selector) => Some(selector.pairs()),
                None => None,
            },
            ports: self.ports.deep_view(),
        }
    }
}

/// One address of a node. `kind` is `InternalIP`, `ExternalIP` or another
/// address type.
#[derive(Clone, Debug, PartialEq, Eq)]
pub struct NodeAddress {
    pub kind: String,
    pub address: String,
}

/// [`NodeAddress`] as contracts speak of it: a plain value with texts as character sequences.
pub struct NodeAddressView {
    pub kind: Seq<char>,
    pub address: Seq<char>,
}

impl DeepView for NodeAddress {
    type V = NodeAddressView;

    open spec fn deep_view(&self) -> NodeAddressView {
        NodeAddressView { kind: self.kind@, address: self.address@ }
    }
}

/// What the controller reads of a node.
#[derive(Clone, Debug, PartialEq, Eq)]
pub struct Node {
    pub name: String,
    pub labels: StringMap,
    pub addresses: Vec<NodeAddress>,
}

/// [`Node`] as contracts speak of it: a plain value with texts as character sequences.
pub struct NodeView {
    pub name: Seq<char>,
    pub labels: Map<Seq<char>, Seq<char>>,
    pub addresses: Seq<NodeAddressView>,
}

impl DeepView for Node {
    type V = NodeView;

    open spec fn deep_view(&self) -> NodeView {
        NodeView { name: self.name@, labels: self.labels@, addresses: self.addresses.deep_view() }
    }
}

/// What the controller reads of a pod: the node it runs on, once it has one.
#[derive(Clone, Debug, PartialEq, Eq)]
pub struct Pod {
    pub node_name: Option<String>,
}

/// [`Pod`] as contracts speak of it: a plain value with texts as character sequences.
pub struct PodView {
    pub node_name: Option<Seq<char>>,
}

impl DeepView for Pod {
    type V = PodView;

    open spec fn deep_view(&self) -> PodView {
        PodView { node_name: self.node_name.deep_view() }
    }
}

} // verus!
