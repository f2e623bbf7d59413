use crate::linked_list::LinkedList;
use crate::{KeyType, NodeID};
use vstd::prelude::*;

verus! {

/// A physical node: a routing node, a delta chain, or a leaf.
#[derive(Debug)]
pub(crate) enum Node<K, V> {
    Inner(InnerNode<K>),
    Delta(DeltaNode<K, V>),
    Leaf(LeafNode<K, V>),
}

/// Separator keys with the child each one routes to.
#[derive(Debug)]
pub(crate) struct InnerNode<K> {
    /// The lower bound of the key range of each child.
    pub(crate) keys: Vec<K>,
    /// The logical ids of the children.
    pub(crate) children: Vec<NodeID>,
}

/// A chain of update records, most recent first.
#[derive(Debug)]
pub(crate) struct DeltaNode<K, V> {
    pub(crate) records: LinkedList<DeltaRecord<K, V>>,
}

/// One update recorded in a delta chain.
#[derive(Debug)]
pub(crate) enum DeltaRecord<K, V> {
    Insert(K, V),
}

/// The first `count` entries of `keys` and `values`.
#[derive(Debug)]
pub(crate) struct LeafNode<K, V> {
    /// The number of entries in use.
    pub(crate) count: usize,
    pub(crate) keys: Vec<K>,
    pub(crate) values: Vec<V>,
}

/// The bindings a chain of records (most recent first) stands for: the most
/// recent record for a key shadows the older ones.
pub(crate) open spec fn records_map<K, V>(s: Seq<DeltaRecord<K, V>>) -> Map<K, V>
    decreases s.len(),
{
    if s.len() == 0 {
        Map::empty()
    } else {
        match s[0] {
            DeltaRecord::Insert(k, v) => records_map(s.drop_first()).insert(k, v),
        }
    }
}

/// The value paired with the first occurrence of `k` in `keys`, if any.
pub(crate) open spec fn first_match<K, V>(keys: Seq<K>, values: Seq<V>, k: K) -> Option<V>
    decreases keys.len(),
{
    if keys.len() == 0 || values.len() == 0 {
        None
    } else if keys[0] == k {
        Some(values[0])
    } else {
        first_match(keys.drop_first(), values.drop_first(), k)
    }
}

/// `Some(m[k])` when `m` binds `k`, else `None`.
pub(crate) open spec fn map_lookup<K, V>(m: Map<K, V>, k: K) -> Option<V> {
    if m.contains_key(k) {
        Some(m[k])
    } else {
        None
    }
}

/// The reference `r` answers a lookup whose result is `expected`.
pub(crate) open spec fn answers<V>(r: Option<&V>, expected: Option<V>) -> bool {
    match r {
        Some(v) => expected == Some(*v),
        None => expected is None,
    }
}

impl<K: KeyType, V> Node<K, V> {
    pub(crate) open spec fn wf(&self) -> bool {
        match self {
            Node::Inner(n) => n.wf(),
            Node::Delta(_) => true,
            Node::Leaf(n) => n.wf(),
        }
    }

    /// What a point lookup of `k` in this node alone yields.
    pub(crate) open spec fn lookup(&self, k: K) -> Option<V> {
        match self {
            Node::Inner(_) => None,
            Node::Delta(n) => map_lookup(n.map(), k),
            Node::Leaf(n) => n.lookup(k),
        }
    }

    /// Point lookup in a delta chain or a leaf. Routing through an inner
    /// node needs the mapping table, so it is done by the tree.
    pub(crate) fn get(&self, key: &K) -> (r: Option<&V>)
        requires
            self.wf(),
            !(self is Inner),
        ensures
            answers(r, self.lookup(*key)),
    {
        match self {
            Node::Delta(node) => node.get(key),
            Node::Leaf(node) => node.get(key),
            Node::Inner(_) => None,
        }
    }
}

impl<K: KeyType> InnerNode<K> {
    /// Separators and children pair up, and the leftmost separator is the
    /// least key.
    pub(crate) open spec fn wf(&self) -> bool {
        &&& self.keys@.len() == self.children@.len()
        &&& self.keys@.len() > 0
        &&& self.keys@[0] == K::min_key()
    }

    /// A routing node with no entries.
    pub(crate) fn new() -> (r: Self)
        ensures
            r.keys@ == Seq::<K>::empty(),
            r.children@ == Seq::<NodeID>::empty(),
    {
        InnerNode { keys: Vec::new(), children: Vec::new() }
    }

    /// Appends the routing entry (`key`, `node_id`).
    pub(crate) fn insert(&mut self, key: K, node_id: NodeID)
        ensures
            final(self).keys@ == old(self).keys@.push(key),
            final(self).children@ == old(self).children@.push(node_id),
    {
        self.keys.push(key);
        self.children.push(node_id);
    }

    /// The child whose key range holds `key`: that of the last separator
    /// that is at most `key`.
    pub(crate) fn route(&self, key: &K) -> (r: NodeID)
        requires
            self.wf(),
        ensures
            exists|j: int|
                0 <= j < self.keys@.len() && r == self.children@[j] && K::le_key(
                    self.keys@[j],
                    *key,
                ) && forall|i: int| j < i < self.keys@.len() ==> !K::le_key(self.keys@[i], *key),
    {
        proof {
            K::lemma_minimum_le(*key);
        }
        let mut best: usize = 0;
        let mut i: usize = 1;
        while i < self.keys.len()
            invariant
                self.wf(),
                1 <= i <= self.keys@.len(),
                best < i,
                K::le_key(self.keys@[best as int], *key),
                forall|m: int| best < m < i ==> !K::le_key(self.keys@[m], *key),
            decreases self.keys@.len() - i,
        {
            if self.keys[i].key_le(key) {
                best = i;
            }
            i = i + 1;
        }
        self.children[best]
    }
}

impl<K: KeyType, V> DeltaNode<K, V> {
    /// The bindings the chain stands for.
    pub(crate) open spec fn map(&self) -> Map<K, V> {
        records_map(self.records@)
    }

    /// A node with an empty chain.
    pub(crate) fn new() -> (r: Self)
        ensures
            r.records@ == Seq::<DeltaRecord<K, V>>::empty(),
    {
        DeltaNode { records: LinkedList::new() }
    }

    /// Prepends an insert record for (`key`, `value`).
    pub(crate) fn insert(&mut self, key: K, value: V)
        ensures
            final(self).records@ == seq![DeltaRecord::Insert(key, value)] + old(self).records@,
            final(self).map() == old(self).map().insert(key, value),
    {
        self.records.push_front(DeltaRecord::Insert(key, value));
        assert(self.records@.drop_first() =~= old(self).records@);
    }

    /// The value of the most recent insert record for `key`.
    pub(crate) fn get(&self, key: &K) -> (r: Option<&V>)
        ensures
            answers(r, map_lookup(self.map(), *key)),
    {
        let mut it = self.records.iter();
        loop
            invariant
                it.wf(),
                map_lookup(self.map(), *key) == map_lookup(records_map(it@), *key),
            decreases it@.len(),
        {
            match it.next() {
                Some(record) => {
                    match record {
                        DeltaRecord::Insert(k, v) => {
                            if key.key_eq(k) {
                                return Some(v);
                            }
                        },
                    }
                },
                None => {
                    return None;
                },
            }
        }
    }
}

impl<K: KeyType, V> LeafNode<K, V> {
    /// At most `count` entries are in use, and keys and values pair up.
    pub(crate) open spec fn wf(&self) -> bool {
        self.count <= self.keys@.len() && self.keys@.len() == self.values@.len()
    }

    /// What a lookup of `k` among the entries in use yields.
    pub(crate) open spec fn lookup(&self, k: K) -> Option<V> {
        first_match(
            self.keys@.subrange(0, self.count as int),
            self.values@.subrange(0, self.count as int),
            k,
        )
    }

    /// A leaf with no entries.
    pub(crate) fn new() -> (r: Self)
        ensures
            r.count == 0,
            r.keys@ == Seq::<K>::empty(),
            r.values@ == Seq::<V>::empty(),
    {
        LeafNode { count: 0, keys: Vec::new(), values: Vec::new() }
    }

    /// The value of the first entry in use whose key is `key`.
    pub(crate) fn get(&self, key: &K) -> (r: Option<&V>)
        requires
            self.wf(),
        ensures
            answers(r, self.lookup(*key)),
    {
        let n = self.count;
        let mut i: usize = 0;
        while i < n
            invariant
                self.wf(),
                n == self.count,
                i <= n,
                self.lookup(*key) == first_match(
                    self.keys@.subrange(i as int, n as int),
                    self.values@.subrange(i as int, n as int),
                    *key,
                ),
            decreases n - i,
        {
            proof {
                let ks = self.keys@.subrange(i as int, n as int);
                let vs = self.values@.subrange(i as int, n as int);
                assert(ks.drop_first() =~= self.keys@.subrange(i + 1, n as int));
                assert(vs.drop_first() =~= self.values@.subrange(i + 1, n as int));
            }
            if key.key_eq(&self.keys[i]) {
                return Some(&self.values[i]);
            }
            i = i + 1;
        }
        None
    }
}

} // verus!
