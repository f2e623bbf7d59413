mod linked_list;
mod laws;
mod node;

pub use crate::laws::{
    distinct_keys, has_key, insert_all, lemma_absence, lemma_insert_all_binds, lemma_non_interference,
    lemma_overwrite_precedence, lemma_round_trip,
};
pub use crate::linked_list::{Iter, LinkedList};

use crate::node::{DeltaNode, InnerNode, LeafNode, Node};

use vstd::prelude::*;

verus! {

/// Logical identifier of a node: an index into the mapping table.
pub type NodeID = usize;

/// A totally ordered key type with a least value.
///
/// `key_eq` and `key_le` compare as `Ord` does. The least value is the
/// separator of the leftmost routing entry of an inner node.
pub trait KeyType: Ord + Sized {
    /// The least key.
    spec fn min_key() -> Self;

    /// The key order.
    spec fn le_key(self, other: Self) -> bool;

    /// No key is below the least key.
    proof fn lemma_minimum_le(k: Self)
        ensures
            Self::le_key(Self::min_key(), k),
    ;

    /// The least key.
    fn minimum() -> (r: Self)
        ensures
            r == Self::min_key(),
    ;

    /// Whether the two keys are equal.
    fn key_eq(&self, other: &Self) -> (r: bool)
        ensures
            r == (*self == *other),
    ;

    /// Whether `self` is at most `other` in the key order.
    fn key_le(&self, other: &Self) -> (r: bool)
        ensures
            r == Self::le_key(*self, *other),
    ;
}

impl KeyType for u64 {
    open spec fn min_key() -> u64 {
        u64::MIN
    }

    open spec fn le_key(self, other: u64) -> bool {
        self <= other
    }

    proof fn lemma_minimum_le(k: u64) {
    }

    fn minimum() -> (r: u64) {
        u64::MIN
    }

    fn key_eq(&self, other: &u64) -> (r: bool) {
        *self == *other
    }

    fn key_le(&self, other: &u64) -> (r: bool) {
        *self <= *other
    }
}

/// Logical id of the root node.
pub const ROOT_NODE_ID: NodeID = 1;

/// Logical id of the leaf allocated when the tree is built.
pub const FIRST_LEAF_NODE_ID: NodeID = 2;

/// Number of slots in a mapping table (2 to the 20th).
pub const MAPPING_TABLE_SIZE: usize = 1048576;

/// A Bw-Tree index: logical node ids are resolved to physical nodes through
/// a mapping table, and updates are recorded as delta records instead of
/// being applied to a node in place.
///
/// The first insert replaces the root's routing node by a delta node; each
/// later insert prepends a record to that node's chain. Writers take the
/// tree by `&mut`, so each install into the mapping table and each prepend
/// is the only one in flight.
pub struct BwTree<K, V> {
    root_id: NodeID,
    /// Mapping table from logical node IDs to physical nodes.
    mapping_table: MappingTable<K, V>,
    /// The next unused node ID in the `mapping_table`.
    next_unused_node_id: NodeID,
}

impl<K: KeyType, V> View for BwTree<K, V> {
    type V = Map<K, V>;

    /// The bindings the index holds: those of the root's delta chain, and
    /// none while the root is still the routing node it was built with.
    closed spec fn view(&self) -> Map<K, V> {
        match self.mapping_table.entries@[ROOT_NODE_ID as int] {
            Some(Node::Delta(d)) => d.map(),
            _ => Map::empty(),
        }
    }
}

impl<K: KeyType, V> BwTree<K, V> {
    /// The root slot holds either the routing node built with the tree,
    /// which routes every key to the empty first leaf, or a delta node.
    pub closed spec fn wf(&self) -> bool {
        &&& self.root_id == ROOT_NODE_ID
        &&& self.mapping_table.wf()
        &&& self.next_unused_node_id > FIRST_LEAF_NODE_ID
        &&& match self.mapping_table.entries@[FIRST_LEAF_NODE_ID as int] {
            Some(Node::Leaf(leaf)) => leaf.wf() && leaf.count == 0,
            _ => false,
        }
        &&& match self.mapping_table.entries@[ROOT_NODE_ID as int] {
            Some(Node::Inner(inner)) => inner.wf() && inner.children@ == seq![FIRST_LEAF_NODE_ID],
            Some(Node::Delta(_)) => true,
            _ => false,
        }
    }

    /// The separators and children of the root, while the root is a
    /// routing node.
    pub closed spec fn root_routing(&self) -> Option<(Seq<K>, Seq<NodeID>)> {
        match self.mapping_table.entries@[self.root_id as int] {
            Some(Node::Inner(inner)) => Some((inner.keys@, inner.children@)),
            _ => None,
        }
    }

    /// An index with a routing root and one empty leaf.
    pub fn new() -> (r: Self)
        ensures
            r.wf(),
            r@ == Map::<K, V>::empty(),
            r.root_routing() == Some((seq![K::min_key()], seq![FIRST_LEAF_NODE_ID])),
    {
        let mut ret: BwTree<K, V> = BwTree {
            root_id: ROOT_NODE_ID,
            mapping_table: MappingTable::new(),
            next_unused_node_id: 1,
        };

        // The Bw-Tree initially consists of two nodes: an empty leaf node
        // and an inner node that contains the empty leaf node
        let root_id = ret.get_next_node_id();
        let first_leaf_id = ret.get_next_node_id();

        let left_most_leaf = Node::Leaf(LeafNode::new());
        let mut root = InnerNode::new();
        root.insert(K::minimum(), first_leaf_id);
        assert(root.keys@ =~= seq![K::min_key()]);
        assert(root.children@ =~= seq![FIRST_LEAF_NODE_ID]);

        let _ = ret.mapping_table.insert(root_id, Node::Inner(root));
        let _ = ret.mapping_table.insert(first_leaf_id, left_most_leaf);

        ret
    }

    /// Hands out the next unused logical id.
    fn get_next_node_id(&mut self) -> (r: NodeID)
        requires
            old(self).next_unused_node_id < usize::MAX,
        ensures
            r == old(self).next_unused_node_id,
            final(self).next_unused_node_id == old(self).next_unused_node_id + 1,
            final(self).root_id == old(self).root_id,
            final(self).mapping_table == old(self).mapping_table,
    {
        let id = self.next_unused_node_id;
        self.next_unused_node_id = id + 1;
        id
    }

    /// Binds `key` to `value`, shadowing any earlier binding of `key`.
    pub fn insert(&mut self, key: K, value: V) -> (r: bool)
        requires
            old(self).wf(),
        ensures
            r,
            final(self).wf(),
            final(self)@ == old(self)@.insert(key, value),
    {
        let root_id = self.root_id;
        match self.mapping_table.get_mut(root_id) {
            Node::Inner(_) => {
                let mut delta = DeltaNode::new();
                delta.insert(key, value);
                let _ = self.mapping_table.insert(root_id, Node::Delta(delta));
            },
            Node::Delta(delta) => {
                delta.insert(key, value);
            },
            Node::Leaf(_) => {},
        }
        true
    }

    /// The value `key` is bound to, if any.
    pub fn get(&self, key: K) -> (r: Option<&V>)
        requires
            self.wf(),
        ensures
            match r {
                Some(v) => self@.contains_key(key) && *v == self@[key],
                None => !self@.contains_key(key),
            },
    {
        let root = self.mapping_table.get(self.root_id);
        match root {
            Node::Inner(inner) => {
                let child = inner.route(&key);
                self.mapping_table.get(child).get(&key)
            },
            _ => root.get(&key),
        }
    }
}

/// Mapping from logical node IDs to physical nodes.
pub struct MappingTable<K, V> {
    /// One slot per logical id; `None` until a node is installed.
    entries: Vec<Option<Node<K, V>>>,
}

impl<K, V> MappingTable<K, V> {
    /// The table has its fixed number of slots.
    pub closed spec fn wf(&self) -> bool {
        self.entries@.len() == MAPPING_TABLE_SIZE
    }

    /// Whether a node is installed under `id`.
    pub closed spec fn is_installed(&self, id: int) -> bool {
        self.entries@[id] is Some
    }

    /// A table of `MAPPING_TABLE_SIZE` empty slots.
    pub fn new() -> (r: Self)
        ensures
            r.wf(),
            forall|id: int| 0 <= id < MAPPING_TABLE_SIZE ==> !r.is_installed(id),
    {
        let mut entries: Vec<Option<Node<K, V>>> = Vec::new();
        let mut i: usize = 0;
        while i < MAPPING_TABLE_SIZE
            invariant
                i <= MAPPING_TABLE_SIZE,
                entries@.len() == i,
                forall|id: int| 0 <= id < i ==> entries@[id] is None,
            decreases MAPPING_TABLE_SIZE - i,
        {
            entries.push(None);
            i = i + 1;
        }
        MappingTable { entries }
    }

    /// The node installed under `id`.
    fn get(&self, id: NodeID) -> (r: &Node<K, V>)
        requires
            self.wf(),
            id < MAPPING_TABLE_SIZE,
            self.entries@[id as int] is Some,
        ensures
            self.entries@[id as int] == Some(*r),
    {
        self.entries[id].as_ref().unwrap()
    }

    /// The node installed under `id`, for updating in place.
    fn get_mut(&mut self, id: NodeID) -> (r: &mut Node<K, V>)
        requires
            old(self).wf(),
            id < MAPPING_TABLE_SIZE,
            old(self).entries@[id as int] is Some,
        ensures
            old(self).entries@[id as int] == Some(*r),
            final(self).entries@ == old(self).entries@.update(id as int, Some(*final(r))),
    {
        self.entries[id].as_mut().unwrap()
    }

    /// Installs `node` under `id`, replacing what was there. The slot is
    /// compared with the value read just before; with exclusive access they
    /// always agree, so the install always succeeds.
    fn insert(&mut self, id: NodeID, node: Node<K, V>) -> (r: bool)
        requires
            old(self).wf(),
            id < MAPPING_TABLE_SIZE,
        ensures
            r,
            final(self).entries@ == old(self).entries@.update(id as int, Some(node)),
    {
        self.entries.set(id, Some(node));
        true
    }
}

} // verus!
