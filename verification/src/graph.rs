//! Append-only directed acyclic graphs, the store under expressions, logical
//! plans and physical plans.

use vstd::prelude::*;

verus! {

/// One node: its value, its properties and its ordered children.
#[derive(Debug)]
pub struct Node<T, P> {
    pub value: T,
    pub properties: P,
    pub children: Option<Vec<usize>>,
}

/// A graph whose keys are the positions at which nodes were added. A node can
/// only name children that were added before it, so every graph is acyclic
/// and a key, once handed out, keeps its meaning.
#[derive(Debug)]
pub struct Graph<T, P> {
    pub nodes: Vec<Node<T, P>>,
}

impl<T, P> Node<T, P> {
    /// The children of this node, none when it has no child list.
    pub open spec fn child_keys(self) -> Seq<usize> {
        match self.children {
            Some(c) => c@,
            None => Seq::empty(),
        }
    }
}

impl<T, P> Graph<T, P> {
    /// Every child key is smaller than the key of its parent.
    pub open spec fn wf(&self) -> bool {
        forall|k: int, j: int|
            0 <= k < self.nodes@.len() && 0 <= j < self.nodes@[k].child_keys().len() ==> (
            #[trigger] self.nodes@[k].child_keys()[j]) < k
    }

    /// Number of nodes.
    pub open spec fn spec_len(&self) -> nat {
        self.nodes@.len()
    }

    /// Whether `key` names a node of this graph.
    pub open spec fn has(&self, key: usize) -> bool {
        key < self.nodes@.len()
    }

    /// The children of node `key`, in order.
    pub open spec fn children_of(&self, key: usize) -> Seq<usize> {
        self.nodes@[key as int].child_keys()
    }

    /// The value of node `key`.
    pub open spec fn value_of(&self, key: usize) -> T {
        self.nodes@[key as int].value
    }

    /// The properties of node `key`.
    pub open spec fn props_of(&self, key: usize) -> P {
        self.nodes@[key as int].properties
    }

    /// The empty graph.
    pub fn new() -> (g: Self)
        ensures
            g.wf(),
            g.spec_len() == 0,
    {
        Graph { nodes: Vec::new() }
    }

    /// Number of nodes.
    #[verifier::when_used_as_spec(spec_len_usize)]
    pub fn len(&self) -> (n: usize)
        ensures
            n == self.spec_len(),
    {
        self.nodes.len()
    }

    /// Number of nodes, as a machine integer.
    pub open spec fn spec_len_usize(&self) -> usize {
        self.nodes@.len() as usize
    }

    /// Whether every child key is smaller than the key of its parent.
    pub fn check(&self) -> (ok: bool)
        ensures
            ok == self.wf(),
    {
        let mut k: usize = 0;
        while k < self.nodes.len()
            invariant
                k <= self.nodes@.len(),
                forall|a: int, j: int|
                    0 <= a < k && 0 <= j < self.nodes@[a].child_keys().len() ==> (
                    #[trigger] self.nodes@[a].child_keys()[j]) < a,
            decreases self.nodes@.len() - k,
        {
            if let Some(c) = &self.nodes[k].children {
                let mut j: usize = 0;
                while j < c.len()
                    invariant
                        k < self.nodes@.len(),
                        self.nodes@[k as int].children == Some(*c),
                        j <= c@.len(),
                        forall|i: int| 0 <= i < j ==> c@[i] < k,
                    decreases c@.len() - j,
                {
                    if c[j] >= k {
                        assert(!(self.nodes@[k as int].child_keys()[j as int] < k));
                        return false;
                    }
                    j += 1;
                }
            }
            k += 1;
        }
        true
    }

    /// Adds a node and returns its key, the number of nodes added before it.
    /// The nodes already present keep their keys and contents.
    pub fn add_node_with_props(&mut self, value: T, properties: P, children: Option<Vec<usize>>) -> (key: usize)
        requires
            old(self).wf(),
            children matches Some(c) ==> forall|j: int| 0 <= j < c@.len() ==> old(self).has(#[trigger] c@[j]),
        ensures
            final(self).wf(),
            key == old(self).spec_len(),
            final(self).nodes@ == old(self).nodes@.push(Node { value, properties, children }),
    {
        let key = self.nodes.len();
        self.nodes.push(Node { value, properties, children });
        assert forall|k: int, j: int|
            0 <= k < self.nodes@.len() && 0 <= j < self.nodes@[k].child_keys().len() implies (
            #[trigger] self.nodes@[k].child_keys()[j]) < k by {
            if k < key {
                assert(self.nodes@[k] == old(self).nodes@[k]);
            }
        }
        key
    }

    /// The node stored under `key`.
    pub fn get(&self, key: usize) -> (node: &Node<T, P>)
        requires
            self.has(key),
        ensures
            *node == self.nodes@[key as int],
    {
        &self.nodes[key]
    }

    /// Value, properties and children of the node stored under `key`.
    pub fn get3(&self, key: usize) -> (parts: (&T, &P, Option<&Vec<usize>>))
        requires
            self.has(key),
        ensures
            *parts.0 == self.value_of(key),
            *parts.1 == self.props_of(key),
            match parts.2 {
                Some(c) => self.nodes@[key as int].children == Some(*c),
                None => self.nodes@[key as int].children is None,
            },
    {
        let node = &self.nodes[key];
        (&node.value, &node.properties, node.children.as_ref())
    }

    /// The value stored under `key`.
    pub fn get_value(&self, key: usize) -> (value: &T)
        requires
            self.has(key),
        ensures
            *value == self.value_of(key),
    {
        &self.nodes[key].value
    }

    /// The properties stored under `key`.
    pub fn get_properties(&self, key: usize) -> (properties: &P)
        requires
            self.has(key),
        ensures
            *properties == self.props_of(key),
    {
        &self.nodes[key].properties
    }

    /// Replaces the properties stored under `key`. Values and children stay.
    pub fn set_properties(&mut self, key: usize, properties: P)
        requires
            old(self).has(key),
        ensures
            final(self).nodes@.len() == old(self).nodes@.len(),
            final(self).props_of(key) == properties,
            final(self).value_of(key) == old(self).value_of(key),
            final(self).nodes@[key as int].children == old(self).nodes@[key as int].children,
            forall|k: int| 0 <= k < old(self).nodes@.len() && k != key ==> final(self).nodes@[k] == old(self).nodes@[k],
    {
        self.nodes[key].properties = properties;
    }
}

impl<T, P> Graph<T, P> {
    /// The keys met on a walk from node `key`: the node itself, then the
    /// walks from its children, the last child first. A node that several
    /// nodes share is met once for each.
    pub open spec fn walk(&self, key: usize) -> Seq<usize>
        decreases key, 1nat, 0nat,
    {
        if !self.has(key) {
            Seq::empty()
        } else {
            seq![key] + self.walk_children(key, self.children_of(key).len())
        }
    }

    /// The walks from the first `n` children of node `key`, the last of
    /// them first.
    pub open spec fn walk_children(&self, key: usize, n: nat) -> Seq<usize>
        decreases key, 0nat, n,
    {
        if n == 0 || !self.has(key) || n > self.children_of(key).len() {
            Seq::empty()
        } else {
            let child = self.children_of(key)[n - 1];
            (if child < key {
                self.walk(child)
            } else {
                Seq::empty()
            }) + self.walk_children(key, (n - 1) as nat)
        }
    }

    /// The keys met on a walk from node `key`.
    pub fn iter(&self, key: usize) -> (keys: Vec<usize>)
        requires
            self.wf(),
        ensures
            keys@ == self.walk(key),
    {
        let mut keys: Vec<usize> = Vec::new();
        self.visit(key, &mut keys);
        keys
    }

    /// Appends the keys met on a walk from node `key`.
    fn visit(&self, key: usize, keys: &mut Vec<usize>)
        requires
            self.wf(),
        ensures
            final(keys)@ == old(keys)@ + self.walk(key),
        decreases key, 1nat, 0nat,
    {
        if key >= self.nodes.len() {
            assert(keys@ =~= old(keys)@ + self.walk(key));
            return ;
        }
        keys.push(key);
        let n = match &self.nodes[key].children {
            Some(c) => c.len(),
            None => 0,
        };
        self.visit_children(key, n, keys);
        assert(keys@ =~= old(keys)@ + self.walk(key));
    }

    /// Appends the keys met on the walks from the first `n` children of
    /// node `key`, the last of them first.
    fn visit_children(&self, key: usize, n: usize, keys: &mut Vec<usize>)
        requires
            self.wf(),
            self.has(key),
            n <= self.children_of(key).len(),
        ensures
            final(keys)@ == old(keys)@ + self.walk_children(key, n as nat),
        decreases key, 0nat, n,
    {
        if n == 0 {
            assert(keys@ =~= old(keys)@ + self.walk_children(key, n as nat));
            return ;
        }
        let child = match &self.nodes[key].children {
            Some(c) => c[n - 1],
            None => 0,
        };
        assert(self.nodes@[key as int].child_keys()[n - 1] < key);
        self.visit(child, keys);
        self.visit_children(key, n - 1, keys);
        assert(keys@ =~= old(keys)@ + self.walk_children(key, n as nat));
    }
}

} // verus!
