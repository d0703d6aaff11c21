use vstd::prelude::*;

verus! {

/// A node of a general tree of text values. Children and parent are indices
/// into the arena of the `AST` that holds the node.
pub struct Node {
    pub value: String,
    pub children: Vec<usize>,
    pub parent: Option<usize>,
}

impl Node {
    /// An empty node with no value, no children and no parent.
    pub fn new() -> (n: Node)
        ensures
            n.value@ == Seq::<char>::empty(),
            n.children@ == Seq::<usize>::empty(),
            n.parent is None,
    {
        Node { value: String::new(), children: Vec::new(), parent: None }
    }
}

/// A tree kept as an arena of nodes, with a root and a cursor (`current`)
/// that names the node where insertions happen.
pub struct AST {
    pub nodes: Vec<Node>,
    pub root: usize,
    pub current: usize,
}

impl AST {
    /// Every index held by `n` names a node of the arena.
    pub open spec fn links_ok(&self, n: Node) -> bool {
        &&& forall|j: int| 0 <= j < n.children@.len() ==> #[trigger] n.children@[j] < self.nodes@.len()
        &&& n.parent matches Some(p) ==> p < self.nodes@.len()
    }

    pub open spec fn wf(&self) -> bool {
        &&& self.root < self.nodes@.len()
        &&& self.current < self.nodes@.len()
        &&& forall|i: int| 0 <= i < self.nodes@.len() ==> self.links_ok(#[trigger] self.nodes@[i])
    }

    /// A tree of one empty node, which is both the root and the current node.
    pub fn new() -> (t: AST)
        ensures
            t.wf(),
            t.nodes@.len() == 1,
            t.root == 0,
            t.current == 0,
            t.nodes@[0].value@ == Seq::<char>::empty(),
            t.nodes@[0].children@ == Seq::<usize>::empty(),
            t.nodes@[0].parent is None,
    {
        let mut nodes: Vec<Node> = Vec::new();
        nodes.push(Node::new());
        AST { nodes, root: 0, current: 0 }
    }

    /// What attaching a new node with `value` under `parent` does to the arena.
    pub open spec fn attached(old_nodes: Seq<Node>, new_nodes: Seq<Node>, parent: usize, value: String, idx: usize) -> bool {
        &&& idx == old_nodes.len()
        &&& new_nodes.len() == old_nodes.len() + 1
        &&& new_nodes[idx as int].value == value
        &&& new_nodes[idx as int].children@ == Seq::<usize>::empty()
        &&& new_nodes[idx as int].parent == Some(parent)
        &&& new_nodes[parent as int].value == old_nodes[parent as int].value
        &&& new_nodes[parent as int].parent == old_nodes[parent as int].parent
        &&& new_nodes[parent as int].children@ == old_nodes[parent as int].children@.push(idx)
        &&& forall|i: int|
            0 <= i < old_nodes.len() && i != parent ==> #[trigger] new_nodes[i] == old_nodes[i]
    }

    fn attach(&mut self, parent: usize, value: String) -> (idx: usize)
        requires
            old(self).wf(),
            parent < old(self).nodes@.len(),
            old(self).nodes@.len() < usize::MAX,
        ensures
            final(self).wf(),
            final(self).root == old(self).root,
            final(self).current == old(self).current,
            Self::attached(old(self).nodes@, final(self).nodes@, parent, value, idx),
    {
        let idx = self.nodes.len();
        let node = Node { value, children: Vec::new(), parent: Some(parent) };
        self.nodes.push(node);
        self.nodes[parent].children.push(idx);
        proof {
            let n = self.nodes@;
            assert forall|i: int| 0 <= i < n.len() implies self.links_ok(#[trigger] n[i]) by {
                if i != parent && i != idx {
                    assert(n[i] == old(self).nodes@[i]);
                    assert(old(self).links_ok(old(self).nodes@[i]));
                } else if i == parent {
                    assert(old(self).links_ok(old(self).nodes@[i]));
                    let c = n[i].children@;
                    assert forall|j: int| 0 <= j < c.len() implies #[trigger] c[j] < n.len() by {
                        if j < c.len() - 1 {
                            assert(c[j] == old(self).nodes@[i].children@[j]);
                        }
                    }
                }
            }
        }
        idx
    }

    /// Adds a node with `value` as the last child of the current node; the
    /// current node stays where it is. Returns the new node's index.
    pub fn add_node(&mut self, value: String) -> (idx: usize)
        requires
            old(self).wf(),
            old(self).nodes@.len() < usize::MAX,
        ensures
            final(self).wf(),
            final(self).root == old(self).root,
            final(self).current == old(self).current,
            Self::attached(old(self).nodes@, final(self).nodes@, old(self).current, value, idx),
    {
        let c = self.current;
        self.attach(c, value)
    }

    /// Adds a node with `value` as the last child of the current node, as
    /// `add_node` does; the current node and the root stay where they are.
    /// Returns the new node's index.
    pub fn add_child(&mut self, value: String) -> (idx: usize)
        requires
            old(self).wf(),
            old(self).nodes@.len() < usize::MAX,
        ensures
            final(self).wf(),
            final(self).root == old(self).root,
            final(self).current == old(self).current,
            Self::attached(old(self).nodes@, final(self).nodes@, old(self).current, value, idx),
    {
        let c = self.current;
        self.attach(c, value)
    }

    /// Adds a node with `value` as the last child of the current node, as
    /// `add_node` does; the current node and the root stay where they are.
    /// Returns the new node's index.
    pub fn add_sibling(&mut self, value: String) -> (idx: usize)
        requires
            old(self).wf(),
            old(self).nodes@.len() < usize::MAX,
        ensures
            final(self).wf(),
            final(self).root == old(self).root,
            final(self).current == old(self).current,
            Self::attached(old(self).nodes@, final(self).nodes@, old(self).current, value, idx),
    {
        let c = self.current;
        self.attach(c, value)
    }

    /// Adds a node with `value` as the last child of the current node, as
    /// `add_node` does; the current node and the root stay where they are.
    /// Returns the new node's index.
    pub fn add_parent(&mut self, value: String) -> (idx: usize)
        requires
            old(self).wf(),
            old(self).nodes@.len() < usize::MAX,
        ensures
            final(self).wf(),
            final(self).root == old(self).root,
            final(self).current == old(self).current,
            Self::attached(old(self).nodes@, final(self).nodes@, old(self).current, value, idx),
    {
        let c = self.current;
        self.attach(c, value)
    }

    /// The current node.
    pub fn get_current(&self) -> (n: &Node)
        requires
            self.wf(),
        ensures
            *n == self.nodes@[self.current as int],
    {
        &self.nodes[self.current]
    }

    /// Moves the cursor to the node at `index`.
    pub fn set_current(&mut self, index: usize)
        requires
            old(self).wf(),
            index < old(self).nodes@.len(),
        ensures
            final(self).wf(),
            final(self).current == index,
            final(self).root == old(self).root,
            final(self).nodes == old(self).nodes,
    {
        self.current = index;
    }

    /// The root node.
    pub fn get_root(&self) -> (n: &Node)
        requires
            self.wf(),
        ensures
            *n == self.nodes@[self.root as int],
    {
        &self.nodes[self.root]
    }

    /// Makes the node at `index` the root.
    pub fn set_root(&mut self, index: usize)
        requires
            old(self).wf(),
            index < old(self).nodes@.len(),
        ensures
            final(self).wf(),
            final(self).root == index,
            final(self).current == old(self).current,
            final(self).nodes == old(self).nodes,
    {
        self.root = index;
    }
}

} // verus!
