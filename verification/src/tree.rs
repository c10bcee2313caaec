use vstd::prelude::*;

verus! {

/// Search tree stored as a node list and, per node, the list of `(child id, move)` edges.
/// Node ids are positions in the node list; a node reached by several moves (through a
/// transposition table) is linked more than once.
pub struct PlainTree<N, M> {
    nodes: Vec<N>,
    edges: Vec<Vec<(usize, M)>>,
    root_id: usize,
}

/// Abstract state of a [`PlainTree`].
pub struct PlainTreeView<N, M> {
    pub nodes: Seq<N>,
    pub edges: Seq<Seq<(usize, M)>>,
    pub root: usize,
}

impl<N, M> PlainTreeView<N, M> {
    /// Every edge points at a node of the tree.
    pub open spec fn children_valid(self) -> bool {
        forall|p: int, k: int|
            0 <= p < self.edges.len() && 0 <= k < self.edges[p].len() ==> (
            #[trigger] self.edges[p][k]).0 < self.nodes.len()
    }
}

impl<N, M> PlainTreeView<N, M> {
    /// The child ids of node `id`, in edge order.
    pub open spec fn child_ids(self, id: int) -> Seq<usize> {
        self.edges[id].map_values(|e: (usize, M)| e.0)
    }

    /// The child ids of the first `n` children of node `id`, child after child.
    pub open spec fn grandchild_ids(self, id: int, n: int) -> Seq<usize>
        decreases n,
    {
        if n <= 0 {
            Seq::empty()
        } else {
            self.grandchild_ids(id, n - 1) + self.child_ids(self.edges[id][n - 1].0 as int)
        }
    }

    /// The children of node `id`, then its grandchildren, each group in edge order.
    pub open spec fn children_then_grandchildren(self, id: int) -> Seq<usize> {
        self.child_ids(id) + self.grandchild_ids(id, self.edges[id].len() as int)
    }
}

impl<N, M> View for PlainTree<N, M> {
    type V = PlainTreeView<N, M>;

    closed spec fn view(&self) -> PlainTreeView<N, M> {
        PlainTreeView {
            nodes: self.nodes@,
            edges: Seq::new(self.edges@.len(), |i: int| self.edges@[i]@),
            root: self.root_id,
        }
    }
}

impl<N, M> PlainTree<N, M> {
    /// Every node has an edge list.
    pub closed spec fn wf(&self) -> bool {
        self.nodes@.len() == self.edges@.len()
    }

    /// An empty tree with room for `expected_num_nodes` nodes.
    pub fn new(expected_num_nodes: usize) -> (t: PlainTree<N, M>)
        ensures
            t.wf(),
            t@.nodes.len() == 0,
            t@.edges.len() == 0,
            t@.root == 0,
    {
        PlainTree {
            nodes: Vec::with_capacity(expected_num_nodes),
            edges: Vec::with_capacity(expected_num_nodes),
            root_id: 0,
        }
    }

    /// Drops all nodes and makes `root_value` the only node, the root, with id 0.
    pub fn init_root(&mut self, root_value: N) -> (id: usize)
        ensures
            final(self).wf(),
            id == 0,
            final(self)@.root == 0,
            final(self)@.nodes == seq![root_value],
            final(self)@.edges == seq![Seq::<(usize, M)>::empty()],
    {
        self.nodes.clear();
        self.edges.clear();
        self.nodes.push(root_value);
        self.edges.push(Vec::new());
        self.root_id = 0;
        proof {
            assert(final(self)@.nodes =~= seq![root_value]);
            assert(final(self)@.edges =~= seq![Seq::<(usize, M)>::empty()]);
        }
        self.root_id
    }

    /// Makes node `new_root_id` the root; nodes and edges stay.
    pub fn set_root(&mut self, new_root_id: usize)
        ensures
            final(self)@ == (PlainTreeView { root: new_root_id, ..old(self)@ }),
            old(self).wf() ==> final(self).wf(),
    {
        self.root_id = new_root_id;
        proof {
            assert(final(self)@.edges =~= old(self)@.edges);
        }
    }

    /// The root id, `None` while the tree is empty.
    pub fn root_id(&self) -> (r: Option<usize>)
        ensures
            self@.nodes.len() == 0 ==> r is None,
            self@.nodes.len() != 0 ==> r == Some(self@.root),
    {
        if self.nodes.len() == 0 {
            None
        } else {
            Some(self.root_id)
        }
    }

    /// Number of nodes.
    pub fn len(&self) -> (n: usize)
        ensures
            n == self@.nodes.len(),
    {
        self.nodes.len()
    }

    pub fn get_node(&self, id: usize) -> (r: &N)
        requires
            id < self@.nodes.len(),
        ensures
            *r == self@.nodes[id as int],
    {
        &self.nodes[id]
    }

    pub fn get_node_mut(&mut self, id: usize) -> (r: &mut N)
        requires
            id < old(self)@.nodes.len(),
        ensures
            *r == old(self)@.nodes[id as int],
            final(self)@ == (PlainTreeView {
                nodes: old(self)@.nodes.update(id as int, *final(r)),
                ..old(self)@
            }),
            old(self).wf() ==> final(self).wf(),
    {
        &mut self.nodes[id]
    }

    /// Appends `child_value` as a new node with no children, links it below `parent_id` by
    /// `mv` and returns its id, which is the former number of nodes.
    pub fn add_child(&mut self, parent_id: usize, mv: M, child_value: N) -> (child_id: usize)
        requires
            old(self).wf(),
            parent_id < old(self)@.nodes.len(),
        ensures
            final(self).wf(),
            child_id == old(self)@.nodes.len(),
            final(self)@.nodes == old(self)@.nodes.push(child_value),
            final(self)@.edges == old(self)@.edges.push(Seq::<(usize, M)>::empty()).update(
                parent_id as int,
                old(self)@.edges[parent_id as int].push((child_id, mv)),
            ),
            final(self)@.root == old(self)@.root,
            old(self)@.children_valid() ==> final(self)@.children_valid(),
    {
        let child_id = self.nodes.len();
        self.nodes.push(child_value);
        self.edges.push(Vec::new());
        proof {
            assert(self@.edges =~= old(self)@.edges.push(Seq::<(usize, M)>::empty()));
        }
        self.link_child(parent_id, mv, child_id);
        child_id
    }

    /// Links the existing node `child_id` below `parent_id` by `mv`.
    pub fn link_child(&mut self, parent_id: usize, mv: M, child_id: usize)
        requires
            parent_id < old(self)@.edges.len(),
        ensures
            final(self)@.nodes == old(self)@.nodes,
            final(self)@.edges == old(self)@.edges.update(
                parent_id as int,
                old(self)@.edges[parent_id as int].push((child_id, mv)),
            ),
            final(self)@.root == old(self)@.root,
            old(self).wf() ==> final(self).wf(),
            old(self)@.children_valid() && child_id < old(self)@.nodes.len()
                ==> final(self)@.children_valid(),
    {
        self.edges[parent_id].push((child_id, mv));
        proof {
            assert(final(self)@.edges =~= old(self)@.edges.update(
                parent_id as int,
                old(self)@.edges[parent_id as int].push((child_id, mv)),
            ));
        }
    }

    /// The ids of the children of node `id`, then those of its grandchildren: where a new
    /// root is looked for after one or two moves.
    pub fn children_then_grandchildren(&self, id: usize) -> (r: Vec<usize>)
        requires
            self.wf(),
            self@.children_valid(),
            id < self@.edges.len(),
        ensures
            r@ == self@.children_then_grandchildren(id as int),
    {
        let ghost v = self@;
        let children = &self.edges[id];
        assert(children@ == v.edges[id as int]);
        let mut r: Vec<usize> = Vec::new();
        let mut k: usize = 0;
        while k < children.len()
            invariant
                v == self@,
                children@ == v.edges[id as int],
                k <= children@.len(),
                r@ == v.child_ids(id as int).take(k as int),
            decreases children@.len() - k,
        {
            r.push(children[k].0);
            k = k + 1;
            assert(r@ =~= v.child_ids(id as int).take(k as int));
        }
        assert(r@ =~= v.child_ids(id as int) + v.grandchild_ids(id as int, 0));
        let mut k: usize = 0;
        while k < children.len()
            invariant
                v == self@,
                self.wf(),
                v.children_valid(),
                id < v.edges.len(),
                children@ == v.edges[id as int],
                k <= children@.len(),
                r@ == v.child_ids(id as int) + v.grandchild_ids(id as int, k as int),
            decreases children@.len() - k,
        {
            let c = children[k].0;
            assert(c < v.nodes.len());
            let grandchildren = &self.edges[c];
            assert(grandchildren@ == v.edges[c as int]);
            let ghost before = r@;
            let mut j: usize = 0;
            while j < grandchildren.len()
                invariant
                    grandchildren@ == v.edges[c as int],
                    j <= grandchildren@.len(),
                    r@ == before + v.child_ids(c as int).take(j as int),
                decreases grandchildren@.len() - j,
            {
                r.push(grandchildren[j].0);
                j = j + 1;
                assert(r@ =~= before + v.child_ids(c as int).take(j as int));
            }
            k = k + 1;
            assert(v.child_ids(c as int).take(j as int) =~= v.child_ids(c as int));
            assert(r@ =~= v.child_ids(id as int) + v.grandchild_ids(id as int, k as int));
        }
        r
    }

    /// The `(child id, move)` edges of node `id`, in the order they were added.
    pub fn get_children(&self, id: usize) -> (r: &[(usize, M)])
        requires
            id < self@.edges.len(),
        ensures
            r@ == self@.edges[id as int],
    {
        self.edges[id].as_slice()
    }
}

} // verus!
