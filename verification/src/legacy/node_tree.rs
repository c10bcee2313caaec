use vstd::prelude::*;
use vstd::std_specs::cmp::PartialEqSpec;

verus! {

/// What a node of a [`NodeTree`] holds.
pub struct TreeNodeView<N> {
    pub value: N,
    /// Depth below the root the tree was seeded with.
    pub level: usize,
    pub parent: Option<usize>,
    /// Child ids, in the order the children were added.
    pub children: Seq<usize>,
}

impl<N> TreeNodeView<N> {
    /// The same node holding `v`.
    pub open spec fn with_value(self, v: N) -> TreeNodeView<N> {
        TreeNodeView { value: v, level: self.level, parent: self.parent, children: self.children }
    }

    /// The same node with children `cs`.
    pub open spec fn with_children(self, cs: Seq<usize>) -> TreeNodeView<N> {
        TreeNodeView { value: self.value, level: self.level, parent: self.parent, children: cs }
    }
}

/// A node of a [`NodeTree`].
struct TreeNode<N> {
    value: N,
    level: usize,
    parent: Option<usize>,
    children: Vec<usize>,
}

impl<N> TreeNode<N> {
    spec fn view_node(&self) -> TreeNodeView<N> {
        TreeNodeView {
            value: self.value,
            level: self.level,
            parent: self.parent,
            children: self.children@,
        }
    }
}

/// A tree of values addressed by node ids: the root has id 0, every node knows its level, its
/// parent and its children in insertion order. A child removed from its parent's list keeps its
/// id and its parent link but is no longer reached from the parent.
pub struct NodeTree<N> {
    nodes: Vec<TreeNode<N>>,
}

impl<N> View for NodeTree<N> {
    type V = Seq<TreeNodeView<N>>;

    closed spec fn view(&self) -> Seq<TreeNodeView<N>> {
        Seq::new(self.nodes@.len(), |i: int| self.nodes@[i].view_node())
    }
}

/// Node `c` lies one level below node `i` and names it as parent.
pub open spec fn child_linked<N>(t: Seq<TreeNodeView<N>>, i: int, c: usize) -> bool {
    &&& c < t.len()
    &&& t[c as int].parent == Some(i as usize)
    &&& t[c as int].level == t[i].level + 1
}

/// Links are consistent: a child lies one level below the node that lists it and names it as
/// parent, and no node lists a child twice; a parent link names an existing node one level up;
/// node 0 is the root, at level 0 and the only node without parent.
pub open spec fn tree_wf<N>(t: Seq<TreeNodeView<N>>) -> bool {
    &&& forall|i: int, k: int|
        0 <= i < t.len() && 0 <= k < t[i].children.len() ==> child_linked(t, i, #[trigger] t[i].children[k])
    &&& forall|i: int|
        0 <= i < t.len() ==> (#[trigger] t[i].parent matches Some(p) ==> p < t.len() && t[i].level
            == t[p as int].level + 1)
    &&& t.len() > 0
    &&& t[0].parent is None
    &&& t[0].level == 0
    &&& forall|i: int| 0 < i < t.len() ==> #[trigger] t[i].parent is Some
    &&& forall|i: int| 0 <= i < t.len() ==> #[trigger] t[i].children.no_duplicates()
}

/// Node `n` followed by the nodes of its subtree, depth first, children in order.
pub open spec fn preorder<N>(t: Seq<TreeNodeView<N>>, n: int) -> Seq<usize>
    decreases usize::MAX - t[n].level, 1int, 0int,
{
    if 0 <= n < t.len() {
        seq![n as usize] + preorder_list(t, t[n].children, t[n].level as int)
    } else {
        seq![]
    }
}

/// The subtrees of the nodes `cs` (children of a node at level `above`), one after the other.
pub open spec fn preorder_list<N>(t: Seq<TreeNodeView<N>>, cs: Seq<usize>, above: int) -> Seq<usize>
    decreases usize::MAX - above, 0int, cs.len(),
{
    if cs.len() == 0 {
        seq![]
    } else {
        let c = cs[0] as int;
        (if 0 <= c < t.len() && t[c].level > above {
            preorder(t, c)
        } else {
            seq![]
        }) + preorder_list(t, cs.drop_first(), above)
    }
}

/// The subtree of node `n` children first, each child's subtree in order, then `n`.
pub open spec fn postorder<N>(t: Seq<TreeNodeView<N>>, n: int) -> Seq<usize>
    decreases usize::MAX - t[n].level, 1int, 0int,
{
    if 0 <= n < t.len() {
        postorder_list(t, t[n].children, t[n].level as int) + seq![n as usize]
    } else {
        seq![]
    }
}

/// The subtrees of the nodes `cs` (children of a node at level `above`) in postorder, one
/// after the other.
pub open spec fn postorder_list<N>(t: Seq<TreeNodeView<N>>, cs: Seq<usize>, above: int) -> Seq<usize>
    decreases usize::MAX - above, 0int, cs.len(),
{
    if cs.len() == 0 {
        seq![]
    } else {
        let c = cs[0] as int;
        (if 0 <= c < t.len() && t[c].level > above {
            postorder(t, c)
        } else {
            seq![]
        }) + postorder_list(t, cs.drop_first(), above)
    }
}

/// Node `n` and its ancestors, from `n` up to the node without parent.
pub open spec fn ancestors<N>(t: Seq<TreeNodeView<N>>, n: int) -> Seq<usize>
    decreases t[n].level,
{
    if 0 <= n < t.len() {
        seq![n as usize] + match t[n].parent {
            Some(p) => if p < t.len() && t[p as int].level < t[n].level {
                ancestors(t, p as int)
            } else {
                seq![]
            },
            None => seq![],
        }
    } else {
        seq![]
    }
}

/// The position of the first child of `p` whose value equals `value`, if any.
pub open spec fn first_equal_child<N: PartialEq>(t: Seq<TreeNodeView<N>>, p: int, value: N) -> Option<
    int,
> {
    if exists|k: int|
        0 <= k < t[p].children.len() && #[trigger] t[t[p].children[k] as int].value.eq_spec(&value) {
        Some(
            choose|k: int|
                0 <= k < t[p].children.len() && t[t[p].children[k] as int].value.eq_spec(&value)
                    && forall|j: int|
                    0 <= j < k ==> !#[trigger] t[t[p].children[j] as int].value.eq_spec(&value),
        )
    } else {
        None
    }
}

/// Changing the value of a node keeps the links consistent.
proof fn lemma_value_update_keeps_wf<N>(t: Seq<TreeNodeView<N>>, id: int)
    requires
        0 <= id < t.len(),
    ensures
        forall|v: N|
            tree_wf(t) ==> #[trigger] tree_wf(t.update(id, t[id].with_value(v))),
{
    assert forall|v: N| tree_wf(t) implies #[trigger] tree_wf(
        t.update(id, t[id].with_value(v)),
    ) by {
        let u = t.update(id, t[id].with_value(v));
        assert forall|i: int| 0 <= i < u.len() implies #[trigger] u[i].children == t[i].children
            && u[i].level == t[i].level && u[i].parent == t[i].parent by {}
    }
}

/// The tree after a new child holding `v` was added below `p`: its id is the former number of
/// nodes.
pub open spec fn with_new_child<N>(t: Seq<TreeNodeView<N>>, p: int, v: N) -> Seq<TreeNodeView<N>> {
    t.update(p, t[p].with_children(t[p].children.push(t.len() as usize))).push(
        TreeNodeView {
            value: v,
            level: (t[p].level + 1) as usize,
            parent: Some(p as usize),
            children: Seq::<usize>::empty(),
        },
    )
}

/// Keeping only some of the children of a node keeps the links consistent.
proof fn lemma_children_subset_keeps_wf<N>(t: Seq<TreeNodeView<N>>, id: int, cs: Seq<usize>)
    requires
        tree_wf(t),
        0 <= id < t.len(),
        forall|k: int| 0 <= k < cs.len() ==> t[id].children.contains(#[trigger] cs[k]),
        cs.no_duplicates(),
    ensures
        tree_wf(t.update(id, t[id].with_children(cs))),
{
    let u = t.update(id, t[id].with_children(cs));
    assert forall|i: int, k: int| 0 <= i < u.len() && 0 <= k < u[i].children.len() implies child_linked(
        u,
        i,
        #[trigger] u[i].children[k],
    ) by {
        if i == id {
            let j = choose|j: int| 0 <= j < t[id].children.len() && t[id].children[j] == cs[k];
            assert(child_linked(t, id, t[id].children[j]));
        } else {
            assert(child_linked(t, i, t[i].children[k]));
        }
    }
    assert forall|i: int| 0 <= i < u.len() implies (#[trigger] u[i].parent matches Some(p) ==> p
        < u.len() && u[i].level == u[p as int].level + 1) by {
        assert(t[i].parent == u[i].parent);
    }
    assert forall|i: int| 0 <= i < u.len() implies #[trigger] u[i].children.no_duplicates() by {
        if i != id {
            assert(u[i].children == t[i].children);
        }
    }
}

/// Adding a child below a node one level short of the maximum keeps the links consistent.
proof fn lemma_new_child_keeps_wf<N>(t: Seq<TreeNodeView<N>>, p: int, v: N)
    requires
        tree_wf(t),
        0 <= p < t.len(),
        t[p].level < usize::MAX,
        t.len() < usize::MAX,
    ensures
        tree_wf(with_new_child(t, p, v)),
{
    let u = with_new_child(t, p, v);
    let n = t.len() as usize;
    assert forall|i: int, k: int| 0 <= i < u.len() && 0 <= k < u[i].children.len() implies child_linked(
        u,
        i,
        #[trigger] u[i].children[k],
    ) by {
        if i == p {
            if k < t[p].children.len() {
                assert(u[i].children[k] == t[p].children[k]);
                assert(child_linked(t, p, t[p].children[k]));
            } else {
                assert(u[i].children[k] == n);
            }
        } else if i < t.len() {
            assert(u[i].children[k] == t[i].children[k]);
            assert(child_linked(t, i, t[i].children[k]));
        }
    }
    assert forall|i: int| 0 <= i < u.len() implies (#[trigger] u[i].parent matches Some(q) ==> q
        < u.len() && u[i].level == u[q as int].level + 1) by {
        if i < t.len() {
            assert(t[i].parent == u[i].parent);
        }
    }
    assert forall|i: int| 0 <= i < u.len() implies #[trigger] u[i].children.no_duplicates() by {
        if i == p {
            assert forall|a: int, b: int|
                0 <= a < b < u[i].children.len() implies u[i].children[a] != u[i].children[b] by {
                if b == t[p].children.len() {
                    assert(child_linked(t, p, t[p].children[a]));
                } else {
                    assert(t[p].children.no_duplicates());
                }
            }
        } else if i < t.len() {
            assert(u[i].children == t[i].children);
        }
    }
}

/// The position of `r` among the children of `p` is the first one with an equal value.
proof fn lemma_first_equal_child<N: PartialEq>(t: Seq<TreeNodeView<N>>, p: int, value: N, i: int)
    requires
        0 <= p < t.len(),
        0 <= i < t[p].children.len(),
        t[t[p].children[i] as int].value.eq_spec(&value),
        forall|j: int| 0 <= j < i ==> !#[trigger] t[t[p].children[j] as int].value.eq_spec(&value),
    ensures
        first_equal_child(t, p, value) == Some(i),
{
    let k = choose|k: int|
        0 <= k < t[p].children.len() && t[t[p].children[k] as int].value.eq_spec(&value) && forall|
            j: int,
        | 0 <= j < k ==> !#[trigger] t[t[p].children[j] as int].value.eq_spec(&value);
    assert(0 <= k < t[p].children.len() && t[t[p].children[k] as int].value.eq_spec(&value)
        && forall|j: int| 0 <= j < k ==> !#[trigger] t[t[p].children[j] as int].value.eq_spec(&value));
    if k < i {
    } else if k > i {
    }
}

impl<N> NodeTree<N> {
    /// The links are consistent, see [`tree_wf`].
    pub open spec fn wf(&self) -> bool {
        &&& tree_wf(self@)
        &&& self@.len() <= usize::MAX
    }

    /// A tree of one node, the root with id 0 at level 0.
    pub fn seed_root(value: N, children_capacity: usize) -> (t: NodeTree<N>)
        ensures
            t.wf(),
            t@ == seq![
                TreeNodeView {
                    value,
                    level: 0usize,
                    parent: None::<usize>,
                    children: Seq::<usize>::empty(),
                },
            ],
    {
        let mut nodes: Vec<TreeNode<N>> = Vec::new();
        nodes.push(
            TreeNode { value, level: 0, parent: None, children: Vec::with_capacity(children_capacity) },
        );
        let t = NodeTree { nodes };
        proof {
            assert(t@ =~= seq![
                TreeNodeView {
                    value,
                    level: 0usize,
                    parent: None::<usize>,
                    children: Seq::<usize>::empty(),
                },
            ]);
        }
        t
    }

    /// Number of nodes ever added, detached ones included.
    pub fn len(&self) -> (n: usize)
        ensures
            n == self@.len(),
    {
        self.nodes.len()
    }

    pub fn get_value(&self, id: usize) -> (r: &N)
        requires
            id < self@.len(),
        ensures
            *r == self@[id as int].value,
    {
        &self.nodes[id].value
    }

    /// The value of node `id`, to change in place.
    pub fn get_mut_value(&mut self, id: usize) -> (r: &mut N)
        requires
            id < old(self)@.len(),
        ensures
            *r == old(self)@[id as int].value,
            final(self)@ == old(self)@.update(
                id as int,
                old(self)@[id as int].with_value(*final(r)),
            ),
            old(self).wf() ==> final(self).wf(),
    {
        proof {
            lemma_value_update_keeps_wf(self@, id as int);
        }
        let node = &mut self.nodes[id];
        &mut node.value
    }

    pub fn get_level(&self, id: usize) -> (r: usize)
        requires
            id < self@.len(),
        ensures
            r == self@[id as int].level,
    {
        self.nodes[id].level
    }

    /// Child number `index` of node `id`, `None` past the last child.
    pub fn get_child(&self, id: usize, index: usize) -> (r: Option<usize>)
        requires
            id < self@.len(),
        ensures
            index < self@[id as int].children.len() <==> r is Some,
            r matches Some(c) ==> c == self@[id as int].children[index as int],
    {
        if index < self.nodes[id].children.len() {
            Some(self.nodes[id].children[index])
        } else {
            None
        }
    }

    pub fn len_children(&self, id: usize) -> (r: usize)
        requires
            id < self@.len(),
        ensures
            r == self@[id as int].children.len(),
    {
        self.nodes[id].children.len()
    }

    pub fn get_parent(&self, id: usize) -> (r: Option<usize>)
        requires
            id < self@.len(),
        ensures
            r == self@[id as int].parent,
    {
        self.nodes[id].parent
    }

    /// Removes child number `index` of node `id` from its list, the last child taking its place,
    /// and returns it; `None` when there is no such child. The removed node keeps its parent link.
    pub fn swap_remove_child(&mut self, id: usize, index: usize) -> (r: Option<usize>)
        requires
            id < old(self)@.len(),
        ensures
            index >= old(self)@[id as int].children.len() ==> r is None && final(self)@ == old(
                self,
            )@,
            index < old(self)@[id as int].children.len() ==> r == Some(
                old(self)@[id as int].children[index as int],
            ) && final(self)@ == old(self)@.update(
                id as int,
                old(self)@[id as int].with_children(
                    old(self)@[id as int].children.update(
                        index as int,
                        old(self)@[id as int].children.last(),
                    ).drop_last(),
                ),
            ),
            old(self).wf() ==> final(self).wf(),
    {
        if index >= self.nodes[id].children.len() {
            return None;
        }
        let ghost t = self@;
        let ghost cs = t[id as int].children.update(index as int, t[id as int].children.last()).drop_last();
        proof {
            assert forall|k: int| 0 <= k < cs.len() implies t[id as int].children.contains(#[trigger] cs[k]) by {
                if k == index {
                    assert(t[id as int].children[t[id as int].children.len() - 1] == cs[k]);
                } else {
                    assert(t[id as int].children[k] == cs[k]);
                }
            }
            if tree_wf(t) {
                let cs0 = t[id as int].children;
                assert(cs0.no_duplicates());
                assert forall|a: int, b: int| 0 <= a < b < cs.len() implies cs[a] != cs[b] by {
                    let last = cs0.len() - 1;
                    let ia = if a == index { last } else { a };
                    let ib = if b == index { last } else { b };
                    assert(cs[a] == cs0[ia] && cs[b] == cs0[ib]);
                    assert(ia != ib);
                }
                lemma_children_subset_keeps_wf(t, id as int, cs);
            }
        }
        let child = self.nodes[id].children.swap_remove(index);
        proof {
            assert(self@ =~= t.update(id as int, t[id as int].with_children(cs)));
        }
        Some(child)
    }

    /// Keeps the children of node `id` from position `at` on when `keep_split_off`, else those
    /// before it.
    pub fn split_off_children(&mut self, id: usize, at: usize, keep_split_off: bool)
        requires
            id < old(self)@.len(),
            at <= old(self)@[id as int].children.len(),
        ensures
            final(self)@ == old(self)@.update(
                id as int,
                old(self)@[id as int].with_children(
                    if keep_split_off {
                        old(self)@[id as int].children.subrange(
                            at as int,
                            old(self)@[id as int].children.len() as int,
                        )
                    } else {
                        old(self)@[id as int].children.subrange(0, at as int)
                    },
                ),
            ),
            old(self).wf() ==> final(self).wf(),
    {
        let ghost t = self@;
        let ghost cs = if keep_split_off {
            t[id as int].children.subrange(at as int, t[id as int].children.len() as int)
        } else {
            t[id as int].children.subrange(0, at as int)
        };
        proof {
            assert forall|k: int| 0 <= k < cs.len() implies t[id as int].children.contains(#[trigger] cs[k]) by {
                if keep_split_off {
                    assert(t[id as int].children[at + k] == cs[k]);
                } else {
                    assert(t[id as int].children[k] == cs[k]);
                }
            }
            if tree_wf(t) {
                let cs0 = t[id as int].children;
                assert(cs0.no_duplicates());
                assert forall|a: int, b: int| 0 <= a < b < cs.len() implies cs[a] != cs[b] by {
                    if keep_split_off {
                        assert(cs[a] == cs0[at + a] && cs[b] == cs0[at + b]);
                    } else {
                        assert(cs[a] == cs0[a] && cs[b] == cs0[b]);
                    }
                }
                lemma_children_subset_keeps_wf(t, id as int, cs);
            }
        }
        let split_off = self.nodes[id].children.split_off(at);
        if keep_split_off {
            self.nodes[id].children = split_off;
        }
        proof {
            assert(self@ =~= t.update(id as int, t[id as int].with_children(cs)));
        }
    }

    /// Drops all children of node `id` from its list.
    pub fn clear_children(&mut self, id: usize, children_capacity: usize)
        requires
            id < old(self)@.len(),
        ensures
            final(self)@ == old(self)@.update(
                id as int,
                old(self)@[id as int].with_children(Seq::<usize>::empty()),
            ),
            old(self).wf() ==> final(self).wf(),
    {
        let ghost t = self@;
        proof {
            if tree_wf(t) {
                lemma_children_subset_keeps_wf(t, id as int, Seq::<usize>::empty());
            }
        }
        self.nodes[id].children = Vec::with_capacity(children_capacity);
        proof {
            assert(self@ =~= t.update(id as int, t[id as int].with_children(Seq::<usize>::empty())));
        }
    }

    /// Whether node `id` has no children.
    pub fn is_leave(&self, id: usize) -> (r: bool)
        requires
            id < self@.len(),
        ensures
            r == (self@[id as int].children.len() == 0),
    {
        self.len_children(id) == 0
    }
}

impl<N: PartialEq> NodeTree<N> {
    /// Adds a child holding `value` below node `parent` and returns its id, unless a child with an
    /// equal value is there already: then that child, the first such, is returned and nothing
    /// changes.
    pub fn add_child(&mut self, parent: usize, value: N, children_capacity: usize) -> (r: usize)
        requires
            old(self).wf(),
            parent < old(self)@.len(),
            old(self)@[parent as int].level < usize::MAX,
            old(self)@.len() < usize::MAX,
        ensures
            final(self).wf(),
            (r < old(self)@.len() && final(self)@ == old(self)@ && old(
                self,
            )@[parent as int].children.contains(r)) || (r == old(self)@.len() && final(self)@
                == with_new_child(old(self)@, parent as int, value)),
            <N as PartialEqSpec>::obeys_eq_spec() ==> match first_equal_child(
                old(self)@,
                parent as int,
                value,
            ) {
                Some(k) => r == old(self)@[parent as int].children[k],
                None => r == old(self)@.len(),
            },
    {
        let ghost t = self@;
        let num_children = self.nodes[parent].children.len();
        let mut i: usize = 0;
        while i < num_children
            invariant
                self@ == t,
                parent < t.len(),
                num_children == t[parent as int].children.len(),
                tree_wf(t),
                t.len() <= usize::MAX,
                0 <= i <= num_children,
                <N as PartialEqSpec>::obeys_eq_spec() ==> forall|j: int|
                    0 <= j < i ==> !#[trigger] t[t[parent as int].children[j] as int].value.eq_spec(
                        &value,
                    ),
            decreases num_children - i,
        {
            let c = self.nodes[parent].children[i];
            proof {
                assert(child_linked(t, parent as int, t[parent as int].children[i as int]));
            }
            if self.nodes[c].value == value {
                proof {
                    assert(t[parent as int].children.contains(c)) by {
                        assert(t[parent as int].children[i as int] == c);
                    }
                    if <N as PartialEqSpec>::obeys_eq_spec() {
                        lemma_first_equal_child(t, parent as int, value, i as int);
                    }
                }
                return c;
            }
            i = i + 1;
        }
        let level = self.nodes[parent].level + 1;
        let n = self.nodes.len();
        proof {
            lemma_new_child_keeps_wf(t, parent as int, value);
        }
        self.nodes.push(
            TreeNode {
                value,
                level,
                parent: Some(parent),
                children: Vec::with_capacity(children_capacity),
            },
        );
        self.nodes[parent].children.push(n);
        proof {
            assert(self@ =~= with_new_child(t, parent as int, value));
        }
        n
    }
}

/// The children of a node, in order.
pub struct IterChildren<'a, N> {
    tree: &'a NodeTree<N>,
    node: usize,
    len_children: usize,
    child_index: usize,
    finished: bool,
}

impl<'a, N> IterChildren<'a, N> {
    pub closed spec fn inv(&self) -> bool {
        &&& self.node < self.tree@.len()
        &&& self.child_index <= self.tree@[self.node as int].children.len()
        &&& self.len_children == self.tree@[self.node as int].children.len()
    }

    /// The children still to come.
    pub closed spec fn remaining(&self) -> Seq<usize> {
        if self.finished {
            seq![]
        } else {
            self.tree@[self.node as int].children.skip(self.child_index as int)
        }
    }

    pub fn new(tree: &'a NodeTree<N>, node: usize) -> (it: IterChildren<'a, N>)
        requires
            node < tree@.len(),
        ensures
            it.inv(),
            it.remaining() == tree@[node as int].children,
            it.spec_len() == tree@[node as int].children.len(),
    {
        let len_children = tree.len_children(node);
        let it = IterChildren { tree, node, len_children, child_index: 0, finished: false };
        proof {
            assert(it.remaining() =~= tree@[node as int].children);
        }
        it
    }

    /// The number of children the node had when the iterator was made.
    pub closed spec fn spec_len(&self) -> usize {
        self.len_children
    }

    pub fn len(&self) -> (n: usize)
        ensures
            n == self.spec_len(),
    {
        self.len_children
    }

    /// The next child, `None` once all were handed out.
    pub fn next(&mut self) -> (r: Option<usize>)
        requires
            old(self).inv(),
        ensures
            final(self).inv(),
            final(self).spec_len() == old(self).spec_len(),
            old(self).remaining().len() == 0 ==> r is None && final(self).remaining().len() == 0,
            old(self).remaining().len() > 0 ==> r == Some(old(self).remaining()[0])
                && final(self).remaining() == old(self).remaining().drop_first(),
    {
        if self.finished {
            return None;
        }
        match self.tree.get_child(self.node, self.child_index) {
            Some(node) => {
                self.child_index = self.child_index + 1;
                proof {
                    assert(self.remaining() =~= old(self).remaining().drop_first());
                }
                Some(node)
            },
            None => {
                self.finished = true;
                None
            },
        }
    }
}

/// A node and then its ancestors, up to the node without parent.
pub struct BackTrack<'a, N> {
    tree: &'a NodeTree<N>,
    current_node: usize,
    finished: bool,
}

impl<'a, N> BackTrack<'a, N> {
    pub closed spec fn inv(&self) -> bool {
        &&& self.tree.wf()
        &&& self.current_node < self.tree@.len()
    }

    /// The nodes still to come.
    pub closed spec fn remaining(&self) -> Seq<usize> {
        if self.finished {
            seq![]
        } else {
            ancestors(self.tree@, self.current_node as int)
        }
    }

    pub fn new(tree: &'a NodeTree<N>, node: usize) -> (it: BackTrack<'a, N>)
        requires
            tree.wf(),
            node < tree@.len(),
        ensures
            it.inv(),
            it.remaining() == ancestors(tree@, node as int),
    {
        BackTrack { tree, current_node: node, finished: false }
    }

    /// The next node, `None` after the one without parent.
    pub fn next(&mut self) -> (r: Option<usize>)
        requires
            old(self).inv(),
        ensures
            final(self).inv(),
            old(self).remaining().len() == 0 ==> r is None && final(self).remaining().len() == 0,
            old(self).remaining().len() > 0 ==> r == Some(old(self).remaining()[0])
                && final(self).remaining() == old(self).remaining().drop_first(),
    {
        if self.finished {
            return None;
        }
        let result = self.current_node;
        let ghost t = self.tree@;
        match self.tree.get_parent(self.current_node) {
            Some(node) => {
                proof {
                    assert(t[result as int].parent matches Some(p) ==> p < t.len() && t[result as int].level
                        == t[p as int].level + 1);
                    assert(old(self).remaining().drop_first() =~= ancestors(t, node as int));
                }
                self.current_node = node;
            },
            None => {
                proof {
                    assert(old(self).remaining() =~= seq![result]);
                }
                self.finished = true;
            },
        }
        Some(result)
    }
}

/// One node, once.
pub struct IterSelf {
    node: usize,
    finished: bool,
}

impl IterSelf {
    /// The nodes still to come.
    pub closed spec fn remaining(&self) -> Seq<usize> {
        if self.finished {
            seq![]
        } else {
            seq![self.node]
        }
    }

    pub fn new(node: usize) -> (it: IterSelf)
        ensures
            it.remaining() == seq![node],
    {
        IterSelf { node, finished: false }
    }

    pub fn next(&mut self) -> (r: Option<usize>)
        ensures
            old(self).remaining().len() == 0 ==> r is None && final(self).remaining().len() == 0,
            old(self).remaining().len() > 0 ==> r == Some(old(self).remaining()[0])
                && final(self).remaining() == old(self).remaining().drop_first(),
    {
        if self.finished {
            return None;
        }
        self.finished = true;
        proof {
            assert(final(self).remaining() =~= old(self).remaining().drop_first());
        }
        Some(self.node)
    }
}

/// One step down a preorder list: the subtree of child number `i` comes first, then the rest.
proof fn lemma_preorder_list_skip<N>(t: Seq<TreeNodeView<N>>, cs: Seq<usize>, i: int, above: int)
    requires
        0 <= i < cs.len(),
    ensures
        preorder_list(t, cs.skip(i), above) == (if 0 <= cs[i] < t.len() && t[cs[i] as int].level
            > above {
            preorder(t, cs[i] as int)
        } else {
            seq![]
        }) + preorder_list(t, cs.skip(i + 1), above),
{
    assert(cs.skip(i).drop_first() =~= cs.skip(i + 1));
    assert(cs.skip(i)[0] == cs[i]);
}

/// A list that is used up has an empty preorder.
proof fn lemma_preorder_list_done<N>(t: Seq<TreeNodeView<N>>, cs: Seq<usize>, i: int, above: int)
    requires
        cs.len() == i,
    ensures
        preorder_list(t, cs.skip(i), above) == Seq::<usize>::empty(),
{
    assert(cs.skip(i).len() == 0);
}

/// A path from `path[0]` down the tree: `path[j + 1]` is child number `ci[j]` of `path[j]`.
pub open spec fn path_ok<N>(t: Seq<TreeNodeView<N>>, path: Seq<usize>, ci: Seq<usize>) -> bool {
    &&& path.len() >= 1
    &&& ci.len() >= path.len() - 1
    &&& forall|j: int| 0 <= j < path.len() ==> #[trigger] path[j] < t.len()
    &&& forall|j: int|
        0 <= j < path.len() - 1 ==> #[trigger] ci[j] < t[path[j] as int].children.len()
            && path[j + 1] == t[path[j] as int].children[ci[j] as int]
}

/// What a preorder walk still has to visit above depth `j` of its path: for each node on the
/// path above, the subtrees of the children after the one the walk went into.
pub open spec fn pre_tail<N>(t: Seq<TreeNodeView<N>>, path: Seq<usize>, ci: Seq<usize>, j: int) -> Seq<
    usize,
>
    decreases j,
{
    if j <= 0 {
        seq![]
    } else {
        preorder_list(
            t,
            t[path[j - 1] as int].children.skip(ci[j - 1] + 1),
            t[path[j - 1] as int].level as int,
        ) + pre_tail(t, path, ci, j - 1)
    }
}

/// The rest of a walk depends on the path only down to the depth it looks at.
proof fn lemma_pre_tail_prefix<N>(
    t: Seq<TreeNodeView<N>>,
    path: Seq<usize>,
    ci: Seq<usize>,
    path2: Seq<usize>,
    ci2: Seq<usize>,
    j: int,
)
    requires
        0 <= j <= path.len(),
        j <= path2.len(),
        j <= ci.len(),
        j <= ci2.len(),
        forall|i: int| 0 <= i < j ==> path[i] == path2[i] && ci[i] == ci2[i],
    ensures
        pre_tail(t, path, ci, j) == pre_tail(t, path2, ci2, j),
    decreases j,
{
    if j > 0 {
        lemma_pre_tail_prefix(t, path, ci, path2, ci2, j - 1);
        assert(path[j - 1] == path2[j - 1] && ci[j - 1] == ci2[j - 1]);
    }
}

/// The nodes of a subtree in preorder: the node, then the subtrees of its children in order.
pub struct PreOrderTraversal<'a, N> {
    tree: &'a NodeTree<N>,
    next_node: usize,
    child_indices: Vec<usize>,
    vertical: bool,
    iter_finished: bool,
    path: Ghost<Seq<usize>>,
}

impl<'a, N> PreOrderTraversal<'a, N> {
    pub closed spec fn inv(&self) -> bool {
        &&& self.tree.wf()
        &&& !self.iter_finished ==> {
            let ci = self.child_indices@;
            let path = self.path@;
            &&& path_ok(self.tree@, path, ci)
            &&& self.next_node == path.last()
            &&& ci.len() == 0 ==> path.len() == 1 && !self.vertical
            &&& ci.len() > 0 ==> path.len() == ci.len() && ci.last() <= self.tree@[path.last() as int].children.len()
        }
    }

    /// The nodes still to come.
    pub closed spec fn remaining(&self) -> Seq<usize> {
        let t = self.tree@;
        let ci = self.child_indices@;
        let path = self.path@;
        let k = ci.len() - 1;
        if self.iter_finished {
            seq![]
        } else if ci.len() == 0 {
            preorder(t, self.next_node as int)
        } else if self.vertical {
            pre_tail(t, path, ci, k)
        } else {
            preorder_list(t, t[path[k] as int].children.skip(ci[k] as int), t[path[k] as int].level as int)
                + pre_tail(t, path, ci, k)
        }
    }

    /// A walk over the subtree of `root`.
    pub fn new(tree: &'a NodeTree<N>, root: usize) -> (it: PreOrderTraversal<'a, N>)
        requires
            tree.wf(),
            root < tree@.len(),
        ensures
            it.inv(),
            it.remaining() == preorder(tree@, root as int),
    {
        let ghost start = seq![root];
        PreOrderTraversal {
            tree,
            next_node: root,
            child_indices: Vec::new(),
            vertical: false,
            iter_finished: false,
            path: Ghost(start),
        }
    }

    /// The next node of the walk, `None` once the subtree is done.
    #[verifier::spinoff_prover]
    #[verifier::rlimit(60)]
    pub fn next(&mut self) -> (r: Option<usize>)
        requires
            old(self).inv(),
        ensures
            final(self).inv(),
            old(self).remaining().len() == 0 ==> r is None && final(self).remaining().len() == 0,
            old(self).remaining().len() > 0 ==> r == Some(old(self).remaining()[0])
                && final(self).remaining() == old(self).remaining().drop_first(),
    {
        if self.iter_finished {
            return None;
        }
        let ghost t = self.tree@;
        loop
            invariant_except_break
                self.tree == old(self).tree,
                t == self.tree@,
                self.inv(),
                !self.iter_finished,
                self.remaining() == old(self).remaining(),
            ensures
                self.tree == old(self).tree,
                self.tree.wf(),
                old(self).remaining().len() == 0,
            decreases 2 * self.child_indices@.len() + (if self.vertical { 0int } else { 1int }),
        {
            let ghost path = self.path@;
            let ghost ci = self.child_indices@;
            let ghost k = ci.len() - 1;
            if self.vertical {
                match self.tree.get_parent(self.next_node) {
                    Some(node) => {
                        self.child_indices.pop();
                        if self.child_indices.len() == 0 {
                            break;
                        }
                        let last_index = self.child_indices.len() - 1;
                        proof {
                            assert(child_linked(t, path[k - 1] as int, t[path[k - 1] as int].children[ci[k - 1] as int]));
                        }
                        let num_children = self.tree.len_children(node);
                        proof {
                            assert(self.child_indices@[last_index as int] < num_children);
                        }
                        let next_index = self.child_indices[last_index] + 1;
                        self.child_indices.set(last_index, next_index);
                        self.next_node = node;
                        self.vertical = false;
                        self.path = Ghost(path.drop_last());
                        proof {
                            let path2 = path.drop_last();
                            let ci2 = self.child_indices@;
                            lemma_pre_tail_prefix(t, path, ci, path2, ci2, k - 1);
                        }
                    },
                    None => {
                        proof {
                            if k > 0 {
                                assert(child_linked(t, path[k - 1] as int, t[path[k - 1] as int].children[ci[k - 1] as int]));
                            }
                        }
                        break;
                    },
                }
            } else {
                if self.child_indices.len() == 0 {
                    self.child_indices.push(0);
                    proof {
                        let root = self.next_node as int;
                        assert(path[0] == root);
                        assert(t[root].children.skip(0) =~= t[root].children);
                        let rest = preorder_list(t, t[root].children, t[root].level as int);
                        assert(preorder(t, root) == seq![root as usize] + rest);
                        assert((seq![root as usize] + rest).drop_first() =~= rest);
                        assert(self.remaining() =~= rest);
                    }
                    return Some(self.next_node);
                }
                let child_index = self.child_indices[self.child_indices.len() - 1];
                match self.tree.get_child(self.next_node, child_index) {
                    Some(node) => {
                        proof {
                            assert(child_linked(t, path[k] as int, t[path[k] as int].children[ci[k] as int]));
                            lemma_preorder_list_skip(t, t[path[k] as int].children, ci[k] as int, t[path[k] as int].level as int);
                        }
                        self.next_node = node;
                        self.child_indices.push(0);
                        self.path = Ghost(path.push(node));
                        proof {
                            let path2 = path.push(node);
                            let ci2 = self.child_indices@;
                            lemma_pre_tail_prefix(t, path, ci, path2, ci2, k);
                            assert(t[node as int].children.skip(0) =~= t[node as int].children);
                        }
                        return Some(node);
                    },
                    None => {
                        proof {
                            lemma_preorder_list_done(t, t[path[k] as int].children, ci[k] as int, t[path[k] as int].level as int);
                        }
                        self.vertical = true;
                    },
                }
            }
        }
        self.iter_finished = true;
        None
    }
}

/// One step down a postorder list: the subtree of child number `i` comes first, then the rest.
proof fn lemma_postorder_list_skip<N>(t: Seq<TreeNodeView<N>>, cs: Seq<usize>, i: int, above: int)
    requires
        0 <= i < cs.len(),
    ensures
        postorder_list(t, cs.skip(i), above) == (if 0 <= cs[i] < t.len() && t[cs[i] as int].level
            > above {
            postorder(t, cs[i] as int)
        } else {
            seq![]
        }) + postorder_list(t, cs.skip(i + 1), above),
{
    assert(cs.skip(i).drop_first() =~= cs.skip(i + 1));
    assert(cs.skip(i)[0] == cs[i]);
}

/// What a postorder walk still has to hand out above depth `j` of its path: for each node on
/// the path above, the subtrees of the children after the one the walk went into, then the node.
pub open spec fn post_tail<N>(t: Seq<TreeNodeView<N>>, path: Seq<usize>, ci: Seq<usize>, j: int) -> Seq<
    usize,
>
    decreases j,
{
    if j <= 0 {
        seq![]
    } else {
        postorder_list(
            t,
            t[path[j - 1] as int].children.skip(ci[j - 1] + 1),
            t[path[j - 1] as int].level as int,
        ) + seq![path[j - 1]] + post_tail(t, path, ci, j - 1)
    }
}

proof fn lemma_post_tail_prefix<N>(
    t: Seq<TreeNodeView<N>>,
    path: Seq<usize>,
    ci: Seq<usize>,
    path2: Seq<usize>,
    ci2: Seq<usize>,
    j: int,
)
    requires
        0 <= j <= path.len(),
        j <= path2.len(),
        j <= ci.len(),
        j <= ci2.len(),
        forall|i: int| 0 <= i < j ==> path[i] == path2[i] && ci[i] == ci2[i],
    ensures
        post_tail(t, path, ci, j) == post_tail(t, path2, ci2, j),
    decreases j,
{
    if j > 0 {
        lemma_post_tail_prefix(t, path, ci, path2, ci2, j - 1);
        assert(path[j - 1] == path2[j - 1] && ci[j - 1] == ci2[j - 1]);
    }
}

/// The nodes of a subtree in postorder: the subtrees of the children in order, then the node.
pub struct PostOrderTraversal<'a, N> {
    tree: &'a NodeTree<N>,
    current_node: usize,
    child_indices: Vec<usize>,
    vertical: bool,
    finished: bool,
    path: Ghost<Seq<usize>>,
}

impl<'a, N> PostOrderTraversal<'a, N> {
    pub closed spec fn inv(&self) -> bool {
        &&& self.tree.wf()
        &&& !self.finished ==> {
            let ci = self.child_indices@;
            let path = self.path@;
            &&& path_ok(self.tree@, path, ci)
            &&& self.current_node == path.last()
            &&& path.len() == ci.len()
            &&& self.vertical ==> ci.last() < self.tree@[path.last() as int].children.len()
            &&& ci.last() <= self.tree@[path.last() as int].children.len()
        }
    }

    /// The nodes still to come.
    pub closed spec fn remaining(&self) -> Seq<usize> {
        let t = self.tree@;
        let ci = self.child_indices@;
        let path = self.path@;
        let k = ci.len() - 1;
        let top = t[path[k] as int];
        if self.finished {
            seq![]
        } else if self.vertical {
            postorder_list(t, top.children.skip(ci[k] + 1), top.level as int) + seq![path[k]]
                + post_tail(t, path, ci, k)
        } else {
            postorder_list(t, top.children.skip(ci[k] as int), top.level as int) + seq![path[k]]
                + post_tail(t, path, ci, k)
        }
    }

    /// How far the walk is from handing out the next node.
    spec fn steps_to_next(&self) -> int {
        let t = self.tree@;
        let ci = self.child_indices@;
        let k = ci.len() - 1;
        let top = t[self.path@[k] as int];
        if self.vertical {
            postorder_list(t, top.children.skip(ci[k] + 1), top.level as int).len() + 1int
        } else {
            postorder_list(t, top.children.skip(ci[k] as int), top.level as int).len() as int
        }
    }

    /// A walk over the subtree of `root`.
    pub fn new(tree: &'a NodeTree<N>, root: usize) -> (it: PostOrderTraversal<'a, N>)
        requires
            tree.wf(),
            root < tree@.len(),
        ensures
            it.inv(),
            it.remaining() == postorder(tree@, root as int),
    {
        let mut child_indices: Vec<usize> = Vec::new();
        child_indices.push(0);
        let ghost start = seq![root];
        let it = PostOrderTraversal {
            tree,
            current_node: root,
            child_indices,
            vertical: false,
            finished: false,
            path: Ghost(start),
        };
        proof {
            let t = tree@;
            assert(t[root as int].children.skip(0) =~= t[root as int].children);
            assert(it.remaining() =~= postorder(t, root as int));
        }
        it
    }

    /// The next node of the walk, `None` once the subtree is done.
    #[verifier::spinoff_prover]
    #[verifier::rlimit(60)]
    pub fn next(&mut self) -> (r: Option<usize>)
        requires
            old(self).inv(),
        ensures
            final(self).inv(),
            old(self).remaining().len() == 0 ==> r is None && final(self).remaining().len() == 0,
            old(self).remaining().len() > 0 ==> r == Some(old(self).remaining()[0])
                && final(self).remaining() == old(self).remaining().drop_first(),
    {
        if self.finished {
            return None;
        }
        let ghost t = self.tree@;
        loop
            invariant
                self.tree == old(self).tree,
                t == self.tree@,
                self.inv(),
                !self.finished,
                self.remaining() == old(self).remaining(),
            decreases self.steps_to_next(),
        {
            let ghost path = self.path@;
            let ghost ci = self.child_indices@;
            let ghost k = ci.len() - 1;
            let ghost top = t[path[k] as int];
            if self.vertical {
                let last_index = self.child_indices.len() - 1;
                let num_children = self.tree.len_children(self.current_node);
                proof {
                    assert(self.child_indices@[last_index as int] < num_children);
                }
                let next_index = self.child_indices[last_index] + 1;
                self.child_indices.set(last_index, next_index);
                self.vertical = false;
                proof {
                    lemma_post_tail_prefix(t, path, ci, path, self.child_indices@, k);
                }
            } else {
                let child_index = self.child_indices[self.child_indices.len() - 1];
                match self.tree.get_child(self.current_node, child_index) {
                    Some(node) => {
                        proof {
                            assert(child_linked(t, path[k] as int, top.children[ci[k] as int]));
                            lemma_postorder_list_skip(t, top.children, ci[k] as int, top.level as int);
                        }
                        self.current_node = node;
                        self.child_indices.push(0);
                        self.path = Ghost(path.push(node));
                        proof {
                            lemma_post_tail_prefix(t, path, ci, path.push(node), self.child_indices@, k);
                            assert(t[node as int].children.skip(0) =~= t[node as int].children);
                            assert(self.remaining() =~= old(self).remaining());
                        }
                    },
                    None => {
                        let result = self.current_node;
                        proof {
                            assert(top.children.skip(ci[k] as int).len() == 0);
                            assert(old(self).remaining() =~= seq![result] + post_tail(t, path, ci, k));
                        }
                        match self.tree.get_parent(self.current_node) {
                            Some(node) => {
                                self.vertical = true;
                                self.child_indices.pop();
                                self.finished = self.child_indices.len() == 0;
                                self.current_node = node;
                                proof {
                                    if k > 0 {
                                        assert(child_linked(t, path[k - 1] as int, t[path[k - 1] as int].children[ci[k - 1] as int]));
                                        self.path@ = path.drop_last();
                                        lemma_post_tail_prefix(t, path, ci, path.drop_last(), self.child_indices@, k - 1);
                                        assert(self.remaining() =~= post_tail(t, path, ci, k));
                                    }
                                }
                            },
                            None => {
                                proof {
                                    if k > 0 {
                                        assert(child_linked(t, path[k - 1] as int, t[path[k - 1] as int].children[ci[k - 1] as int]));
                                    }
                                }
                                self.finished = true;
                            },
                        }
                        proof {
                            assert(old(self).remaining().drop_first() =~= self.remaining());
                        }
                        return Some(result);
                    },
                }
            }
        }
    }
}

/// The nodes of `s` at level `lv`, in order.
pub open spec fn on_level<N>(t: Seq<TreeNodeView<N>>, s: Seq<usize>, lv: int) -> Seq<usize>
    decreases s.len(),
{
    if s.len() == 0 {
        seq![]
    } else {
        (if s[0] < t.len() && t[s[0] as int].level == lv {
            seq![s[0]]
        } else {
            seq![]
        }) + on_level(t, s.drop_first(), lv)
    }
}

/// Each node of `s` paired with `depth`.
pub open spec fn tag(s: Seq<usize>, depth: usize) -> Seq<(usize, usize)> {
    s.map_values(|n: usize| (n, depth))
}

/// What a level-order walk of the subtree of `root` hands out from depth `depth` on (depths
/// relative to `root`): the nodes at that depth in preorder, each with its depth, then, if there
/// were any and `depth` is not the last depth asked for, the nodes of the next depth.
pub open spec fn level_order<N>(t: Seq<TreeNodeView<N>>, root: int, depth: int, end_level: Option<
    usize,
>) -> Seq<(usize, usize)>
    decreases usize::MAX - depth,
{
    if depth < 0 || depth > usize::MAX {
        seq![]
    } else {
        let d = on_level(t, preorder(t, root), t[root].level + depth);
        tag(d, depth as usize) + (if d.len() > 0 && end_level != Some(depth as usize) && depth
            < usize::MAX {
            level_order(t, root, depth + 1, end_level)
        } else {
            seq![]
        })
    }
}

proof fn lemma_on_level_add<N>(t: Seq<TreeNodeView<N>>, a: Seq<usize>, b: Seq<usize>, lv: int)
    ensures
        on_level(t, a + b, lv) == on_level(t, a, lv) + on_level(t, b, lv),
    decreases a.len(),
{
    if a.len() == 0 {
        assert(a + b =~= b);
        assert(on_level(t, a, lv) =~= Seq::<usize>::empty());
        assert(on_level(t, b, lv) =~= Seq::<usize>::empty() + on_level(t, b, lv));
    } else {
        assert((a + b).drop_first() =~= a.drop_first() + b);
        assert((a + b)[0] == a[0]);
        lemma_on_level_add(t, a.drop_first(), b, lv);
        let h = if a[0] < t.len() && t[a[0] as int].level == lv {
            seq![a[0]]
        } else {
            seq![]
        };
        assert(h + (on_level(t, a.drop_first(), lv) + on_level(t, b, lv)) =~= (h + on_level(
            t,
            a.drop_first(),
            lv,
        )) + on_level(t, b, lv));
    }
}

/// No node of `s` is at level `lv`.
proof fn lemma_on_level_none<N>(t: Seq<TreeNodeView<N>>, s: Seq<usize>, lv: int)
    requires
        forall|i: int| 0 <= i < s.len() && s[i] < t.len() ==> t[s[i] as int].level != lv,
    ensures
        on_level(t, s, lv) == Seq::<usize>::empty(),
    decreases s.len(),
{
    if s.len() > 0 {
        assert forall|i: int|
            0 <= i < s.drop_first().len() && s.drop_first()[i] < t.len() implies t[s.drop_first()[i] as int].level
            != lv by {
            assert(s.drop_first()[i] == s[i + 1]);
        }
        lemma_on_level_none(t, s.drop_first(), lv);
        assert(on_level(t, s, lv) =~= Seq::<usize>::empty());
    }
}

proof fn lemma_on_level_single<N>(t: Seq<TreeNodeView<N>>, x: usize, lv: int)
    ensures
        on_level(t, seq![x], lv) == (if x < t.len() && t[x as int].level == lv {
            seq![x]
        } else {
            seq![]
        }),
{
    assert(seq![x].drop_first() =~= Seq::<usize>::empty());
    assert(on_level(t, Seq::<usize>::empty(), lv) =~= Seq::<usize>::empty());
    assert(seq![x][0] == x);
    let h = if x < t.len() && t[x as int].level == lv {
        seq![x]
    } else {
        seq![]
    };
    assert(h + Seq::<usize>::empty() =~= h);
}

proof fn lemma_tag_add(a: Seq<usize>, b: Seq<usize>, depth: usize)
    ensures
        tag(a + b, depth) == tag(a, depth) + tag(b, depth),
{
    assert(tag(a + b, depth) =~= tag(a, depth) + tag(b, depth));
}

/// Every node of the subtree of `n` lies at `n`'s level or below.
proof fn lemma_preorder_levels<N>(t: Seq<TreeNodeView<N>>, n: int)
    requires
        t.len() <= usize::MAX,
    ensures
        forall|i: int|
            0 <= i < preorder(t, n).len() ==> #[trigger] preorder(t, n)[i] < t.len() && t[preorder(
                t,
                n,
            )[i] as int].level >= t[n].level,
    decreases usize::MAX - t[n].level, 1int, 0int,
{
    if 0 <= n < t.len() {
        lemma_preorder_list_levels(t, t[n].children, t[n].level as int);
        let rest = preorder_list(t, t[n].children, t[n].level as int);
        assert(preorder(t, n) == seq![n as usize] + rest);
        assert forall|i: int| 0 <= i < preorder(t, n).len() implies #[trigger] preorder(t, n)[i]
            < t.len() && t[preorder(t, n)[i] as int].level >= t[n].level by {
            if i > 0 {
                assert(preorder(t, n)[i] == rest[i - 1]);
            } else {
                assert(preorder(t, n)[i] == n as usize);
            }
        }
    }
}

/// Every node of the subtrees of `cs` lies below level `above`.
proof fn lemma_preorder_list_levels<N>(t: Seq<TreeNodeView<N>>, cs: Seq<usize>, above: int)
    requires
        t.len() <= usize::MAX,
    ensures
        forall|i: int|
            0 <= i < preorder_list(t, cs, above).len() ==> #[trigger] preorder_list(t, cs, above)[i]
                < t.len() && t[preorder_list(t, cs, above)[i] as int].level > above,
    decreases usize::MAX - above, 0int, cs.len(),
{
    if cs.len() > 0 {
        let c = cs[0] as int;
        let head = if 0 <= c < t.len() && t[c].level > above {
            preorder(t, c)
        } else {
            seq![]
        };
        if 0 <= c < t.len() && t[c].level > above {
            lemma_preorder_levels(t, c);
        }
        lemma_preorder_list_levels(t, cs.drop_first(), above);
        let rest = preorder_list(t, cs.drop_first(), above);
        assert forall|i: int| 0 <= i < preorder_list(t, cs, above).len() implies #[trigger] preorder_list(
            t,
            cs,
            above,
        )[i] < t.len() && t[preorder_list(t, cs, above)[i] as int].level > above by {
            if i < head.len() {
                assert(preorder_list(t, cs, above)[i] == head[i]);
            } else {
                assert(preorder_list(t, cs, above)[i] == rest[i - head.len()]);
            }
        }
    }
}

/// The nodes of a subtree level by level: those at depth `start_level` below the start node in
/// preorder, then those one level deeper, and so on up to `end_level` or the first depth that
/// has none. Each node comes with its depth.
pub struct LevelOrderTraversal<'a, N> {
    tree: &'a NodeTree<N>,
    current_node: usize,
    child_indices: Vec<usize>,
    vertical: bool,
    finished: bool,
    target_level: usize,
    end_level: Option<usize>,
    node_on_target_level: bool,
    path: Ghost<Seq<usize>>,
}

impl<'a, N> LevelOrderTraversal<'a, N> {
    pub closed spec fn inv(&self) -> bool {
        &&& self.tree.wf()
        &&& !self.finished ==> {
            let t = self.tree@;
            let ci = self.child_indices@;
            let path = self.path@;
            let k = ci.len() - 1;
            &&& path_ok(t, path, ci)
            &&& path.len() == ci.len()
            &&& self.current_node == path.last()
            &&& forall|j: int| 0 <= j < path.len() ==> #[trigger] t[path[j] as int].level == t[path[0] as int].level + j
            &&& ci[k] <= t[path[k] as int].children.len()
            &&& self.vertical ==> ci[k] < t[path[k] as int].children.len()
            &&& k <= self.target_level
            &&& k == self.target_level ==> !self.vertical && ci[k] == 0
            &&& self.target_level == 0 ==> !self.node_on_target_level
            &&& self.node_on_target_level ==> self.target_level < usize::MAX
        }
    }

    /// The root of the walk.
    pub closed spec fn root(&self) -> usize {
        self.path@[0]
    }

    /// The nodes the walk has not passed yet, in preorder from its position.
    spec fn pending(&self) -> Seq<usize> {
        let t = self.tree@;
        let ci = self.child_indices@;
        let path = self.path@;
        let k = ci.len() - 1;
        let top = t[path[k] as int];
        if self.vertical {
            preorder_list(t, top.children.skip(ci[k] + 1), top.level as int) + pre_tail(t, path, ci, k)
        } else {
            (if ci[k] == 0 {
                seq![path[k]]
            } else {
                seq![]
            }) + preorder_list(t, top.children.skip(ci[k] as int), top.level as int) + pre_tail(
                t,
                path,
                ci,
                k,
            )
        }
    }

    /// The items still to come.
    pub closed spec fn remaining(&self) -> Seq<(usize, usize)> {
        let t = self.tree@;
        let root = self.path@[0];
        let lv = self.target_level;
        if self.finished {
            seq![]
        } else if lv == 0 {
            if self.end_level == Some(0usize) {
                seq![]
            } else {
                seq![(root, 0usize)] + level_order(t, root as int, 1, self.end_level)
            }
        } else {
            let cur = on_level(t, self.pending(), t[root as int].level + lv);
            tag(cur, lv) + (if (self.node_on_target_level || cur.len() > 0) && self.end_level
                != Some(lv) && lv < usize::MAX {
                level_order(t, root as int, lv + 1, self.end_level)
            } else {
                seq![]
            })
        }
    }

    /// How far the walk is from its next item within the current depth.
    spec fn steps_to_next(&self) -> int {
        let t = self.tree@;
        let ci = self.child_indices@;
        let path = self.path@;
        let k = ci.len() - 1;
        let top = t[path[k] as int];
        let ahead = if self.vertical {
            preorder_list(t, top.children.skip(ci[k] + 1), top.level as int).len()
        } else {
            preorder_list(t, top.children.skip(ci[k] as int), top.level as int).len()
        };
        3 * (ahead + pre_tail(t, path, ci, k).len()) + 2 * k + (if self.vertical {
            2int
        } else {
            1int
        })
    }

    /// A walk over the subtree of `root` from depth `start_level` to `end_level` (to the
    /// deepest level when `None`).
    pub fn new(tree: &'a NodeTree<N>, root: usize, start_level: usize, end_level: Option<usize>) -> (it:
        LevelOrderTraversal<'a, N>)
        requires
            tree.wf(),
            root < tree@.len(),
            end_level matches Some(e) ==> start_level <= e,
        ensures
            it.inv(),
            it.root() == root,
            start_level == 0 ==> it.remaining() == (if end_level == Some(0usize) {
                Seq::<(usize, usize)>::empty()
            } else {
                seq![(root, 0usize)] + level_order(tree@, root as int, 1, end_level)
            }),
            start_level > 0 ==> it.remaining() == level_order(tree@, root as int, start_level as int, end_level),
    {
        let mut child_indices: Vec<usize> = Vec::new();
        child_indices.push(0);
        let ghost start = seq![root];
        let it = LevelOrderTraversal {
            tree,
            current_node: root,
            child_indices,
            vertical: false,
            finished: false,
            target_level: start_level,
            end_level,
            node_on_target_level: false,
            path: Ghost(start),
        };
        proof {
            let t = tree@;
            assert(t[root as int].children.skip(0) =~= t[root as int].children);
            assert(pre_tail(t, start, it.child_indices@, 0) =~= Seq::<usize>::empty());
            assert(it.pending() =~= preorder(t, root as int));
        }
        it
    }

    /// Moves the walk to the next depth; `true` when the last depth asked for is done.
    fn increment_target_level(&mut self) -> (done: bool)
        requires
            old(self).end_level != Some(old(self).target_level) ==> old(self).target_level < usize::MAX,
        ensures
            done == (old(self).end_level == Some(old(self).target_level)),
            done ==> *final(self) == (LevelOrderTraversal { finished: true, ..*old(self) }),
            !done ==> *final(self) == (LevelOrderTraversal {
                target_level: (old(self).target_level + 1) as usize,
                ..*old(self)
            }),
    {
        match self.end_level {
            Some(level) => if self.target_level == level {
                self.finished = true;
                return true;
            },
            None => (),
        }
        self.target_level = self.target_level + 1;
        false
    }

    /// The next node of the walk with its depth, `None` once it is done.
    #[verifier::spinoff_prover]
    #[verifier::rlimit(80)]
    pub fn next(&mut self) -> (r: Option<(usize, usize)>)
        requires
            old(self).inv(),
        ensures
            final(self).inv(),
            final(self).root() == old(self).root(),
            old(self).remaining().len() == 0 ==> r is None && final(self).remaining().len() == 0,
            old(self).remaining().len() > 0 ==> r == Some(old(self).remaining()[0])
                && final(self).remaining() == old(self).remaining().drop_first(),
    {
        if self.finished {
            return None;
        }
        let ghost t = self.tree@;
        let ghost root = self.path@[0];
        loop
            invariant
                self.tree == old(self).tree,
                t == self.tree@,
                self.end_level == old(self).end_level,
                self.inv(),
                !self.finished,
                self.path@[0] == root,
                root == old(self).root(),
                self.remaining() == old(self).remaining(),
            decreases usize::MAX - self.target_level, self.steps_to_next(),
        {
            let ghost path = self.path@;
            let ghost ci = self.child_indices@;
            let ghost k = ci.len() - 1;
            let ghost top = t[path[k] as int];
            let ghost lv = t[root as int].level + self.target_level;
            let ghost before = self.pending();
            if self.child_indices.len() - 1 == self.target_level {
                let result = (self.current_node, self.target_level);
                if self.target_level == 0 {
                    if self.increment_target_level() {
                        return None;
                    }
                    proof {
                        assert(top.children.skip(0) =~= top.children);
                        assert(pre_tail(t, path, ci, 0) =~= Seq::<usize>::empty());
                        assert(self.pending() =~= preorder(t, root as int));
                        assert(old(self).remaining().drop_first() =~= self.remaining());
                    }
                } else {
                    proof {
                        assert(child_linked(t, path[k - 1] as int, t[path[k - 1] as int].children[ci[k - 1] as int]));
                    }
                    match self.tree.get_parent(self.current_node) {
                        Some(node) => {
                            self.node_on_target_level = true;
                            self.vertical = true;
                            self.child_indices.pop();
                            self.current_node = node;
                            proof {
                                self.path@ = path.drop_last();
                                lemma_pre_tail_prefix(t, path, ci, path.drop_last(), self.child_indices@, k - 1);
                                assert(top.children.skip(0) =~= top.children);
                                lemma_preorder_list_levels(t, top.children, top.level as int);
                                lemma_on_level_none(t, preorder_list(t, top.children, top.level as int), lv);
                                let tail = pre_tail(t, path, ci, k);
                                assert(self.pending() =~= tail);
                                lemma_on_level_add(t, seq![path[k]], preorder_list(t, top.children, top.level as int), lv);
                                lemma_on_level_add(t, seq![path[k]] + preorder_list(t, top.children, top.level as int), tail, lv);
                                lemma_on_level_single(t, path[k], lv);
                                assert(on_level(t, seq![path[k]], lv) =~= seq![path[k]]);
                                let cur = on_level(t, before, lv);
                                assert(cur =~= seq![path[k]] + on_level(t, tail, lv));
                                lemma_tag_add(seq![path[k]], on_level(t, tail, lv), self.target_level);
                                assert(old(self).remaining().drop_first() =~= self.remaining());
                            }
                        },
                        None => (),
                    }
                }
                return Some(result);
            }
            if self.vertical {
                let last_index = self.child_indices.len() - 1;
                let num_children = self.tree.len_children(self.current_node);
                proof {
                    assert(self.child_indices@[last_index as int] < num_children);
                }
                let next_index = self.child_indices[last_index] + 1;
                self.child_indices.set(last_index, next_index);
                self.vertical = false;
                proof {
                    lemma_pre_tail_prefix(t, path, ci, path, self.child_indices@, k);
                    assert(self.pending() =~= preorder_list(t, top.children.skip(ci[k] + 1), top.level as int) + pre_tail(t, path, ci, k));
                }
            } else {
                let child_index = self.child_indices[self.child_indices.len() - 1];
                match self.tree.get_child(self.current_node, child_index) {
                    Some(node) => {
                        proof {
                            assert(child_linked(t, path[k] as int, top.children[ci[k] as int]));
                            lemma_preorder_list_skip(t, top.children, ci[k] as int, top.level as int);
                        }
                        self.current_node = node;
                        self.child_indices.push(0);
                        self.path = Ghost(path.push(node));
                        proof {
                            lemma_pre_tail_prefix(t, path, ci, path.push(node), self.child_indices@, k);
                            assert(t[node as int].children.skip(0) =~= t[node as int].children);
                            let head = if ci[k] == 0 { seq![path[k]] } else { seq![] };
                            assert(before =~= head + self.pending());
                            lemma_on_level_add(t, head, self.pending(), lv);
                            lemma_on_level_none(t, head, lv);
                        }
                    },
                    None => {
                        proof {
                            lemma_preorder_list_done(t, top.children, ci[k] as int, top.level as int);
                        }
                        if self.child_indices.len() == 1 {
                            proof {
                                let head = if ci[k] == 0 { seq![path[k]] } else { seq![] };
                                assert(pre_tail(t, path, ci, 0) =~= Seq::<usize>::empty());
                                assert(before =~= head);
                                lemma_on_level_none(t, head, lv);
                            }
                            if self.node_on_target_level {
                                if self.increment_target_level() {
                                    return None;
                                }
                                self.node_on_target_level = false;
                                self.child_indices.set(0, 0);
                                proof {
                                    let ci2 = self.child_indices@;
                                    assert(top.children.skip(0) =~= top.children);
                                    assert(pre_tail(t, path, ci2, 0) =~= Seq::<usize>::empty());
                                    assert(self.pending() =~= preorder(t, root as int));
                                }
                            } else {
                                self.finished = true;
                                return None;
                            }
                        } else {
                            proof {
                                assert(child_linked(t, path[k - 1] as int, t[path[k - 1] as int].children[ci[k - 1] as int]));
                            }
                            match self.tree.get_parent(self.current_node) {
                                Some(node) => {
                                    self.vertical = true;
                                    self.child_indices.pop();
                                    self.current_node = node;
                                    proof {
                                        self.path@ = path.drop_last();
                                        lemma_pre_tail_prefix(t, path, ci, path.drop_last(), self.child_indices@, k - 1);
                                        let head = if ci[k] == 0 { seq![path[k]] } else { seq![] };
                                        assert(before =~= head + pre_tail(t, path, ci, k));
                                        assert(self.pending() =~= pre_tail(t, path, ci, k));
                                        lemma_on_level_add(t, head, self.pending(), lv);
                                        lemma_on_level_none(t, head, lv);
                                    }
                                },
                                None => (),
                            }
                        }
                    },
                }
            }
        }
    }
}

impl<N> NodeTree<N> {
    /// The children of node `id`, in order.
    pub fn iter_children(&self, id: usize) -> (it: IterChildren<'_, N>)
        requires
            id < self@.len(),
        ensures
            it.inv(),
            it.remaining() == self@[id as int].children,
    {
        IterChildren::new(self, id)
    }

    /// Node `id` and its ancestors.
    pub fn iter_back_track(&self, id: usize) -> (it: BackTrack<'_, N>)
        requires
            self.wf(),
            id < self@.len(),
        ensures
            it.inv(),
            it.remaining() == ancestors(self@, id as int),
    {
        BackTrack::new(self, id)
    }

    /// The subtree of node `id` level by level, see [`LevelOrderTraversal`].
    pub fn iter_level_order_traversal_with_bordes(
        &self,
        id: usize,
        start_level: usize,
        end_level: Option<usize>,
    ) -> (it: LevelOrderTraversal<'_, N>)
        requires
            self.wf(),
            id < self@.len(),
            end_level matches Some(e) ==> start_level <= e,
        ensures
            it.inv(),
            it.root() == id,
            start_level == 0 ==> it.remaining() == (if end_level == Some(0usize) {
                Seq::<(usize, usize)>::empty()
            } else {
                seq![(id, 0usize)] + level_order(self@, id as int, 1, end_level)
            }),
            start_level > 0 ==> it.remaining() == level_order(self@, id as int, start_level as int, end_level),
    {
        LevelOrderTraversal::new(self, id, start_level, end_level)
    }
}

/// Backtracking from any node climbs one level per step, each node followed by its parent, and
/// ends at the root: it hands out one node per level from the node's level up to level 0.
pub proof fn lemma_back_track_reaches_root<N>(t: Seq<TreeNodeView<N>>, n: int)
    requires
        tree_wf(t),
        t.len() <= usize::MAX,
        0 <= n < t.len(),
    ensures
        ancestors(t, n).len() == t[n].level + 1,
        ancestors(t, n)[0] == n,
        ancestors(t, n).last() == 0,
        forall|i: int|
            0 <= i < ancestors(t, n).len() - 1 ==> #[trigger] t[ancestors(t, n)[i] as int].parent
                == Some(ancestors(t, n)[i + 1]),
    decreases t[n].level,
{
    if n == 0 {
        assert(ancestors(t, n) =~= seq![0usize]);
    } else {
        assert(t[n].parent is Some);
        let p = t[n].parent.unwrap() as int;
        lemma_back_track_reaches_root(t, p);
        let rest = ancestors(t, p);
        assert(ancestors(t, n) == seq![n as usize] + rest);
        assert forall|i: int| 0 <= i < ancestors(t, n).len() - 1 implies #[trigger] t[ancestors(
            t,
            n,
        )[i] as int].parent == Some(ancestors(t, n)[i + 1]) by {
            if i == 0 {
                assert(ancestors(t, n)[1] == rest[0]);
            } else {
                assert(ancestors(t, n)[i] == rest[i - 1]);
                assert(ancestors(t, n)[i + 1] == rest[i]);
            }
        }
    }
}

/// A preorder walk and a postorder walk of the same subtree hand out the same nodes, each as
/// often.
pub proof fn lemma_preorder_postorder_same_nodes<N>(t: Seq<TreeNodeView<N>>, n: int)
    ensures
        preorder(t, n).to_multiset() == postorder(t, n).to_multiset(),
    decreases usize::MAX - t[n].level, 1int, 0int,
{
    broadcast use vstd::seq_lib::lemma_multiset_commutative;
    broadcast use vstd::multiset::group_multiset_axioms;

    if 0 <= n < t.len() {
        lemma_preorder_postorder_lists_same_nodes(t, t[n].children, t[n].level as int);
        let pre_rest = preorder_list(t, t[n].children, t[n].level as int);
        let post_rest = postorder_list(t, t[n].children, t[n].level as int);
        assert(preorder(t, n).to_multiset() =~= seq![n as usize].to_multiset().add(
            pre_rest.to_multiset(),
        ));
        assert(postorder(t, n).to_multiset() =~= post_rest.to_multiset().add(
            seq![n as usize].to_multiset(),
        ));
    }
}

/// See [`lemma_preorder_postorder_same_nodes`]; the same for the subtrees of a list of children.
pub proof fn lemma_preorder_postorder_lists_same_nodes<N>(
    t: Seq<TreeNodeView<N>>,
    cs: Seq<usize>,
    above: int,
)
    ensures
        preorder_list(t, cs, above).to_multiset() == postorder_list(t, cs, above).to_multiset(),
    decreases usize::MAX - above, 0int, cs.len(),
{
    broadcast use vstd::seq_lib::lemma_multiset_commutative;
    broadcast use vstd::multiset::group_multiset_axioms;

    if cs.len() > 0 {
        let c = cs[0] as int;
        if 0 <= c < t.len() && t[c].level > above {
            lemma_preorder_postorder_same_nodes(t, c);
        }
        lemma_preorder_postorder_lists_same_nodes(t, cs.drop_first(), above);
    }
}

/// The nodes of `s` at level `lv` are nodes of `s` at that level.
proof fn lemma_on_level_sound<N>(t: Seq<TreeNodeView<N>>, s: Seq<usize>, lv: int)
    ensures
        forall|i: int|
            0 <= i < on_level(t, s, lv).len() ==> s.contains(#[trigger] on_level(t, s, lv)[i])
                && on_level(t, s, lv)[i] < t.len() && t[on_level(t, s, lv)[i] as int].level == lv,
    decreases s.len(),
{
    if s.len() > 0 {
        lemma_on_level_sound(t, s.drop_first(), lv);
        let head = if s[0] < t.len() && t[s[0] as int].level == lv {
            seq![s[0]]
        } else {
            seq![]
        };
        let rest = on_level(t, s.drop_first(), lv);
        assert forall|i: int| 0 <= i < on_level(t, s, lv).len() implies s.contains(
            #[trigger] on_level(t, s, lv)[i],
        ) && on_level(t, s, lv)[i] < t.len() && t[on_level(t, s, lv)[i] as int].level == lv by {
            if i < head.len() {
                assert(on_level(t, s, lv)[i] == s[0]);
            } else {
                let x = rest[i - head.len()];
                assert(on_level(t, s, lv)[i] == x);
                let j = choose|j: int| 0 <= j < s.drop_first().len() && s.drop_first()[j] == x;
                assert(s[j + 1] == x);
            }
        }
    }
}

/// A level-order walk hands out nodes of the subtree only, each with its depth below the
/// start node, and the depths never decrease along the walk.
pub proof fn lemma_level_order_sound<N>(
    t: Seq<TreeNodeView<N>>,
    root: int,
    depth: int,
    end_level: Option<usize>,
)
    ensures
        forall|i: int|
            0 <= i < level_order(t, root, depth, end_level).len() ==> {
                let (n, d) = #[trigger] level_order(t, root, depth, end_level)[i];
                &&& preorder(t, root).contains(n)
                &&& n < t.len()
                &&& t[n as int].level == t[root].level + d
                &&& d >= depth
            },
        forall|i: int, j: int|
            0 <= i < j < level_order(t, root, depth, end_level).len() ==> (#[trigger] level_order(
                t,
                root,
                depth,
                end_level,
            )[i]).1 <= (#[trigger] level_order(t, root, depth, end_level)[j]).1,
    decreases usize::MAX - depth,
{
    if 0 <= depth <= usize::MAX {
        let lv = t[root].level + depth;
        let d = on_level(t, preorder(t, root), lv);
        lemma_on_level_sound(t, preorder(t, root), lv);
        let head = tag(d, depth as usize);
        let rest = if d.len() > 0 && end_level != Some(depth as usize) && depth < usize::MAX {
            level_order(t, root, depth + 1, end_level)
        } else {
            seq![]
        };
        if d.len() > 0 && end_level != Some(depth as usize) && depth < usize::MAX {
            lemma_level_order_sound(t, root, depth + 1, end_level);
        }
        let all = level_order(t, root, depth, end_level);
        assert(all == head + rest);
        assert forall|i: int| 0 <= i < all.len() implies {
            let (n, e) = #[trigger] all[i];
            &&& preorder(t, root).contains(n)
            &&& n < t.len()
            &&& t[n as int].level == t[root].level + e
            &&& e >= depth
        } by {
            if i < head.len() {
                assert(all[i] == (d[i], depth as usize));
            } else {
                assert(all[i] == rest[i - head.len()]);
            }
        }
        assert forall|i: int, j: int| 0 <= i < j < all.len() implies (#[trigger] all[i]).1 <= (
        #[trigger] all[j]).1 by {
            if j < head.len() {
                assert(all[i] == (d[i], depth as usize));
                assert(all[j] == (d[j], depth as usize));
            } else if i < head.len() {
                assert(all[i] == (d[i], depth as usize));
                assert(all[j] == rest[j - head.len()]);
            } else {
                assert(all[i] == rest[i - head.len()]);
                assert(all[j] == rest[j - head.len()]);
            }
        }
    }
}

/// How often `x` occurs in `s`.
pub open spec fn count_in(s: Seq<usize>, x: usize) -> nat
    decreases s.len(),
{
    if s.len() == 0 {
        0
    } else {
        (if s[0] == x {
            1nat
        } else {
            0nat
        }) + count_in(s.drop_first(), x)
    }
}

/// The nodes of a sequence of `(node, depth)` items.
pub open spec fn item_nodes(items: Seq<(usize, usize)>) -> Seq<usize> {
    items.map_values(|item: (usize, usize)| item.0)
}

proof fn lemma_count_in_add(a: Seq<usize>, b: Seq<usize>, x: usize)
    ensures
        count_in(a + b, x) == count_in(a, x) + count_in(b, x),
    decreases a.len(),
{
    if a.len() == 0 {
        assert(a + b =~= b);
    } else {
        assert((a + b).drop_first() =~= a.drop_first() + b);
        assert((a + b)[0] == a[0]);
        lemma_count_in_add(a.drop_first(), b, x);
    }
}

proof fn lemma_count_in_absent(s: Seq<usize>, x: usize)
    requires
        !s.contains(x),
    ensures
        count_in(s, x) == 0,
    decreases s.len(),
{
    if s.len() > 0 {
        assert(!s.drop_first().contains(x)) by {
            if s.drop_first().contains(x) {
                let j = choose|j: int| 0 <= j < s.drop_first().len() && s.drop_first()[j] == x;
                assert(s[j + 1] == x);
            }
        }
        lemma_count_in_absent(s.drop_first(), x);
        assert(s[0] != x) by {
            if s[0] == x {
                assert(s.contains(x));
            }
        }
    }
}

/// Keeping the nodes at one level keeps every node of that level as often as it occurs.
proof fn lemma_count_on_level<N>(t: Seq<TreeNodeView<N>>, s: Seq<usize>, lv: int, x: usize)
    ensures
        count_in(on_level(t, s, lv), x) == (if x < t.len() && t[x as int].level == lv {
            count_in(s, x)
        } else {
            0
        }),
    decreases s.len(),
{
    if s.len() > 0 {
        lemma_count_on_level(t, s.drop_first(), lv, x);
        let head = if s[0] < t.len() && t[s[0] as int].level == lv {
            seq![s[0]]
        } else {
            seq![]
        };
        lemma_count_in_add(head, on_level(t, s.drop_first(), lv), x);
        assert(count_in(Seq::<usize>::empty(), x) == 0);
        if head.len() == 1 {
            assert(head.drop_first() =~= Seq::<usize>::empty());
            assert(count_in(head, x) == if s[0] == x { 1nat } else { 0nat });
        }
    }
}

/// A node of `s` at level `lv` makes the nodes of `s` at that level non-empty.
proof fn lemma_on_level_has<N>(t: Seq<TreeNodeView<N>>, s: Seq<usize>, lv: int, x: usize)
    requires
        s.contains(x),
        x < t.len(),
        t[x as int].level == lv,
    ensures
        on_level(t, s, lv).len() > 0,
    decreases s.len(),
{
    if s[0] != x {
        let j = choose|j: int| 0 <= j < s.len() && s[j] == x;
        assert(s.drop_first()[j - 1] == x);
        lemma_on_level_has(t, s.drop_first(), lv, x);
    }
}

/// Every node of a subtree but its root has its parent in the subtree.
proof fn lemma_preorder_parent<N>(t: Seq<TreeNodeView<N>>, n: int)
    requires
        tree_wf(t),
        t.len() <= usize::MAX,
        0 <= n < t.len(),
    ensures
        forall|i: int|
            0 <= i < preorder(t, n).len() && #[trigger] preorder(t, n)[i] != n as usize ==> (t[preorder(
                t,
                n,
            )[i] as int].parent matches Some(p) && preorder(t, n).contains(p)),
    decreases usize::MAX - t[n].level, 1int, 0int,
{
    let rest = preorder_list(t, t[n].children, t[n].level as int);
    assert forall|k: int| 0 <= k < t[n].children.len() implies child_linked(t, n, #[trigger] t[n].children[k]) by {}
    lemma_preorder_list_parent(t, t[n].children, t[n].level as int, n);
    assert(preorder(t, n) == seq![n as usize] + rest);
    assert forall|i: int|
        0 <= i < preorder(t, n).len() && #[trigger] preorder(t, n)[i] != n as usize implies (t[preorder(
            t,
            n,
        )[i] as int].parent matches Some(p) && preorder(t, n).contains(p)) by {
        if i == 0 {
        } else {
            let x = rest[i - 1];
            assert(preorder(t, n)[i] == x);
            let p = t[x as int].parent.unwrap();
            if p == n as usize {
                assert(preorder(t, n)[0] == n as usize);
            } else {
                let j = choose|j: int| 0 <= j < rest.len() && rest[j] == p;
                assert(preorder(t, n)[j + 1] == p);
            }
        }
    }
}

/// See [`lemma_preorder_parent`]; for the subtrees of children `cs` of node `q`, every node's
/// parent is `q` or lies in those subtrees.
proof fn lemma_preorder_list_parent<N>(t: Seq<TreeNodeView<N>>, cs: Seq<usize>, above: int, q: int)
    requires
        tree_wf(t),
        t.len() <= usize::MAX,
        0 <= q < t.len(),
        forall|k: int| 0 <= k < cs.len() ==> child_linked(t, q, #[trigger] cs[k]),
    ensures
        forall|i: int|
            0 <= i < preorder_list(t, cs, above).len() ==> (t[#[trigger] preorder_list(t, cs, above)[i] as int].parent
                matches Some(p) && (p == q as usize || preorder_list(t, cs, above).contains(p))),
    decreases usize::MAX - above, 0int, cs.len(),
{
    if cs.len() > 0 {
        let c = cs[0] as int;
        assert(child_linked(t, q, cs[0]));
        let head = if 0 <= c < t.len() && t[c].level > above {
            preorder(t, c)
        } else {
            seq![]
        };
        if 0 <= c < t.len() && t[c].level > above {
            lemma_preorder_parent(t, c);
        }
        assert forall|k: int| 0 <= k < cs.drop_first().len() implies child_linked(t, q, #[trigger] cs.drop_first()[k]) by {
            assert(cs.drop_first()[k] == cs[k + 1]);
        }
        lemma_preorder_list_parent(t, cs.drop_first(), above, q);
        let rest = preorder_list(t, cs.drop_first(), above);
        let all = preorder_list(t, cs, above);
        assert(all == head + rest);
        assert forall|i: int| 0 <= i < all.len() implies (t[#[trigger] all[i] as int].parent matches Some(p)
            && (p == q as usize || all.contains(p))) by {
            if i < head.len() {
                let x = head[i];
                assert(all[i] == x);
                if x != c as usize {
                    let p = t[x as int].parent.unwrap();
                    let j = choose|j: int| 0 <= j < head.len() && head[j] == p;
                    assert(all[j] == p);
                } else {
                    assert(t[c].parent == Some(q as usize));
                }
            } else {
                let x = rest[i - head.len()];
                assert(all[i] == x);
                let p = t[x as int].parent.unwrap();
                if p != q as usize {
                    let j = choose|j: int| 0 <= j < rest.len() && rest[j] == p;
                    assert(all[head.len() + j] == p);
                }
            }
        }
    }
}

proof fn lemma_count_in_contains(s: Seq<usize>, x: usize)
    ensures
        s.contains(x) <==> count_in(s, x) > 0,
    decreases s.len(),
{
    if s.len() > 0 {
        lemma_count_in_contains(s.drop_first(), x);
        if s.drop_first().contains(x) {
            let j = choose|j: int| 0 <= j < s.drop_first().len() && s.drop_first()[j] == x;
            assert(s[j + 1] == x);
        }
        if s.contains(x) && s[0] != x {
            let j = choose|j: int| 0 <= j < s.len() && s[j] == x;
            assert(s.drop_first()[j - 1] == x);
        }
    }
}

/// A subtree with a node at depth `k` has nodes at every depth up to `k`.
proof fn lemma_levels_contiguous<N>(t: Seq<TreeNodeView<N>>, root: int, d: int, x: usize, k: int)
    requires
        tree_wf(t),
        t.len() <= usize::MAX,
        0 <= root < t.len(),
        preorder(t, root).contains(x),
        x < t.len(),
        t[x as int].level == t[root].level + k,
        0 <= d <= k,
    ensures
        on_level(t, preorder(t, root), t[root].level + d).len() > 0,
    decreases k - d,
{
    if d == k {
        lemma_on_level_has(t, preorder(t, root), t[root].level + d, x);
    } else {
        lemma_preorder_parent(t, root);
        let i = choose|i: int| 0 <= i < preorder(t, root).len() && preorder(t, root)[i] == x;
        assert(preorder(t, root)[i] != root as usize);
        let p = t[x as int].parent.unwrap();
        assert(preorder(t, root).contains(p));
        assert(p < t.len() && t[x as int].level == t[p as int].level + 1);
        lemma_levels_contiguous(t, root, d, p, k - 1);
    }
}

/// A level-order walk without end level from depth `depth` hands out every node of the
/// subtree at that depth or deeper as often as a preorder walk does, and no other node.
pub proof fn lemma_level_order_complete<N>(t: Seq<TreeNodeView<N>>, root: int, depth: int, x: usize)
    requires
        tree_wf(t),
        t.len() <= usize::MAX,
        0 <= root < t.len(),
        0 <= depth <= usize::MAX,
    ensures
        count_in(item_nodes(level_order(t, root, depth, None)), x) == (if x < t.len() && t[x as int].level
            >= t[root].level + depth {
            count_in(preorder(t, root), x)
        } else {
            0
        }),
    decreases usize::MAX - depth,
{
    let base = t[root].level as int;
    let pre = preorder(t, root);
    let lv = base + depth;
    let d = on_level(t, pre, lv);
    let head = tag(d, depth as usize);
    let go_on = d.len() > 0 && depth < usize::MAX;
    let rest = if go_on {
        level_order(t, root, depth + 1, None)
    } else {
        seq![]
    };
    let all = level_order(t, root, depth, None);
    assert(all == head + rest);
    assert(item_nodes(all) =~= d + item_nodes(rest));
    lemma_count_in_add(d, item_nodes(rest), x);
    lemma_count_on_level(t, pre, lv, x);
    lemma_count_in_contains(pre, x);
    if go_on {
        lemma_level_order_sound(t, root, depth + 1, None);
        assert forall|i: int| 0 <= i < item_nodes(rest).len() implies pre.contains(
            #[trigger] item_nodes(rest)[i],
        ) && item_nodes(rest)[i] < t.len() && t[item_nodes(rest)[i] as int].level > lv by {
            assert(item_nodes(rest)[i] == rest[i].0);
        }
    }
    if item_nodes(rest).contains(x) {
        // then `x` lies deeper in the subtree, and the rest of the walk is counted by induction
        lemma_levels_contiguous(t, root, depth, x, t[x as int].level - base);
        lemma_level_order_complete(t, root, depth + 1, x);
    } else {
        lemma_count_in_absent(item_nodes(rest), x);
        if x < t.len() && t[x as int].level > lv && pre.contains(x) {
            // impossible: the rest of the walk would hold `x`
            lemma_levels_contiguous(t, root, depth, x, t[x as int].level - base);
            lemma_level_order_complete(t, root, depth + 1, x);
        }
    }
}

/// The ancestor of node `x` at level `lv`: `x` itself unless it lies below that level.
pub open spec fn ancestor_at<N>(t: Seq<TreeNodeView<N>>, x: int, lv: int) -> int
    decreases t[x].level,
{
    if 0 <= x < t.len() && t[x].level > lv {
        match t[x].parent {
            Some(p) => if p < t.len() && t[p as int].level < t[x].level {
                ancestor_at(t, p as int, lv)
            } else {
                x
            },
            None => x,
        }
    } else {
        x
    }
}

/// Climbing to a level in two steps ends where climbing there at once does.
proof fn lemma_ancestor_at_twice<N>(t: Seq<TreeNodeView<N>>, x: int, l1: int, l2: int)
    requires
        tree_wf(t),
        0 <= x < t.len(),
        l2 <= l1,
    ensures
        ancestor_at(t, x, l2) == ancestor_at(t, ancestor_at(t, x, l1), l2),
    decreases t[x].level,
{
    if t[x].level > l1 {
        if x == 0 {
        } else {
            let p = t[x].parent.unwrap() as int;
            lemma_ancestor_at_twice(t, p, l1, l2);
        }
    }
}

/// Every node of the subtree of `n` climbs to `n` at `n`'s level.
proof fn lemma_preorder_ancestor<N>(t: Seq<TreeNodeView<N>>, n: int)
    requires
        tree_wf(t),
        t.len() <= usize::MAX,
        0 <= n < t.len(),
    ensures
        forall|i: int|
            0 <= i < preorder(t, n).len() ==> ancestor_at(t, #[trigger] preorder(t, n)[i] as int, t[n].level as int)
                == n,
    decreases usize::MAX - t[n].level, 1int, 0int,
{
    let rest = preorder_list(t, t[n].children, t[n].level as int);
    assert forall|k: int| 0 <= k < t[n].children.len() implies child_linked(t, n, #[trigger] t[n].children[k]) by {}
    lemma_preorder_list_ancestor(t, t[n].children, n);
    assert(preorder(t, n) == seq![n as usize] + rest);
    assert forall|i: int| 0 <= i < preorder(t, n).len() implies ancestor_at(
        t,
        #[trigger] preorder(t, n)[i] as int,
        t[n].level as int,
    ) == n by {
        if i > 0 {
            assert(preorder(t, n)[i] == rest[i - 1]);
        }
    }
}

/// See [`lemma_preorder_ancestor`]; the nodes of the subtrees of children `cs` of `q` climb to
/// one of them one level below `q`, and to `q` at its level.
proof fn lemma_preorder_list_ancestor<N>(t: Seq<TreeNodeView<N>>, cs: Seq<usize>, q: int)
    requires
        tree_wf(t),
        t.len() <= usize::MAX,
        0 <= q < t.len(),
        forall|k: int| 0 <= k < cs.len() ==> child_linked(t, q, #[trigger] cs[k]),
    ensures
        forall|i: int|
            0 <= i < preorder_list(t, cs, t[q].level as int).len() ==> {
                let x = #[trigger] preorder_list(t, cs, t[q].level as int)[i] as int;
                &&& cs.contains(ancestor_at(t, x, t[q].level + 1) as usize)
                &&& ancestor_at(t, x, t[q].level as int) == q
            },
    decreases usize::MAX - t[q].level, 0int, cs.len(),
{
    let above = t[q].level as int;
    if cs.len() > 0 {
        let c = cs[0] as int;
        assert(child_linked(t, q, cs[0]));
        lemma_preorder_ancestor(t, c);
        assert forall|k: int| 0 <= k < cs.drop_first().len() implies child_linked(t, q, #[trigger] cs.drop_first()[k]) by {
            assert(cs.drop_first()[k] == cs[k + 1]);
        }
        lemma_preorder_list_ancestor(t, cs.drop_first(), q);
        let head = preorder(t, c);
        let rest = preorder_list(t, cs.drop_first(), above);
        let all = preorder_list(t, cs, above);
        assert(all == head + rest);
        assert forall|i: int| 0 <= i < all.len() implies {
            let x = #[trigger] all[i] as int;
            &&& cs.contains(ancestor_at(t, x, above + 1) as usize)
            &&& ancestor_at(t, x, above) == q
        } by {
            if i < head.len() {
                let x = head[i] as int;
                assert(all[i] == head[i]);
                assert(ancestor_at(t, x, above + 1) == c);
                assert(cs[0] == c as usize);
                lemma_preorder_levels(t, c);
                lemma_ancestor_at_twice(t, x, above + 1, above);
                assert(ancestor_at(t, c, above) == ancestor_at(t, q, above));
            } else {
                let x = rest[i - head.len()] as int;
                assert(all[i] == rest[i - head.len()]);
                let a = ancestor_at(t, x, above + 1) as usize;
                let j = choose|j: int| 0 <= j < cs.drop_first().len() && cs.drop_first()[j] == a;
                assert(cs[j + 1] == a);
            }
        }
    }
}

/// A preorder walk hands out each node of the subtree once.
pub proof fn lemma_preorder_once<N>(t: Seq<TreeNodeView<N>>, n: int, x: usize)
    requires
        tree_wf(t),
        t.len() <= usize::MAX,
        0 <= n < t.len(),
    ensures
        count_in(preorder(t, n), x) <= 1,
    decreases usize::MAX - t[n].level, 1int, 0int,
{
    let rest = preorder_list(t, t[n].children, t[n].level as int);
    assert forall|k: int| 0 <= k < t[n].children.len() implies child_linked(t, n, #[trigger] t[n].children[k]) by {}
    lemma_preorder_list_once(t, t[n].children, n, x);
    assert(preorder(t, n) == seq![n as usize] + rest);
    lemma_count_in_add(seq![n as usize], rest, x);
    assert(seq![n as usize].drop_first() =~= Seq::<usize>::empty());
    assert(count_in(Seq::<usize>::empty(), x) == 0);
    if x == n as usize {
        lemma_preorder_list_levels(t, t[n].children, t[n].level as int);
        if rest.contains(x) {
            let j = choose|j: int| 0 <= j < rest.len() && rest[j] == x;
        }
        lemma_count_in_absent(rest, x);
    }
}

/// See [`lemma_preorder_once`]; the same for the subtrees of children `cs` of node `q`.
proof fn lemma_preorder_list_once<N>(t: Seq<TreeNodeView<N>>, cs: Seq<usize>, q: int, x: usize)
    requires
        tree_wf(t),
        t.len() <= usize::MAX,
        0 <= q < t.len(),
        forall|k: int| 0 <= k < cs.len() ==> child_linked(t, q, #[trigger] cs[k]),
        cs.no_duplicates(),
    ensures
        count_in(preorder_list(t, cs, t[q].level as int), x) <= 1,
    decreases usize::MAX - t[q].level, 0int, cs.len(),
{
    let above = t[q].level as int;
    if cs.len() > 0 {
        let c = cs[0] as int;
        assert(child_linked(t, q, cs[0]));
        assert forall|k: int| 0 <= k < cs.drop_first().len() implies child_linked(t, q, #[trigger] cs.drop_first()[k]) by {
            assert(cs.drop_first()[k] == cs[k + 1]);
        }
        lemma_preorder_once(t, c, x);
        lemma_preorder_list_once(t, cs.drop_first(), q, x);
        let head = preorder(t, c);
        let rest = preorder_list(t, cs.drop_first(), above);
        assert(preorder_list(t, cs, above) == head + rest);
        lemma_count_in_add(head, rest, x);
        lemma_count_in_contains(head, x);
        lemma_count_in_contains(rest, x);
        if head.contains(x) && rest.contains(x) {
            lemma_preorder_ancestor(t, c);
            lemma_preorder_list_ancestor(t, cs.drop_first(), q);
            let i = choose|i: int| 0 <= i < head.len() && head[i] == x;
            let j = choose|j: int| 0 <= j < rest.len() && rest[j] == x;
            assert(ancestor_at(t, x as int, above + 1) == c);
            let k = choose|k: int| 0 <= k < cs.drop_first().len() && cs.drop_first()[k] == c as usize;
            assert(cs[k + 1] == cs[0]);
        }
    }
}

} // verus!
