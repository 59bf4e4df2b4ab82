//! The arena syntax tree.
//!
//! Nodes live in one flat vector and refer to parent and children by index.
//! A child's index is always greater than its parent's, so the tree has no
//! cycles and walks can recurse on the remaining length of the arena. Nodes
//! are appended one at a time and never re-parented or removed.

use vstd::prelude::*;

use crate::tokens::Token;

verus! {

/// The kind tag of an arena node.
#[derive(Debug, Clone, Copy, PartialEq, Eq, Structural)]
pub enum ASTNodeTypes {
    Token,
    RHS,
    Program,
    Objective,
    Constraints,
    Constraint,
    Expression,
    Term,
}

/// One arena node: a kind tag, an optional parent index, the ordered child
/// indices (grammar left-to-right order), and for leaves an index into the
/// token storage.
#[derive(Debug)]
pub struct ASTNode {
    pub node_type: ASTNodeTypes,
    pub parent: Option<usize>,
    pub children: Option<Vec<usize>>,
    pub data_index: Option<usize>,
}

/// The child indices of a node, empty when none were recorded.
pub open spec fn node_children(n: ASTNode) -> Seq<usize> {
    match n.children {
        Some(v) => v@,
        None => Seq::<usize>::empty(),
    }
}

impl ASTNode {
    /// Build a node from its four fields.
    pub fn new(
        node_type: ASTNodeTypes,
        parent: Option<usize>,
        children: Option<Vec<usize>>,
        data_index: Option<usize>,
    ) -> (r: Self)
        ensures
            r.node_type == node_type,
            r.parent == parent,
            r.children == children,
            r.data_index == data_index,
    {
        Self { node_type, parent, children, data_index }
    }
}

/// The arena: token storage and the node vector.
#[derive(Debug)]
pub struct AST {
    pub data: Vec<Token>,
    pub nodes: Vec<ASTNode>,
}

impl AST {
    /// Node `i` points only at earlier parents, later in-bounds children,
    /// and stored tokens.
    pub open spec fn wf_node(self, i: int) -> bool {
        let n = self.nodes@[i];
        &&& match n.parent {
            Some(p) => p < i,
            None => true,
        }
        &&& match n.data_index {
            Some(d) => d < self.data@.len(),
            None => true,
        }
        &&& forall|k: int|
            0 <= k < node_children(n).len() ==> i < #[trigger] node_children(n)[k]
                < self.nodes@.len()
    }

    /// Every node of the arena is well formed.
    pub open spec fn wf(self) -> bool {
        forall|i: int| 0 <= i < self.nodes@.len() ==> #[trigger] self.wf_node(i)
    }

    /// An empty arena.
    pub fn new() -> (r: Self)
        ensures
            r.wf(),
            r.nodes@.len() == 0,
            r.data@.len() == 0,
    {
        Self { data: Vec::new(), nodes: Vec::new() }
    }

    /// Append a node under `parent` (updating the parent's child list), with
    /// `token` stored for a leaf. Returns the index of the new node.
    pub fn insert_node(
        &mut self,
        token: Option<Token>,
        parent: Option<usize>,
        node_type: ASTNodeTypes,
    ) -> (r: usize)
        requires
            old(self).wf(),
            match parent {
                Some(p) => p < old(self).nodes@.len(),
                None => true,
            },
        ensures
            final(self).wf(),
            extends(*final(self), *old(self)),
            r == old(self).nodes@.len(),
            final(self).nodes@.len() == old(self).nodes@.len() + 1,
            final(self).nodes@[r as int].node_type == node_type,
            final(self).nodes@[r as int].parent == parent,
            node_children(final(self).nodes@[r as int]) == Seq::<usize>::empty(),
            match token {
                Some(_) => final(self).nodes@[r as int].data_index is Some
                    && final(self).nodes@[r as int].data_index->0 == old(self).data@.len(),
                None => final(self).nodes@[r as int].data_index is None,
            },
            final(self).data@ == (match token {
                Some(t) => old(self).data@.push(t),
                None => old(self).data@,
            }),
            forall|i: int|
                0 <= i < old(self).nodes@.len() && (parent is None || i != parent->0)
                    ==> final(self).nodes@[i] == old(self).nodes@[i],
            match parent {
                Some(p) => node_children(final(self).nodes@[p as int]) == node_children(
                    old(self).nodes@[p as int],
                ).push(r),
                None => true,
            },
    {
        let ghost pre = *self;
        let mut data_index: Option<usize> = None;
        match token {
            Some(t) => {
                self.data.push(t);
                data_index = Some(self.data.len() - 1);
            },
            None => {},
        }
        let node = ASTNode::new(node_type, parent, None, data_index);
        self.nodes.push(node);
        let id = self.nodes.len() - 1;
        match parent {
            Some(pidx) => {
                let pnode = &mut self.nodes[pidx];
                match pnode.children.take() {
                    Some(mut v) => {
                        v.push(id);
                        pnode.children = Some(v);
                    },
                    None => {
                        let mut v: Vec<usize> = Vec::new();
                        v.push(id);
                        pnode.children = Some(v);
                    },
                }
            },
            None => {},
        }
        proof {
            let post = *self;
            assert forall|i: int| 0 <= i < post.nodes@.len() implies #[trigger] post.wf_node(
                i,
            ) by {
                if i < pre.nodes@.len() {
                    assert(pre.wf_node(i));
                    if parent is Some && i == parent->0 {
                        assert(node_children(post.nodes@[i]) == node_children(
                            pre.nodes@[i],
                        ).push(id));
                    }
                }
            }
            assert forall|i: int|
                0 <= i < pre.nodes@.len() implies node_children(pre.nodes@[i]).len()
                <= node_children(#[trigger] post.nodes@[i]).len() by {
                if parent is Some && i == parent->0 {
                    assert(node_children(post.nodes@[i]) == node_children(
                        pre.nodes@[i],
                    ).push(id));
                }
            }
        }
        id
    }

    /// The first node with the given kind, scanning in arena order.
    pub fn find_root(&self, ntype: ASTNodeTypes) -> (r: Option<usize>)
        ensures
            match r {
                Some(i) => i < self.nodes@.len() && self.nodes@[i as int].node_type == ntype
                    && forall|j: int| 0 <= j < i ==> self.nodes@[j].node_type != ntype,
                None => forall|j: int|
                    0 <= j < self.nodes@.len() ==> self.nodes@[j].node_type != ntype,
            },
    {
        let mut idx: usize = 0;
        while idx < self.nodes.len()
            invariant
                idx <= self.nodes@.len(),
                forall|j: int| 0 <= j < idx ==> self.nodes@[j].node_type != ntype,
            decreases self.nodes@.len() - idx,
        {
            if self.nodes[idx].node_type == ntype {
                return Some(idx);
            }
            idx = idx + 1;
        }
        None
    }
}

/// Of the nodes already present in `pre`, only node `p` gained children.
pub open spec fn touches_only(post: AST, pre: AST, p: int) -> bool {
    forall|i: int|
        0 <= i < pre.nodes@.len() && i != p ==> node_children(#[trigger] post.nodes@[i])
            == node_children(pre.nodes@[i])
}

/// `post` grows out of `pre`: tokens and nodes are only appended, and an
/// existing node changes only by gaining further children.
pub open spec fn extends(post: AST, pre: AST) -> bool {
    &&& pre.nodes@.len() <= post.nodes@.len()
    &&& pre.data@.len() <= post.data@.len()
    &&& forall|d: int| 0 <= d < pre.data@.len() ==> post.data@[d] == pre.data@[d]
    &&& forall|i: int|
        0 <= i < pre.nodes@.len() ==> {
            &&& (#[trigger] post.nodes@[i]).node_type == pre.nodes@[i].node_type
            &&& post.nodes@[i].parent == pre.nodes@[i].parent
            &&& post.nodes@[i].data_index == pre.nodes@[i].data_index
            &&& node_children(pre.nodes@[i]).len() <= node_children(post.nodes@[i]).len()
            &&& forall|k: int|
                0 <= k < node_children(pre.nodes@[i]).len() ==> node_children(post.nodes@[i])[k]
                    == node_children(pre.nodes@[i])[k]
        }
}

} // verus!
