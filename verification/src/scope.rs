//! The scope tree: nested mount points.
//!
//! Scopes form a forest rooted in one root scope.  Each scope owns its
//! fully-joined prefix pattern and an optional default (fallback) route,
//! and records its ancestor chain by index, so that per-endpoint ancestor
//! snapshots are cheap index lists.

use vstd::prelude::*;
use crate::uri::{spec_parse, Uri};

verus! {

/// One node of the scope tree.
pub struct ScopeNode {
    /// The parent scope; `None` only for the root.
    pub parent: Option<usize>,
    /// The fully-joined prefix of this scope.
    pub prefix: Uri,
    /// The scope-level fallback route, if one was registered.
    pub default_route: Option<usize>,
    /// All ancestors, root first; does not include the scope itself.
    pub ancestors: Vec<usize>,
}

/// The scope tree.  The root scope has index 0 and the root prefix.
pub struct Scopes {
    nodes: Vec<ScopeNode>,
}

impl Scopes {
    /// The nodes, in creation order.
    pub closed spec fn spec_nodes(&self) -> Seq<ScopeNode> {
        self.nodes@
    }

    /// The number of scopes, the root included.
    pub open spec fn spec_len(&self) -> nat {
        self.spec_nodes().len()
    }

    /// Tree shape: the root stands at index 0 without parent or
    /// ancestors; every other node names an earlier parent and carries
    /// the parent's ancestor chain extended by the parent.
    pub open spec fn wf(&self) -> bool {
        &&& self.spec_len() >= 1
        &&& self.spec_nodes()[0].parent is None
        &&& self.spec_nodes()[0].ancestors@ == Seq::<usize>::empty()
        &&& forall|i: int|
            1 <= i < self.spec_len() ==> {
                let n = #[trigger] self.spec_nodes()[i];
                &&& n.parent is Some
                &&& (n.parent.unwrap() as int) < i
                &&& n.ancestors@ == self.spec_nodes()[n.parent.unwrap() as int].ancestors@.push(
                    n.parent.unwrap(),
                )
            }
        &&& forall|i: int|
            0 <= i < self.spec_len() ==> (#[trigger] self.spec_nodes()[i]).prefix.wf()
                && spec_parse(self.spec_nodes()[i].prefix@.text) == Some(
                self.spec_nodes()[i].prefix@,
            )
    }

    /// A tree holding only the root scope with the given prefix.
    pub fn new(prefix: Uri) -> (r: Self)
        requires
            prefix.wf(),
            spec_parse(prefix@.text) == Some(prefix@),
        ensures
            r.wf(),
            r.spec_len() == 1,
            r.spec_nodes()[0].prefix == prefix,
            r.spec_nodes()[0].default_route is None,
    {
        let mut nodes: Vec<ScopeNode> = Vec::new();
        nodes.push(ScopeNode { parent: None, prefix, default_route: None, ancestors: Vec::new() });
        let r = Scopes { nodes };
        proof {
            assert(r.spec_nodes()[0].ancestors@ =~= Seq::<usize>::empty());
        }
        r
    }

    /// The number of scopes.
    pub fn len(&self) -> (r: usize)
        ensures
            r == self.spec_len(),
    {
        self.nodes.len()
    }

    /// The node of a scope.
    pub fn node(&self, id: usize) -> (r: &ScopeNode)
        requires
            id < self.spec_len(),
        ensures
            *r == self.spec_nodes()[id as int],
    {
        &self.nodes[id]
    }

    /// Adds a child scope under `parent` with the given fully-joined
    /// prefix; its ancestor chain is the parent's extended by the parent.
    pub fn add_node(&mut self, parent: usize, prefix: Uri) -> (r: usize)
        requires
            old(self).wf(),
            parent < old(self).spec_len(),
            prefix.wf(),
            spec_parse(prefix@.text) == Some(prefix@),
        ensures
            final(self).wf(),
            r == old(self).spec_len(),
            final(self).spec_len() == old(self).spec_len() + 1,
            forall|i: int|
                0 <= i < old(self).spec_len() ==> final(self).spec_nodes()[i] == old(
                    self,
                ).spec_nodes()[i],
            final(self).spec_nodes()[r as int].parent == Some(parent),
            final(self).spec_nodes()[r as int].prefix == prefix,
            final(self).spec_nodes()[r as int].default_route is None,
            final(self).spec_nodes()[r as int].ancestors@ == old(self).spec_nodes()[parent as int]
                .ancestors@.push(parent),
    {
        let id = self.nodes.len();
        let parent_node = &self.nodes[parent];
        let mut ancestors: Vec<usize> = Vec::new();
        let mut i: usize = 0;
        let alen = parent_node.ancestors.len();
        while i < alen
            invariant
                alen == parent_node.ancestors@.len(),
                parent_node == self.nodes@[parent as int],
                parent < self.nodes@.len(),
                i <= alen,
                ancestors@ == parent_node.ancestors@.take(i as int),
            decreases alen - i,
        {
            ancestors.push(parent_node.ancestors[i]);
            proof {
                assert(ancestors@ =~= parent_node.ancestors@.take(i + 1));
            }
            i = i + 1;
        }
        proof {
            assert(parent_node.ancestors@.take(alen as int) =~= parent_node.ancestors@);
        }
        ancestors.push(parent);
        self.nodes.push(
            ScopeNode { parent: Some(parent), prefix, default_route: None, ancestors },
        );
        proof {
            assert forall|i: int| 1 <= i < self.spec_len() implies {
                let n = #[trigger] self.spec_nodes()[i];
                &&& n.parent is Some
                &&& (n.parent.unwrap() as int) < i
                &&& n.ancestors@ == self.spec_nodes()[n.parent.unwrap() as int].ancestors@.push(
                    n.parent.unwrap(),
                )
            } by {
                if i < old(self).spec_len() {
                    assert(old(self).spec_nodes()[i] == self.spec_nodes()[i]);
                }
            }
        }
        id
    }

    /// Registers the scope-level fallback route of a scope.
    pub fn set_default_route(&mut self, id: usize, route_id: usize)
        requires
            old(self).wf(),
            id < old(self).spec_len(),
        ensures
            final(self).wf(),
            final(self).spec_len() == old(self).spec_len(),
            forall|i: int|
                0 <= i < old(self).spec_len() && i != id ==> final(self).spec_nodes()[i] == old(
                    self,
                ).spec_nodes()[i],
            final(self).spec_nodes()[id as int].default_route == Some(route_id),
            final(self).spec_nodes()[id as int].parent == old(self).spec_nodes()[id as int].parent,
            final(self).spec_nodes()[id as int].prefix == old(self).spec_nodes()[id as int].prefix,
            final(self).spec_nodes()[id as int].ancestors == old(self).spec_nodes()[id as int]
                .ancestors,
    {
        self.nodes[id].default_route = Some(route_id);
        proof {
            assert forall|i: int| 1 <= i < self.spec_len() implies {
                let n = #[trigger] self.spec_nodes()[i];
                &&& n.parent is Some
                &&& (n.parent.unwrap() as int) < i
                &&& n.ancestors@ == self.spec_nodes()[n.parent.unwrap() as int].ancestors@.push(
                    n.parent.unwrap(),
                )
            } by {
                let n = self.spec_nodes()[i];
                let o = old(self).spec_nodes()[i];
                assert(n.parent == o.parent && n.ancestors == o.ancestors);
                let p = o.parent.unwrap() as int;
                assert(self.spec_nodes()[p].ancestors == old(self).spec_nodes()[p].ancestors);
            }
        }
    }

    /// Law: the ancestor chain composes through the tree — a grandchild
    /// scope's chain is its grandparent's chain followed by the
    /// grandparent's child and that child, in that order.
    pub proof fn lemma_ancestor_chain(&self, a: usize, b: usize, c: usize)
        requires
            self.wf(),
            a < self.spec_len(),
            b < self.spec_len(),
            c < self.spec_len(),
            self.spec_nodes()[b as int].parent == Some(a),
            self.spec_nodes()[c as int].parent == Some(b),
        ensures
            self.spec_nodes()[c as int].ancestors@ == self.spec_nodes()[a as int].ancestors@
                + seq![a, b],
    {
        assert(b >= 1 && c >= 1);
        assert(self.spec_nodes()[c as int].ancestors@ == self.spec_nodes()[b as int].ancestors@
            .push(b));
        assert(self.spec_nodes()[b as int].ancestors@ == self.spec_nodes()[a as int].ancestors@
            .push(a));
        assert(self.spec_nodes()[a as int].ancestors@.push(a).push(b) =~= self.spec_nodes()[
            a as int].ancestors@ + seq![a, b]);
    }
}

} // verus!
