//! What it is to be a copy of a node, and the proof that the copies that are made are
//! copies.

use vstd::prelude::*;
use crate::copy::is_clonable;
use crate::forest::Forest;
use crate::node::{NodeType, NodeView, RefNode};

verus! {

/// Whether `w` is `v` but for its parent.
pub open spec fn same_but_parent(v: NodeView, w: NodeView) -> bool {
    w == (NodeView { parent: w.parent, ..v })
}

impl Forest {
    /// Whether the attribute `b` of `g` was made after the node `m` and has the name and
    /// the value of the attribute `a` of this forest.
    pub open spec fn attribute_copied(self, a: RefNode, g: Forest, b: RefNode, m: RefNode) -> bool {
        &&& g.contains(b)
        &&& b.index > m.index
        &&& g.kind(b) == NodeType::Attribute
        &&& g.node(b).name == self.node(a).name
        &&& g.node(b).value == self.node(a).value
    }

    /// Whether the first `count` attributes of the node `m` of `g` are copies of the
    /// attributes of the node `n` of this forest in their places.
    pub open spec fn attributes_copied_to(self, n: RefNode, g: Forest, m: RefNode, count: int)
        -> bool {
        forall|k: int|
            0 <= k < count ==> self.attribute_copied(
                self.node(n).attributes()[k],
                g,
                #[trigger] g.node(m).attributes()[k],
                m,
            )
    }

    /// Whether the attributes of the node `m` of `g` are copies of the attributes of the
    /// node `n` of this forest: as many attributes, each a copy of the one in its place.
    pub open spec fn attributes_copied(self, n: RefNode, g: Forest, m: RefNode) -> bool {
        &&& g.node(m).attributes().len() == self.node(n).attributes().len()
        &&& self.attributes_copied_to(n, g, m, self.node(n).attributes().len() as int)
    }

    /// Whether the node `m` of `g` is a copy of the node `n` of this forest: it has the
    /// kind, name, value, owner document and namespace bindings of `n`, and copies of its
    /// attributes. A deep copy has as many children as `n`, made after it, each a deep
    /// copy of the child of `n` in its place; a copy that is not deep has no children.
    pub open spec fn is_copy(self, n: RefNode, g: Forest, m: RefNode, deep: bool) -> bool
        decreases self.height(n), self.node(n).children.len() + 1,
        when self.wf() && self.contains(n)
    {
        let v = self.node(n);
        let w = g.node(m);
        &&& g.contains(m)
        &&& w.node_type == v.node_type
        &&& w.name == v.name
        &&& w.value == v.value
        &&& w.owner_document == v.owner_document
        &&& w.namespaces() == v.namespaces()
        &&& self.attributes_copied(n, g, m)
        &&& if deep {
            w.children.len() == v.children.len() && self.children_copied(n, g, m, 0)
        } else {
            w.children.len() == 0
        }
    }

    /// Whether the children of the node `m` of `g` that stand at `from` and behind it
    /// were made after `m` and are deep copies of the children of `n` in their places.
    pub open spec fn children_copied(self, n: RefNode, g: Forest, m: RefNode, from: int) -> bool
        decreases self.height(n), self.node(n).children.len() - from,
        when self.wf() && self.contains(n) && 0 <= from
    {
        if from >= self.node(n).children.len() {
            true
        } else {
            proof {
                self.lemma_child_height(n, from);
            }
            &&& g.node(m).children[from].index > m.index
            &&& self.is_copy(self.node(n).children[from], g, g.node(m).children[from], true)
            &&& self.children_copied(n, g, m, from + 1)
        }
    }

    /// A copy stays a copy in a forest in which every node that was made with it or
    /// after it is as it was but for its parent.
    pub proof fn lemma_is_copy_frame(self, n: RefNode, f: Forest, g: Forest, m: RefNode, deep: bool)
        requires
            self.wf(),
            self.contains(n),
            self.is_copy(n, f, m, deep),
            forall|x: RefNode|
                f.contains(x) && x.index >= m.index ==> g.contains(x) && same_but_parent(
                    f.node(x),
                    #[trigger] g.node(x),
                ),
        ensures
            self.is_copy(n, g, m, deep),
        decreases self.height(n), self.node(n).children.len() + 1,
    {
        assert(same_but_parent(f.node(m), g.node(m)));
        let from = self.node(n).attributes();
        assert forall|k: int| 0 <= k < from.len() implies self.attribute_copied(
            from[k],
            g,
            #[trigger] g.node(m).attributes()[k],
            m,
        ) by {
            let a = f.node(m).attributes()[k];
            assert(self.attribute_copied(from[k], f, a, m));
            assert(same_but_parent(f.node(a), g.node(a)));
        }
        if deep {
            self.lemma_children_copied_frame(n, f, g, m, 0);
        }
    }

    /// Children that are copies stay copies in a forest in which every node that was
    /// made with their parent or after it is as it was but for its parent.
    pub proof fn lemma_children_copied_frame(
        self,
        n: RefNode,
        f: Forest,
        g: Forest,
        m: RefNode,
        from: int,
    )
        requires
            self.wf(),
            self.contains(n),
            0 <= from,
            f.contains(m),
            f.node(m).children.len() == self.node(n).children.len(),
            self.children_copied(n, f, m, from),
            forall|x: RefNode|
                f.contains(x) && x.index >= m.index ==> g.contains(x) && same_but_parent(
                    f.node(x),
                    #[trigger] g.node(x),
                ),
        ensures
            self.children_copied(n, g, m, from),
        decreases self.height(n), self.node(n).children.len() - from,
    {
        assert(same_but_parent(f.node(m), g.node(m)));
        if from < self.node(n).children.len() {
            self.lemma_child_height(n, from);
            let c = self.node(n).children[from];
            let kid = f.node(m).children[from];
            assert(self.is_copy(c, f, kid, true));
            assert forall|x: RefNode| f.contains(x) && x.index >= kid.index implies g.contains(x)
                && same_but_parent(f.node(x), #[trigger] g.node(x)) by {}
            self.lemma_is_copy_frame(c, f, g, kid, true);
            self.lemma_children_copied_frame(n, f, g, m, from + 1);
        }
    }

    /// Children are copies from `from` on if each of them is.
    pub proof fn lemma_children_copied(self, n: RefNode, g: Forest, m: RefNode, from: int)
        requires
            self.wf(),
            self.contains(n),
            0 <= from,
            forall|k: int|
                from <= k < self.node(n).children.len() ==> (#[trigger] g.node(m).children[k]).index
                    > m.index && self.is_copy(
                    self.node(n).children[k],
                    g,
                    g.node(m).children[k],
                    true,
                ),
        ensures
            self.children_copied(n, g, m, from),
        decreases self.node(n).children.len() - from,
    {
        if from < self.node(n).children.len() {
            self.lemma_child_height(n, from);
            assert(g.node(m).children[from].index > m.index);
            self.lemma_children_copied(n, g, m, from + 1);
        }
    }

    /// Each of the children that are copies from `from` on is a copy.
    pub proof fn lemma_child_is_copy(self, n: RefNode, g: Forest, m: RefNode, from: int, k: int)
        requires
            self.wf(),
            self.contains(n),
            0 <= from <= k < self.node(n).children.len(),
            self.children_copied(n, g, m, from),
        ensures
            g.node(m).children[k].index > m.index,
            self.is_copy(self.node(n).children[k], g, g.node(m).children[k], true),
        decreases k - from,
    {
        self.lemma_child_height(n, from);
        if from < k {
            assert(self.children_copied(n, g, m, from + 1));
            self.lemma_child_is_copy(n, g, m, from + 1, k);
        }
    }

    /// The attributes of a copy are written as the attributes of what it is a copy of.
    pub proof fn lemma_copy_attributes_text(self, n: RefNode, g: Forest, m: RefNode, from: int)
        requires
            0 <= from,
            self.attributes_copied(n, g, m),
        ensures
            g.attributes_text(g.node(m).attributes(), from) == self.attributes_text(
                self.node(n).attributes(),
                from,
            ),
        decreases self.node(n).attributes().len() - from,
    {
        if from < self.node(n).attributes().len() {
            assert(self.attribute_copied(
                self.node(n).attributes()[from],
                g,
                g.node(m).attributes()[from],
                m,
            ));
            self.lemma_copy_attributes_text(n, g, m, from + 1);
        }
    }

    /// The children of a parent that can be copied can be copied themselves.
    pub proof fn lemma_child_is_clonable(self, n: RefNode, k: int)
        requires
            self.wf(),
            self.contains(n),
            is_clonable(self.kind(n)),
            0 <= k < self.node(n).children.len(),
        ensures
            self.contains(self.node(n).children[k]),
            is_clonable(self.kind(self.node(n).children[k])),
    {
        assert(self.node_wf(n));
        assert(self.node_wf(self.node(n).children[k]));
    }

    /// A deep copy is written as what it is a copy of.
    pub proof fn lemma_copy_text(self, n: RefNode, g: Forest, m: RefNode)
        requires
            self.wf(),
            self.contains(n),
            is_clonable(self.kind(n)),
            g.wf(),
            self.is_copy(n, g, m, true),
        ensures
            g.text(m) == self.text(n),
        decreases self.height(n), self.node(n).children.len() + 1,
    {
        let v = self.node(n);
        let w = g.node(m);
        assert(g.contains(m));
        assert(w.node_type == v.node_type && w.name == v.name && w.value == v.value);
        assert(self.node_wf(n));
        assert(g.node_wf(m));
        match v.node_type {
            NodeType::Element => {
                self.lemma_copy_attributes_text(n, g, m, 0);
                self.lemma_copy_children_text(n, g, m, 0);
            },
            NodeType::Attribute => {
                assert(g.attribute_text(m) == self.attribute_text(n));
            },
            _ => {},
        }
    }

    /// The children of a deep copy are written as the children of what it is a copy of.
    pub proof fn lemma_copy_children_text(self, n: RefNode, g: Forest, m: RefNode, from: int)
        requires
            self.wf(),
            self.contains(n),
            is_clonable(self.kind(n)),
            g.wf(),
            g.contains(m),
            0 <= from,
            g.node(m).children.len() == self.node(n).children.len(),
            self.children_copied(n, g, m, from),
        ensures
            g.children_text(m, from) == self.children_text(n, from),
        decreases self.height(n), self.node(n).children.len() - from,
    {
        if from < self.node(n).children.len() {
            self.lemma_child_tier(n, from);
            g.lemma_child_tier(m, from);
            self.lemma_child_is_clonable(n, from);
            self.lemma_copy_text(self.node(n).children[from], g, g.node(m).children[from]);
            self.lemma_copy_children_text(n, g, m, from + 1);
        }
    }
}

} // verus!
