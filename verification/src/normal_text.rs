//! The proof that bringing text into normal form changes nothing of what is written.

use vstd::prelude::*;
use crate::forest::{lemma_position_of_item, Forest};
use crate::node::{NodeType, RefNode};
use crate::render::or_empty;

verus! {

impl Forest {
    /// Whether `g` is this forest after one step of bringing the children of `y` into
    /// normal form at `k`: the child at `k` has been taken from `y` because it is an empty
    /// text node, or has taken up the text node behind it.
    pub open spec fn is_merge_step(self, g: Forest, y: RefNode, k: int) -> bool {
        let kids = self.node(y).children;
        &&& self.wf()
        &&& self.contains(y)
        &&& 0 <= k < kids.len()
        &&& if self.is_empty_text(kids[k]) {
            g == self.detach(kids[k])
        } else {
            self.is_text_before_text(y, k) && g == self.absorb(kids[k], kids[k + 1])
        }
    }

    /// The place of the child that a step at `k` takes from `y`.
    pub open spec fn taken_at(self, y: RefNode, k: int) -> int {
        if self.is_empty_text(self.node(y).children[k]) {
            k
        } else {
            k + 1
        }
    }

    /// What a step changes and what it leaves as it is.
    #[verifier::rlimit(40)]
    pub proof fn lemma_merge_step(self, g: Forest, y: RefNode, k: int)
        requires
            self.is_merge_step(g, y, k),
        ensures
            g.wf(),
            g.nodes.len() == self.nodes.len(),
            g.node(y).children == self.node(y).children.remove(self.taken_at(y, k)),
            0 <= self.taken_at(y, k) < self.node(y).children.len(),
            forall|x: RefNode|
                self.contains(x) ==> (#[trigger] g.node(x)).node_type == self.node(x).node_type
                    && g.node(x).name == self.node(x).name && g.node(x).extension == self.node(
                    x,
                ).extension,
            forall|x: RefNode|
                self.contains(x) && x != y ==> (#[trigger] g.node(x)).children == self.node(
                    x,
                ).children,
            forall|x: RefNode|
                self.contains(x) && x != self.node(y).children[k] ==> (#[trigger] g.node(
                    x,
                )).value == self.node(x).value,
            self.kind(self.node(y).children[k]) == NodeType::Text,
            self.kind(self.node(y).children[self.taken_at(y, k)]) == NodeType::Text,
            or_empty(g.node(self.node(y).children[k]).value) == if self.taken_at(y, k) == k {
                Seq::<char>::empty()
            } else {
                or_empty(self.node(self.node(y).children[k]).value) + or_empty(
                    self.node(self.node(y).children[k + 1]).value,
                )
            },
            self.taken_at(y, k) == k ==> or_empty(self.node(self.node(y).children[k]).value)
                == Seq::<char>::empty(),
    {
        let kids = self.node(y).children;
        let c = kids[k];
        assert(self.node_wf(y));
        if self.is_empty_text(c) {
            self.lemma_detach_child(y, k);
            self.lemma_detach(c);
            assert(or_empty(self.node(c).value) =~= Seq::<char>::empty());
        } else {
            let next = kids[k + 1];
            let merged = Some(or_empty(self.node(c).value) + or_empty(self.node(next).value));
            self.lemma_absorb(y, k);
            self.lemma_with_value(c, merged);
            let f = self.with_value(c, merged);
            f.lemma_detach(next);
            lemma_position_of_item(kids, k + 1);
            assert forall|x: RefNode| self.contains(x) && x != y implies (#[trigger] g.node(
                x,
            )).children == self.node(x).children by {
                assert(f.node(x).children == self.node(x).children);
            }
            assert forall|x: RefNode| self.contains(x) && x != c implies (#[trigger] g.node(
                x,
            )).value == self.node(x).value by {
                assert(f.node(x).value == self.node(x).value);
            }
            assert forall|x: RefNode| self.contains(x) implies (#[trigger] g.node(x)).node_type
                == self.node(x).node_type && g.node(x).name == self.node(x).name && g.node(
                x,
            ).extension == self.node(x).extension by {
                assert(f.node(x).node_type == self.node(x).node_type);
            }
        }
    }

    /// A step leaves the text of the attributes of a list as it is.
    pub proof fn lemma_step_attributes_text(
        self,
        g: Forest,
        y: RefNode,
        k: int,
        attributes: Seq<RefNode>,
        from: int,
    )
        requires
            self.is_merge_step(g, y, k),
            0 <= from,
            forall|i: int|
                0 <= i < attributes.len() ==> self.contains(#[trigger] attributes[i]) && self.kind(
                    attributes[i],
                ) == NodeType::Attribute,
        ensures
            g.attributes_text(attributes, from) == self.attributes_text(attributes, from),
        decreases attributes.len() - from,
    {
        self.lemma_merge_step(g, y, k);
        if from < attributes.len() {
            let a = attributes[from];
            assert(self.contains(a));
            assert(g.node(a).value == self.node(a).value);
            assert(g.node(a).name == self.node(a).name);
            self.lemma_step_attributes_text(g, y, k, attributes, from + 1);
        }
    }

    /// A step leaves the text of every node as it is, but for the text node that takes
    /// up another.
    #[verifier::rlimit(40)]
    pub proof fn lemma_step_text(self, g: Forest, y: RefNode, k: int, x: RefNode)
        requires
            self.is_merge_step(g, y, k),
            self.contains(x),
            x != self.node(y).children[k],
        ensures
            g.text(x) == self.text(x),
        decreases self.tier(x), self.height(x), self.node(x).children.len() + 3,
    {
        self.lemma_merge_step(g, y, k);
        assert(self.node_wf(x));
        assert(g.node_wf(x));
        assert(g.node(x).node_type == self.node(x).node_type);
        assert(g.node(x).value == self.node(x).value);
        match self.kind(x) {
            NodeType::Element => {
                assert forall|i: int| 0 <= i < self.node(x).attributes().len() implies self.contains(
                    #[trigger] self.node(x).attributes()[i],
                ) && self.kind(self.node(x).attributes()[i]) == NodeType::Attribute by {}
                self.lemma_step_attributes_text(g, y, k, self.node(x).attributes(), 0);
                self.lemma_step_all_children_text(g, y, k, x);
            },
            NodeType::Document => {
                match self.slot(x, NodeType::DocumentType) {
                    Some(t) => {
                        assert(self.kind(t) == NodeType::DocumentType);
                        self.lemma_step_text(g, y, k, t);
                    },
                    None => {},
                }
                match self.slot(x, NodeType::Element) {
                    Some(e) => {
                        assert(self.kind(e) == NodeType::Element);
                        self.lemma_step_text(g, y, k, e);
                    },
                    None => {},
                }
                self.lemma_step_all_children_text(g, y, k, x);
            },
            _ => {},
        }
    }

    /// A step leaves the text of all the children of a node together as it is.
    pub proof fn lemma_step_all_children_text(self, g: Forest, y: RefNode, k: int, x: RefNode)
        requires
            self.is_merge_step(g, y, k),
            self.contains(x),
        ensures
            g.children_text(x, 0) == self.children_text(x, 0),
        decreases self.tier(x), self.height(x), self.node(x).children.len() + 2,
    {
        if x == y {
            self.lemma_step_children_before(g, y, k, 0);
        } else {
            self.lemma_step_children_text(g, y, k, x, 0);
        }
    }

    /// A step at the children of one node leaves the text of the children of another
    /// as it is.
    pub proof fn lemma_step_children_text(self, g: Forest, y: RefNode, k: int, x: RefNode, from: int)
        requires
            self.is_merge_step(g, y, k),
            self.contains(x),
            x != y,
            0 <= from <= self.node(x).children.len(),
        ensures
            g.children_text(x, from) == self.children_text(x, from),
        decreases self.tier(x), self.height(x), self.node(x).children.len() - from,
    {
        self.lemma_merge_step(g, y, k);
        assert(self.node_wf(x));
        assert(self.node_wf(y));
        if from < self.node(x).children.len() {
            self.lemma_child_tier(x, from);
            g.lemma_child_tier(x, from);
            let kid = self.node(x).children[from];
            assert(self.node(kid).parent == Some(x));
            assert(self.node(self.node(y).children[k]).parent == Some(y));
            self.lemma_step_text(g, y, k, kid);
            self.lemma_step_children_text(g, y, k, x, from + 1);
        }
    }

    /// Behind the child that a step takes from a node, the children are written as they
    /// were, one place earlier.
    pub proof fn lemma_step_children_behind(self, g: Forest, y: RefNode, k: int, from: int)
        requires
            self.is_merge_step(g, y, k),
            self.taken_at(y, k) <= from <= g.node(y).children.len(),
        ensures
            g.children_text(y, from) == self.children_text(y, from + 1),
        decreases self.tier(y), self.height(y), self.node(y).children.len() - from,
    {
        self.lemma_merge_step(g, y, k);
        assert(self.node_wf(y));
        let kids = self.node(y).children;
        if from < g.node(y).children.len() {
            self.lemma_child_tier(y, from + 1);
            g.lemma_child_tier(y, from);
            assert(g.node(y).children[from] == kids[from + 1]);
            assert(kids[from + 1] != kids[k]);
            self.lemma_step_text(g, y, k, kids[from + 1]);
            self.lemma_step_children_behind(g, y, k, from + 1);
        }
    }

    /// Up to the child that a step takes from a node, the children are written as they
    /// were.
    #[verifier::rlimit(40)]
    pub proof fn lemma_step_children_before(self, g: Forest, y: RefNode, k: int, from: int)
        requires
            self.is_merge_step(g, y, k),
            0 <= from <= k,
        ensures
            g.children_text(y, from) == self.children_text(y, from),
        decreases self.tier(y), self.height(y), self.node(y).children.len() - from + 1,
    {
        self.lemma_merge_step(g, y, k);
        assert(self.node_wf(y));
        assert(g.node_wf(y));
        let kids = self.node(y).children;
        let c = kids[k];
        let r = self.taken_at(y, k);
        self.lemma_child_tier(y, from);
        self.lemma_child_tier(y, k);
        self.lemma_child_tier(y, r);
        assert(self.node_wf(c));
        assert(self.node_wf(kids[r]));
        if from < k {
            g.lemma_child_tier(y, from);
            assert(g.node(y).children[from] == kids[from]);
            assert(kids[from] != c);
            self.lemma_step_text(g, y, k, kids[from]);
            self.lemma_step_children_before(g, y, k, from + 1);
        } else if r == k {
            self.lemma_step_children_behind(g, y, k, k);
            assert(self.text(c) == or_empty(self.node(c).value));
            assert(Seq::<char>::empty() + self.children_text(y, k + 1) =~= self.children_text(
                y,
                k + 1,
            ));
        } else {
            let next = kids[k + 1];
            g.lemma_child_tier(y, k);
            self.lemma_child_tier(y, k + 1);
            assert(g.node(y).children[k] == c);
            self.lemma_step_children_behind(g, y, k, k + 1);
            assert(g.node_wf(c));
            assert(g.text(c) == or_empty(g.node(c).value));
            assert(self.text(c) == or_empty(self.node(c).value));
            assert(self.text(next) == or_empty(self.node(next).value));
            assert(self.children_text(y, k + 1) == self.text(next) + self.children_text(
                y,
                k + 2,
            ));
            assert(self.children_text(y, k) == self.text(c) + self.children_text(y, k + 1));
            assert((self.text(c) + self.text(next)) + self.children_text(y, k + 2) =~= self.text(c)
                + (self.text(next) + self.children_text(y, k + 2)));
        }
    }

    /// Bringing the children of a node into normal form leaves the text of every node as
    /// it is, but for that of text nodes.
    pub proof fn lemma_merged_text(self, y: RefNode, k: int, x: RefNode)
        requires
            self.wf(),
            self.contains(y),
            self.contains(x),
            0 <= k,
            self.kind(x) != NodeType::Text,
        ensures
            self.with_merged_texts(y, k).text(x) == self.text(x),
        decreases self.node(y).children.len() - k,
    {
        let kids = self.node(y).children;
        if k >= kids.len() {
        } else if self.is_empty_text(kids[k]) || self.is_text_before_text(y, k) {
            let g = if self.is_empty_text(kids[k]) {
                self.detach(kids[k])
            } else {
                self.absorb(kids[k], kids[k + 1])
            };
            assert(self.is_merge_step(g, y, k));
            self.lemma_merge_step(g, y, k);
            self.lemma_step_text(g, y, k, x);
            g.lemma_merged_text(y, k, x);
        } else {
            self.lemma_merged_text(y, k + 1, x);
        }
    }

    /// Bringing the children of each node of a list into normal form leaves the text of
    /// every node as it is, but for that of text nodes.
    pub proof fn lemma_all_merged_text(self, list: Seq<RefNode>, from: int, x: RefNode)
        requires
            self.wf(),
            0 <= from,
            self.contains(x),
            self.kind(x) != NodeType::Text,
            forall|i: int| 0 <= i < list.len() ==> self.contains(#[trigger] list[i]),
        ensures
            self.with_all_merged(list, from).text(x) == self.text(x),
        decreases list.len() - from,
    {
        if from < list.len() {
            let y = list[from];
            assert(self.contains(y));
            self.lemma_with_merged_texts(y, 0);
            self.lemma_merged_text(y, 0, x);
            self.lemma_merged_kinds(y, 0, x);
            let f = self.with_merged_texts(y, 0);
            assert forall|i: int| 0 <= i < list.len() implies f.contains(#[trigger] list[i]) by {
                assert(self.contains(list[i]));
            }
            f.lemma_all_merged_text(list, from + 1, x);
        }
    }

    /// Bringing the children of a node into normal form leaves every node of its kind.
    pub proof fn lemma_merged_kinds(self, y: RefNode, k: int, x: RefNode)
        requires
            self.wf(),
            self.contains(y),
            self.contains(x),
            0 <= k,
        ensures
            self.with_merged_texts(y, k).kind(x) == self.kind(x),
        decreases self.node(y).children.len() - k,
    {
        let kids = self.node(y).children;
        if k >= kids.len() {
        } else if self.is_empty_text(kids[k]) || self.is_text_before_text(y, k) {
            let g = if self.is_empty_text(kids[k]) {
                self.detach(kids[k])
            } else {
                self.absorb(kids[k], kids[k + 1])
            };
            assert(self.is_merge_step(g, y, k));
            self.lemma_merge_step(g, y, k);
            assert(g.node(x).node_type == self.node(x).node_type);
            g.lemma_merged_kinds(y, k, x);
        } else {
            self.lemma_merged_kinds(y, k + 1, x);
        }
    }
}

/// Normalizing a node changes nothing of what is written of it: the node has the text
/// after it that it had before.
pub proof fn lemma_normalized_text(f: Forest, n: RefNode)
    requires
        f.wf(),
        f.contains(n),
    ensures
        f.normalized(n).text(n) == f.text(n),
{
    f.lemma_subtree_contained(n);
    if f.kind(n) != NodeType::Text {
        f.lemma_all_merged_text(f.subtree(n), 0, n);
    } else {
        assert(f.node_wf(n));
        assert(f.node(n).children.len() == 0) by {
            if f.node(n).children.len() > 0 {
                assert(f.node_wf(f.node(n).children[0]));
            }
        }
        assert(f.subtrees(n, 0) =~= Seq::<RefNode>::empty());
        assert(f.subtree(n) =~= seq![n]);
        reveal_with_fuel(Forest::with_all_merged, 3);
        assert(f.with_merged_texts(n, 0) == f);
    }
}

} // verus!
