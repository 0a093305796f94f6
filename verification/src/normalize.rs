//! The normal form of text: no empty text node, and no text node next to another.

use vstd::prelude::*;
use crate::arena::NodeArena;
use crate::forest::{lemma_position_of_item, Forest};
use crate::node::{NodeType, RefNode};
use crate::render::or_empty;

verus! {

impl Forest {
    /// Whether `x` is a text node without characters.
    pub open spec fn is_empty_text(self, x: RefNode) -> bool {
        self.kind(x) == NodeType::Text && or_empty(self.node(x).value).len() == 0
    }

    /// Whether the child of `n` that stands at `k` is a text node that is followed by
    /// another.
    pub open spec fn is_text_before_text(self, n: RefNode, k: int) -> bool {
        let kids = self.node(n).children;
        &&& 0 <= k
        &&& k + 1 < kids.len()
        &&& self.kind(kids[k]) == NodeType::Text
        &&& self.kind(kids[k + 1]) == NodeType::Text
    }

    /// The forest in which the text node `c` has taken up the characters of the text
    /// node `next`, and `next` has been taken from its parent.
    pub open spec fn absorb(self, c: RefNode, next: RefNode) -> Forest {
        self.with_value(
            c,
            Some(or_empty(self.node(c).value) + or_empty(self.node(next).value)),
        ).detach(next)
    }

    /// The forest in which the children of `n` that stand at `k` and behind it are in
    /// normal form: every empty text node among them has been taken from `n`, and every
    /// text node has taken up the text nodes that followed it, which have been taken from
    /// `n` too.
    pub open spec fn with_merged_texts(self, n: RefNode, k: int) -> Forest
        decreases self.node(n).children.len() - k,
        when self.wf() && self.contains(n) && 0 <= k
    {
        let kids = self.node(n).children;
        if k >= kids.len() {
            self
        } else if self.is_empty_text(kids[k]) {
            proof {
                self.lemma_detach_child(n, k);
            }
            self.detach(kids[k]).with_merged_texts(n, k)
        } else if self.is_text_before_text(n, k) {
            proof {
                self.lemma_absorb(n, k);
            }
            self.absorb(kids[k], kids[k + 1]).with_merged_texts(n, k)
        } else {
            self.with_merged_texts(n, k + 1)
        }
    }

    /// The forest in which the children of each of the nodes of `list` that stand at
    /// `from` and behind it are in normal form.
    pub open spec fn with_all_merged(self, list: Seq<RefNode>, from: int) -> Forest
        decreases list.len() - from,
    {
        if from < 0 || from >= list.len() {
            self
        } else {
            self.with_merged_texts(list[from], 0).with_all_merged(list, from + 1)
        }
    }

    /// The forest in which the children of `n` and of every node below it are in normal
    /// form.
    pub open spec fn normalized(self, n: RefNode) -> Forest {
        self.with_all_merged(self.subtree(n), 0)
    }

    /// Taking the child that stands at `k` from a node leaves its other children, in
    /// their order, and keeps the forest well formed.
    pub proof fn lemma_detach_child(self, n: RefNode, k: int)
        requires
            self.wf(),
            self.contains(n),
            0 <= k < self.node(n).children.len(),
        ensures
            self.detach(self.node(n).children[k]).wf(),
            self.same_identities(self.detach(self.node(n).children[k])),
            self.detach(self.node(n).children[k]).contains(n),
            self.detach(self.node(n).children[k]).node(n).children == self.node(
                n,
            ).children.remove(k),
    {
        let c = self.node(n).children[k];
        assert(self.node_wf(n));
        self.lemma_detach(c);
        lemma_position_of_item(self.node(n).children, k);
    }

    /// Letting a text node take up the text node behind it leaves the other children of
    /// their parent, in their order, and keeps the forest well formed.
    pub proof fn lemma_absorb(self, n: RefNode, k: int)
        requires
            self.wf(),
            self.contains(n),
            0 <= k,
            k + 1 < self.node(n).children.len(),
        ensures
            self.absorb(self.node(n).children[k], self.node(n).children[k + 1]).wf(),
            self.absorb(self.node(n).children[k], self.node(n).children[k + 1]).contains(n),
            self.absorb(self.node(n).children[k], self.node(n).children[k + 1]).nodes.len()
                == self.nodes.len(),
            self.absorb(self.node(n).children[k], self.node(n).children[k + 1]).node(n).children
                == self.node(n).children.remove(k + 1),
    {
        let c = self.node(n).children[k];
        let next = self.node(n).children[k + 1];
        assert(self.node_wf(n));
        let merged = Some(or_empty(self.node(c).value) + or_empty(self.node(next).value));
        self.lemma_with_value(c, merged);
        let f = self.with_value(c, merged);
        assert(f.node(n).children == self.node(n).children);
        f.lemma_detach_child(n, k + 1);
    }

    /// Bringing the children of a node into normal form keeps the forest well formed,
    /// and neither makes nor loses a node.
    pub proof fn lemma_with_merged_texts(self, n: RefNode, k: int)
        requires
            self.wf(),
            self.contains(n),
            0 <= k,
        ensures
            self.with_merged_texts(n, k).wf(),
            self.with_merged_texts(n, k).nodes.len() == self.nodes.len(),
        decreases self.node(n).children.len() - k,
    {
        let kids = self.node(n).children;
        if k >= kids.len() {
        } else if self.is_empty_text(kids[k]) {
            self.lemma_detach_child(n, k);
            self.detach(kids[k]).lemma_with_merged_texts(n, k);
        } else if self.is_text_before_text(n, k) {
            self.lemma_absorb(n, k);
            self.absorb(kids[k], kids[k + 1]).lemma_with_merged_texts(n, k);
        } else {
            self.lemma_with_merged_texts(n, k + 1);
        }
    }

    /// Bringing the children of each node of a list into normal form keeps the forest
    /// well formed, and neither makes nor loses a node.
    pub proof fn lemma_with_all_merged(self, list: Seq<RefNode>, from: int)
        requires
            self.wf(),
            0 <= from,
            forall|i: int| 0 <= i < list.len() ==> self.contains(#[trigger] list[i]),
        ensures
            self.with_all_merged(list, from).wf(),
            self.with_all_merged(list, from).nodes.len() == self.nodes.len(),
        decreases list.len() - from,
    {
        if from < list.len() {
            assert(self.contains(list[from]));
            self.lemma_with_merged_texts(list[from], 0);
            let f = self.with_merged_texts(list[from], 0);
            assert forall|i: int| 0 <= i < list.len() implies f.contains(#[trigger] list[i]) by {
                assert(self.contains(list[i]));
            }
            f.lemma_with_all_merged(list, from + 1);
        }
    }
}

impl Forest {
    /// Whether the children of `n` are in normal form: none of them is an empty text
    /// node, and none is a text node that is followed by another.
    pub open spec fn is_normal_at(self, n: RefNode) -> bool {
        self.is_normal_before(n, self.node(n).children.len() as int)
    }

    /// Whether the children of `n` that stand before `k` are in normal form, the one
    /// just before `k` with regard to the one at `k` too.
    pub open spec fn is_normal_before(self, n: RefNode, k: int) -> bool {
        forall|j: int|
            0 <= j < k && j < self.node(n).children.len() ==> !self.is_empty_text(
                #[trigger] self.node(n).children[j],
            ) && !self.is_text_before_text(n, j)
    }

    /// Whether `g` has the children of `x` as this forest has them, each of its kind and
    /// with its value.
    pub open spec fn same_children(self, g: Forest, x: RefNode) -> bool {
        &&& g.node(x).children == self.node(x).children
        &&& forall|j: int|
            0 <= j < self.node(x).children.len() ==> g.kind(#[trigger] self.node(x).children[j])
                == self.kind(self.node(x).children[j]) && g.node(self.node(x).children[j]).value
                == self.node(self.node(x).children[j]).value
    }

    /// Children that are the same in kind and value are in normal form in one forest if
    /// they are in the other.
    pub proof fn lemma_same_children_normal(self, g: Forest, x: RefNode)
        requires
            self.same_children(g, x),
            self.is_normal_at(x),
        ensures
            g.is_normal_at(x),
    {
        let kids = self.node(x).children;
        assert forall|j: int| 0 <= j < kids.len() implies !g.is_empty_text(
            #[trigger] g.node(x).children[j],
        ) && !g.is_text_before_text(x, j) by {
            assert(!self.is_empty_text(kids[j]) && !self.is_text_before_text(x, j));
            assert(g.kind(kids[j]) == self.kind(kids[j]));
            if j + 1 < kids.len() {
                assert(g.kind(kids[j + 1]) == self.kind(kids[j + 1]));
            }
        }
    }

    /// Taking a child from a node leaves the children of every other node as they are.
    pub proof fn lemma_detach_child_frame(self, y: RefNode, k: int, x: RefNode)
        requires
            self.wf(),
            self.contains(y),
            self.contains(x),
            x != y,
            0 <= k < self.node(y).children.len(),
        ensures
            self.same_children(self.detach(self.node(y).children[k]), x),
    {
        let c = self.node(y).children[k];
        assert(self.node_wf(y));
        assert(self.node_wf(x));
        self.lemma_detach(c);
        let g = self.detach(c);
        assert(g.node(x).children == self.node(x).children);
        let kids = self.node(x).children;
        assert forall|j: int| 0 <= j < kids.len() implies g.kind(#[trigger] kids[j]) == self.kind(
            kids[j],
        ) && g.node(kids[j]).value == self.node(kids[j]).value by {
            assert(self.contains(kids[j]));
            assert(g.node(kids[j]).node_type == self.node(kids[j]).node_type);
        }
    }

    /// Letting a child of a node take up the child behind it leaves the children of every
    /// other node as they are.
    #[verifier::rlimit(40)]
    pub proof fn lemma_absorb_frame(self, y: RefNode, k: int, x: RefNode)
        requires
            self.wf(),
            self.contains(y),
            self.contains(x),
            x != y,
            0 <= k,
            k + 1 < self.node(y).children.len(),
        ensures
            self.same_children(
                self.absorb(self.node(y).children[k], self.node(y).children[k + 1]),
                x,
            ),
    {
        let c = self.node(y).children[k];
        let next = self.node(y).children[k + 1];
        assert(self.node_wf(y));
        assert(self.node_wf(x));
        let merged = Some(or_empty(self.node(c).value) + or_empty(self.node(next).value));
        self.lemma_with_value(c, merged);
        let f = self.with_value(c, merged);
        f.lemma_detach(next);
        let g = f.detach(next);
        let kids = self.node(x).children;
        assert forall|j: int| 0 <= j < kids.len() implies g.kind(#[trigger] kids[j]) == self.kind(
            kids[j],
        ) && g.node(kids[j]).value == self.node(kids[j]).value by {
            assert(self.node(kids[j]).parent == Some(x));
            assert(kids[j] != c);
            assert(f.node(kids[j]).value == self.node(kids[j]).value);
        }
    }

    /// Bringing the children of a node into normal form leaves the children of every
    /// other node as they are.
    pub proof fn lemma_merge_frame(self, y: RefNode, k: int, x: RefNode)
        requires
            self.wf(),
            self.contains(y),
            self.contains(x),
            x != y,
            0 <= k,
        ensures
            self.same_children(self.with_merged_texts(y, k), x),
        decreases self.node(y).children.len() - k,
    {
        let kids = self.node(y).children;
        if k >= kids.len() {
        } else if self.is_empty_text(kids[k]) {
            self.lemma_detach_child(y, k);
            self.lemma_detach_child_frame(y, k, x);
            let f = self.detach(kids[k]);
            f.lemma_merge_frame(y, k, x);
            self.lemma_same_children_chain(f, f.with_merged_texts(y, k), x);
        } else if self.is_text_before_text(y, k) {
            self.lemma_absorb(y, k);
            self.lemma_absorb_frame(y, k, x);
            let f = self.absorb(kids[k], kids[k + 1]);
            f.lemma_merge_frame(y, k, x);
            self.lemma_same_children_chain(f, f.with_merged_texts(y, k), x);
        } else {
            self.lemma_merge_frame(y, k + 1, x);
        }
    }

    /// Children that stay the same twice stay the same.
    pub proof fn lemma_same_children_chain(self, f: Forest, g: Forest, x: RefNode)
        requires
            self.same_children(f, x),
            f.same_children(g, x),
        ensures
            self.same_children(g, x),
    {
        let kids = self.node(x).children;
        assert forall|j: int| 0 <= j < kids.len() implies g.kind(#[trigger] kids[j]) == self.kind(
            kids[j],
        ) && g.node(kids[j]).value == self.node(kids[j]).value by {
            assert(f.kind(kids[j]) == self.kind(kids[j]));
            assert(g.kind(f.node(x).children[j]) == f.kind(f.node(x).children[j]));
        }
    }

    /// Once the children before `k` are in normal form, bringing the children at `k` and
    /// behind it into normal form brings them all into it.
    #[verifier::rlimit(40)]
    pub proof fn lemma_merged_is_normal(self, n: RefNode, k: int)
        requires
            self.wf(),
            self.contains(n),
            0 <= k,
            self.is_normal_before(n, k),
        ensures
            self.with_merged_texts(n, k).is_normal_at(n),
        decreases self.node(n).children.len() - k,
    {
        let kids = self.node(n).children;
        assert(self.node_wf(n));
        if k >= kids.len() {
        } else if self.is_empty_text(kids[k]) {
            self.lemma_detach_child(n, k);
            self.lemma_detach(kids[k]);
            let f = self.detach(kids[k]);
            assert forall|j: int| 0 <= j < k && j < f.node(n).children.len() implies !f.is_empty_text(
                #[trigger] f.node(n).children[j],
            ) && !f.is_text_before_text(n, j) by {
                assert(f.node(n).children[j] == kids[j]);
                assert(!self.is_empty_text(kids[j]) && !self.is_text_before_text(n, j));
                assert(f.node(kids[j]).value == self.node(kids[j]).value);
                assert(f.kind(kids[j]) == self.kind(kids[j]));
                if j + 1 < k {
                    assert(f.node(n).children[j + 1] == kids[j + 1]);
                    assert(f.kind(kids[j + 1]) == self.kind(kids[j + 1]));
                }
            }
            f.lemma_merged_is_normal(n, k);
        } else if self.is_text_before_text(n, k) {
            self.lemma_absorb(n, k);
            let c = kids[k];
            let next = kids[k + 1];
            let merged = Some(or_empty(self.node(c).value) + or_empty(self.node(next).value));
            self.lemma_with_value(c, merged);
            let v = self.with_value(c, merged);
            v.lemma_detach(next);
            let f = self.absorb(c, next);
            assert forall|j: int| 0 <= j < k && j < f.node(n).children.len() implies !f.is_empty_text(
                #[trigger] f.node(n).children[j],
            ) && !f.is_text_before_text(n, j) by {
                assert(f.node(n).children[j] == kids[j]);
                assert(f.node(n).children[j + 1] == kids[j + 1]);
                assert(!self.is_empty_text(kids[j]) && !self.is_text_before_text(n, j));
                assert(kids[j] != c);
                assert(v.node(kids[j]).value == self.node(kids[j]).value);
                assert(f.node(kids[j]).value == self.node(kids[j]).value);
                assert(f.kind(kids[j]) == self.kind(kids[j]));
                assert(f.kind(kids[j + 1]) == self.kind(kids[j + 1]));
            }
            f.lemma_merged_is_normal(n, k);
        } else {
            assert forall|j: int| 0 <= j < k + 1 && j < kids.len() implies !self.is_empty_text(
                #[trigger] kids[j],
            ) && !self.is_text_before_text(n, j) by {
                if j < k {
                    assert(!self.is_empty_text(kids[j]) && !self.is_text_before_text(n, j));
                }
            }
            self.lemma_merged_is_normal(n, k + 1);
        }
    }

    /// The children of a node are in normal form once those of every node of a list
    /// have been brought into it, if the node is in the list or its children were in
    /// normal form before.
    pub proof fn lemma_all_merged_is_normal(self, list: Seq<RefNode>, from: int, x: RefNode)
        requires
            self.wf(),
            0 <= from,
            self.contains(x),
            forall|i: int| 0 <= i < list.len() ==> self.contains(#[trigger] list[i]),
            self.is_normal_at(x) || exists|i: int| from <= i < list.len() && list[i] == x,
        ensures
            self.with_all_merged(list, from).is_normal_at(x),
        decreases list.len() - from,
    {
        if from < list.len() {
            let y = list[from];
            assert(self.contains(y));
            self.lemma_with_merged_texts(y, 0);
            let f = self.with_merged_texts(y, 0);
            if y == x {
                self.lemma_merged_is_normal(x, 0);
            } else {
                self.lemma_merge_frame(y, 0, x);
                if self.is_normal_at(x) {
                    self.lemma_same_children_normal(f, x);
                } else {
                    let i = choose|i: int| from <= i < list.len() && list[i] == x;
                    assert(from + 1 <= i);
                }
            }
            assert forall|i: int| 0 <= i < list.len() implies f.contains(#[trigger] list[i]) by {
                assert(self.contains(list[i]));
            }
            f.lemma_all_merged_is_normal(list, from + 1, x);
        }
    }
}

/// After a node has been normalized, the children of the node and of every node below it
/// are in normal form: no text node among them is empty, and none stands next to another.
pub proof fn lemma_normalized_is_normal(f: Forest, n: RefNode, x: RefNode)
    requires
        f.wf(),
        f.contains(n),
        f.subtree(n).contains(x),
    ensures
        f.normalized(n).wf(),
        f.normalized(n).is_normal_at(x),
{
    f.lemma_subtree_contained(n);
    let list = f.subtree(n);
    let i = choose|i: int| 0 <= i < list.len() && list[i] == x;
    assert(f.contains(list[i]));
    f.lemma_with_all_merged(list, 0);
    f.lemma_all_merged_is_normal(list, 0, x);
}

impl NodeArena {
    /// Adds `n` and the nodes below it to `out`, in document order.
    pub fn gather(&self, n: RefNode, out: &mut Vec<RefNode>)
        requires
            self@.wf(),
            self@.contains(n),
        ensures
            final(out)@ == old(out)@ + self@.subtree(n),
        decreases self@.height(n),
    {
        let ghost before = out@;
        out.push(n);
        assert(out@ =~= before + seq![n]);
        let kids = self.record(n).child_nodes();
        let mut k: usize = 0;
        while k < kids.len()
            invariant
                self@.wf(),
                self@.contains(n),
                kids@ == self@.node(n).children,
                0 <= k <= kids.len(),
                out@ + self@.subtrees(n, k as int) == before + self@.subtree(n),
            decreases kids.len() - k,
        {
            let ghost so_far = out@;
            proof {
                self@.lemma_child_height(n, k as int);
            }
            self.gather(kids[k], out);
            assert(out@ + self@.subtrees(n, k + 1) =~= so_far + self@.subtrees(n, k as int));
            k = k + 1;
        }
        assert(out@ + Seq::<RefNode>::empty() =~= out@);
    }

    /// Brings the children of `n` into normal form.
    #[verifier::rlimit(40)]
    pub fn merge_texts(&mut self, n: RefNode)
        requires
            old(self)@.wf(),
            old(self)@.contains(n),
        ensures
            final(self)@.wf(),
            final(self)@ == old(self)@.with_merged_texts(n, 0),
            final(self)@.nodes.len() == old(self)@.nodes.len(),
    {
        proof {
            self@.lemma_with_merged_texts(n, 0);
        }
        let mut k: usize = 0;
        loop
            invariant
                self@.wf(),
                self@.contains(n),
                self@.nodes.len() == old(self)@.nodes.len(),
                self@.with_merged_texts(n, k as int) == old(self)@.with_merged_texts(n, 0),
            ensures
                self@ == old(self)@.with_merged_texts(n, 0),
            decreases self@.node(n).children.len() - k,
        {
            proof {
                assert(self@.node_wf(n));
            }
            let kids = self.record(n).child_nodes();
            let count = kids.len();
            if k >= count {
                break ;
            }
            let c = kids[k];
            let is_empty = match self.record(c).value() {
                None => true,
                Some(s) => s.as_str().is_empty(),
            };
            let is_text = self.record(c).node_type() == NodeType::Text;
            if is_text && is_empty {
                proof {
                    self@.lemma_detach_child(n, k as int);
                }
                self.detach(c);
            } else if is_text && k + 1 < count && self.record(kids[k + 1]).node_type()
                == NodeType::Text {
                let next = kids[k + 1];
                proof {
                    self@.lemma_absorb(n, k as int);
                    self@.lemma_with_value(
                        c,
                        Some(or_empty(self@.node(c).value) + or_empty(self@.node(next).value)),
                    );
                }
                let mut merged = match self.record(c).value() {
                    None => String::new(),
                    Some(s) => s.clone(),
                };
                match self.record(next).value() {
                    None => {},
                    Some(s) => merged.append(s.as_str()),
                }
                assert(merged@ =~= or_empty(self@.node(c).value) + or_empty(
                    self@.node(next).value,
                ));
                self.set_value_of(c, Some(merged));
                self.detach(next);
            } else {
                k = k + 1;
            }
        }
    }

    /// Brings the children of `n` and of every node below it into normal form.
    #[verifier::rlimit(40)]
    pub(crate) fn normalize_tree(&mut self, n: RefNode)
        requires
            old(self)@.wf(),
            old(self)@.contains(n),
        ensures
            final(self)@.wf(),
            final(self)@ == old(self)@.normalized(n),
            final(self)@.nodes.len() == old(self)@.nodes.len(),
    {
        let mut list: Vec<RefNode> = Vec::new();
        self.gather(n, &mut list);
        assert(list@ =~= self@.subtree(n));
        proof {
            self@.lemma_subtree_contained(n);
            self@.lemma_with_all_merged(list@, 0);
        }
        let mut i: usize = 0;
        while i < list.len()
            invariant
                self@.wf(),
                self@.nodes.len() == old(self)@.nodes.len(),
                0 <= i <= list.len(),
                forall|j: int| 0 <= j < list@.len() ==> old(self)@.contains(#[trigger] list@[j]),
                self@.with_all_merged(list@, i as int) == old(self)@.with_all_merged(list@, 0),
            decreases list.len() - i,
        {
            assert(old(self)@.contains(list@[i as int]));
            self.merge_texts(list[i]);
            i = i + 1;
        }
    }
}

} // verus!
