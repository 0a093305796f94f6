//! The mathematical model of an arena of nodes: a sequence of node values that refer to one
//! another by their places, the invariant that makes it a forest, and the functions that say
//! what each operation on the tree computes.

use vstd::prelude::*;
use crate::first::{first_from, lemma_first_from};

use crate::node::{extension_fits, ExtensionView, NodeType, NodeView, RefNode};

verus! {

/// The test that holds of the handle `x` alone.
pub open spec fn is_handle(x: RefNode) -> spec_fn(RefNode) -> bool {
    |y: RefNode| y == x
}

/// The first index at or after `from` at which `x` stands in `s`, or `s.len()` if there is none.
pub open spec fn position_from(s: Seq<RefNode>, x: RefNode, from: int) -> int {
    first_from(s, is_handle(x), from)
}

/// The first index at which `x` stands in `s`, or `s.len()` if it stands nowhere in it.
pub open spec fn position(s: Seq<RefNode>, x: RefNode) -> int {
    position_from(s, x, 0)
}

/// `position_from` stays within the sequence, lands on `x` when it lands inside, and passes
/// no `x`.
pub proof fn lemma_position_from(s: Seq<RefNode>, x: RefNode, from: int)
    requires
        0 <= from <= s.len(),
    ensures
        from <= position_from(s, x, from) <= s.len(),
        position_from(s, x, from) < s.len() ==> s[position_from(s, x, from)] == x,
        forall|j: int| from <= j < position_from(s, x, from) ==> s[j] != x,
{
    lemma_first_from(s, is_handle(x), from);
}

/// In a sequence without repetitions every item is found at its own place.
pub proof fn lemma_position_of_item(s: Seq<RefNode>, k: int)
    requires
        s.no_duplicates(),
        0 <= k < s.len(),
    ensures
        position(s, s[k]) == k,
{
    lemma_position_from(s, s[k], 0);
}

/// An item that does not stand in a sequence is found at its length.
pub proof fn lemma_position_of_stranger(s: Seq<RefNode>, x: RefNode)
    requires
        !s.contains(x),
    ensures
        position(s, x) == s.len(),
{
    lemma_position_from(s, x, 0);
}

/// `s` without its first `x`, or `s` itself if `x` does not stand in it.
pub open spec fn without(s: Seq<RefNode>, x: RefNode) -> Seq<RefNode> {
    let at = position(s, x);
    if at < s.len() {
        s.remove(at)
    } else {
        s
    }
}

/// Taking `x` out of a sequence without repetitions leaves no `x`, no repetition, and no
/// item that was not there.
pub proof fn lemma_without(s: Seq<RefNode>, x: RefNode)
    requires
        s.no_duplicates(),
    ensures
        without(s, x).no_duplicates(),
        !without(s, x).contains(x),
        forall|y: RefNode| #[trigger] without(s, x).contains(y) <==> s.contains(y) && y != x,
{
    lemma_position_from(s, x, 0);
    let at = position(s, x);
    let w = without(s, x);
    if at < s.len() {
        assert forall|y: RefNode| #[trigger] w.contains(y) <==> s.contains(y) && y != x by {
            if w.contains(y) {
                let j = choose|j: int| 0 <= j < w.len() && w[j] == y;
                if j < at {
                    assert(s[j] == y);
                } else {
                    assert(s[j + 1] == y);
                }
            }
            if s.contains(y) && y != x {
                let j = choose|j: int| 0 <= j < s.len() && s[j] == y;
                if j < at {
                    assert(w[j] == y);
                } else {
                    assert(w[j - 1] == y);
                }
            }
        }
    } else {
        assert forall|y: RefNode| #[trigger] w.contains(y) <==> s.contains(y) && y != x by {
            if s.contains(y) {
                let j = choose|j: int| 0 <= j < s.len() && s[j] == y;
            }
        }
    }
}

/// Which kinds of child a parent of each kind admits.
pub open spec fn child_kind_allowed(parent: NodeType, child: NodeType) -> bool {
    match parent {
        NodeType::Document => {
            ||| child is Element
            ||| child is Comment
            ||| child is ProcessingInstruction
            ||| child is DocumentType
        },
        NodeType::DocumentFragment
        | NodeType::Element
        | NodeType::EntityReference
        | NodeType::Entity => {
            ||| child is Element
            ||| child is Text
            ||| child is Comment
            ||| child is ProcessingInstruction
            ||| child is CData
            ||| child is EntityReference
        },
        NodeType::Attribute => child is Text || child is EntityReference,
        _ => false,
    }
}

/// The mathematical value of an arena: its nodes, each at the place that its handles name.
pub struct Forest {
    pub nodes: Seq<NodeView>,
}

impl Forest {
    /// Whether `n` is a handle to a node of this forest.
    pub open spec fn contains(self, n: RefNode) -> bool {
        n.index < self.nodes.len()
    }

    /// Whether `n`, if there is one, is a handle to a node of this forest.
    pub open spec fn contains_opt(self, n: Option<RefNode>) -> bool {
        n matches Some(x) ==> self.contains(x)
    }

    /// The node that `n` refers to.
    pub open spec fn node(self, n: RefNode) -> NodeView {
        self.nodes[n.index as int]
    }

    /// The kind of the node `n`.
    pub open spec fn kind(self, n: RefNode) -> NodeType {
        self.node(n).node_type
    }

    /// The forest with `v` in the place of the node `n`.
    pub open spec fn with_node(self, n: RefNode, v: NodeView) -> Forest {
        Forest { nodes: self.nodes.update(n.index as int, v) }
    }

    /// The forest with `extension` in the place of the extension of the node `n`.
    pub open spec fn with_extension(self, n: RefNode, extension: ExtensionView) -> Forest {
        self.with_node(n, NodeView { extension, ..self.node(n) })
    }

    /// The forest with one more node, `v`, whose handle is `self.next()`.
    pub open spec fn with_new(self, v: NodeView) -> Forest {
        Forest { nodes: self.nodes.push(v) }
    }

    /// The handle of the node that is made next.
    pub open spec fn next(self) -> RefNode {
        RefNode { index: self.nodes.len() as usize }
    }

    /// Whether no two nodes of `list` have the same key: the same prefix and local name.
    pub open spec fn distinct_keys(self, list: Seq<RefNode>) -> bool {
        forall|i: int, j: int|
            0 <= i < j < list.len() ==> !self.node(#[trigger] list[i]).name.same_key(
                self.node(#[trigger] list[j]).name,
            )
    }

    /// What must hold of the handles that the extension of `n` keeps: they are handles to
    /// nodes of this forest, of the kind that the extension keeps them for, and the
    /// attributes of an element, the entities of a document type and its notations are
    /// each of a key of their own. A document has its element.
    pub open spec fn extension_wf(self, n: RefNode) -> bool {
        match self.node(n).extension {
            ExtensionView::Empty => true,
            ExtensionView::Document { document_element, document_type } => {
                &&& document_element is Some
                &&& document_element matches Some(e) ==> self.contains(e) && self.kind(e)
                    == NodeType::Element
                &&& document_type matches Some(t) ==> self.contains(t) && self.kind(t)
                    == NodeType::DocumentType
            },
            ExtensionView::Element { attributes, .. } => {
                &&& forall|k: int|
                    0 <= k < attributes.len() ==> self.contains(#[trigger] attributes[k])
                        && self.kind(attributes[k]) == NodeType::Attribute
                &&& self.distinct_keys(attributes)
            },
            ExtensionView::DocumentType { entities, notations, .. } => {
                &&& forall|k: int|
                    0 <= k < entities.len() ==> self.contains(#[trigger] entities[k])
                        && self.kind(entities[k]) == NodeType::Entity
                &&& forall|k: int|
                    0 <= k < notations.len() ==> self.contains(#[trigger] notations[k])
                        && self.kind(notations[k]) == NodeType::Notation
                &&& self.distinct_keys(entities)
                &&& self.distinct_keys(notations)
            },
            ExtensionView::Entity { .. } => true,
            ExtensionView::Notation { .. } => true,
        }
    }

    /// Whether a node of the kind `node_type` can have the owner document `owner`: no
    /// document owns a document, and one owns every element and every reference to an
    /// entity.
    pub open spec fn owner_fits(node_type: NodeType, owner: Option<RefNode>) -> bool {
        &&& node_type == NodeType::Document ==> owner is None
        &&& node_type == NodeType::Element || node_type == NodeType::EntityReference
            ==> owner is Some
    }

    /// What must hold of the node `n`: its extension is that of its kind, every handle it
    /// keeps is to a node of this forest, its owner document is one that its kind can
    /// have, its parent admits its kind, lists it among its children and has its owner
    /// document, and each of its children, none of them listed twice, has it as parent.
    pub open spec fn node_wf(self, n: RefNode) -> bool {
        let v = self.node(n);
        &&& extension_fits(v.node_type, v.extension)
        &&& self.extension_wf(n)
        &&& self.contains_opt(v.parent)
        &&& self.contains_opt(v.owner_document)
        &&& Self::owner_fits(v.node_type, v.owner_document)
        &&& v.parent matches Some(p) ==> child_kind_allowed(self.kind(p), v.node_type)
            && self.node(p).children.contains(n) && self.node(p).owner_document
            == v.owner_document
        &&& v.children.no_duplicates()
        &&& forall|k: int|
            0 <= k < v.children.len() ==> self.contains(#[trigger] v.children[k]) && self.node(
                v.children[k],
            ).parent == Some(n)
    }

    /// Whether `rank` gives every node a number that is at most `bound` and less than that
    /// of its parent.
    pub open spec fn ranked_by(self, rank: Seq<nat>, bound: nat) -> bool {
        &&& rank.len() == self.nodes.len()
        &&& forall|i: int| 0 <= i < rank.len() ==> #[trigger] rank[i] <= bound
        &&& forall|n: RefNode|
            self.contains(n) && (#[trigger] self.node(n)).parent is Some ==> self.contains(
                self.node(n).parent->0,
            ) && rank[n.index as int] < rank[self.node(n).parent->0.index as int]
    }

    /// Whether no node is its own ancestor.
    pub open spec fn acyclic(self) -> bool {
        exists|rank: Seq<nat>, bound: nat| self.ranked_by(rank, bound)
    }

    /// The invariant of an arena: every node is well formed and no node is its own ancestor.
    pub open spec fn wf(self) -> bool {
        &&& self.nodes.len() <= usize::MAX
        &&& forall|n: RefNode| self.contains(n) ==> #[trigger] self.node_wf(n)
        &&& self.acyclic()
    }

    /// A ranking of the nodes, where the forest has one.
    pub closed spec fn ranking(self) -> (Seq<nat>, nat) {
        choose|rb: (Seq<nat>, nat)| self.ranked_by(rb.0, rb.1)
    }

    /// A number that is less for a child than for its parent.
    pub closed spec fn height(self, n: RefNode) -> nat {
        self.ranking().0[n.index as int]
    }

    /// A number that is less for a parent than for its child.
    pub closed spec fn climb(self, n: RefNode) -> nat {
        (self.ranking().1 - self.height(n)) as nat
    }

    /// The ranking of an acyclic forest ranks it.
    pub proof fn lemma_ranking(self)
        requires
            self.acyclic(),
        ensures
            self.ranked_by(self.ranking().0, self.ranking().1),
    {
        let (rank, bound) = choose|rank: Seq<nat>, bound: nat| self.ranked_by(rank, bound);
        assert(self.ranked_by((rank, bound).0, (rank, bound).1));
    }

    /// A forest with the nodes of an acyclic one is acyclic if each of its nodes has the
    /// parent that it has there, or none.
    pub proof fn lemma_fewer_parents(self, g: Forest)
        requires
            self.acyclic(),
            g.nodes.len() == self.nodes.len(),
            forall|n: RefNode|
                self.contains(n) ==> (#[trigger] g.node(n)).parent is None || g.node(n).parent
                    == self.node(n).parent,
        ensures
            g.acyclic(),
    {
        self.lemma_ranking();
        let rb = self.ranking();
        assert forall|n: RefNode|
            g.contains(n) && (#[trigger] g.node(n)).parent is Some implies g.contains(
            g.node(n).parent->0,
        ) && rb.0[n.index as int] < rb.0[g.node(n).parent->0.index as int] by {
            assert(self.node(n).parent == g.node(n).parent);
        }
        assert(g.ranked_by(rb.0, rb.1));
    }

    /// In a well-formed forest the two measures move as their names say.
    pub proof fn lemma_measures(self, n: RefNode)
        requires
            self.wf(),
            self.contains(n),
            self.node(n).parent is Some,
        ensures
            self.contains(self.node(n).parent->0),
            self.height(n) < self.height(self.node(n).parent->0),
            self.climb(self.node(n).parent->0) < self.climb(n),
    {
        let (rank, bound) = choose|rank: Seq<nat>, bound: nat| self.ranked_by(rank, bound);
        assert(self.ranked_by((rank, bound).0, (rank, bound).1));
        let rb = self.ranking();
        assert(self.ranked_by(rb.0, rb.1));
        let p = self.node(n).parent->0;
        assert(rb.0[p.index as int] <= rb.1);
    }

    /// A child is lower than its parent.
    pub proof fn lemma_child_height(self, n: RefNode, k: int)
        requires
            self.wf(),
            self.contains(n),
            0 <= k < self.node(n).children.len(),
        ensures
            self.contains(self.node(n).children[k]),
            self.height(self.node(n).children[k]) < self.height(n),
    {
        assert(self.node_wf(n));
        self.lemma_measures(self.node(n).children[k]);
    }

    /// Whether `a` is `n` or an ancestor of `n`.
    pub open spec fn is_inclusive_ancestor(self, a: RefNode, n: RefNode) -> bool
        decreases self.climb(n),
        when self.wf() && self.contains(n)
    {
        a == n || match self.node(n).parent {
            Some(p) => {
                proof {
                    self.lemma_measures(n);
                }
                self.is_inclusive_ancestor(a, p)
            },
            None => false,
        }
    }
}

} // verus!
