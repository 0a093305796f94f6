//! The nodes below a node in document order, and the search for elements among them.

use vstd::prelude::*;
use crate::arena::NodeArena;
use crate::forest::Forest;
use crate::matching::{namespaced_matches, namespaced_name_match, tag_matches, tag_name_match};
use crate::node::{NodeType, RefNode};

verus! {

/// What a search looks for.
#[derive(Debug)]
pub enum Query {
    /// Elements whose name, as written in markup, is the given one.
    Tag(String),
    /// Elements in the given namespace with the given local name.
    Namespaced(String, String),
}

/// The mathematical value of a [`Query`].
pub enum QueryView {
    Tag(Seq<char>),
    Namespaced(Seq<char>, Seq<char>),
}

impl View for Query {
    type V = QueryView;

    open spec fn view(&self) -> QueryView {
        match *self {
            Query::Tag(tag) => QueryView::Tag(tag@),
            Query::Namespaced(ns, local) => QueryView::Namespaced(ns@, local@),
        }
    }
}

/// A filter that lets through what `p` and `q` both let through, where they agree.
pub proof fn lemma_filter_agrees(s: Seq<RefNode>, p: spec_fn(RefNode) -> bool, q: spec_fn(
    RefNode,
) -> bool)
    requires
        forall|x: RefNode| s.contains(x) ==> p(x) == q(x),
    ensures
        s.filter(p) == s.filter(q),
    decreases s.len(),
{
    reveal(Seq::filter);
    if s.len() > 0 {
        let init = s.drop_last();
        assert forall|x: RefNode| init.contains(x) implies p(x) == q(x) by {
            let j = choose|j: int| 0 <= j < init.len() && init[j] == x;
            assert(s[j] == x);
            assert(s.contains(x));
        }
        lemma_filter_agrees(init, p, q);
        assert(s.contains(s.last())) by {
            assert(s[s.len() - 1] == s.last());
        }
    }
}

/// What a filter lets through of a single item: the item, or nothing.
pub proof fn lemma_filter_one(x: RefNode, p: spec_fn(RefNode) -> bool)
    ensures
        seq![x].filter(p) == if p(x) {
            seq![x]
        } else {
            Seq::<RefNode>::empty()
        },
{
    reveal_with_fuel(Seq::filter, 2);
    assert(seq![x].drop_last() =~= Seq::<RefNode>::empty());
    if p(x) {
        assert(Seq::<RefNode>::empty().push(x) =~= seq![x]);
    }
}

impl Forest {
    /// The node `n` and all the nodes below it, in document order: each node before its
    /// children, and the children in their order.
    pub open spec fn subtree(self, n: RefNode) -> Seq<RefNode>
        decreases self.height(n), self.node(n).children.len() + 1,
        when self.wf() && self.contains(n)
    {
        seq![n] + self.subtrees(n, 0)
    }

    /// The subtrees of the children of `n` that stand at `from` and behind it, one after
    /// the other.
    pub open spec fn subtrees(self, n: RefNode, from: int) -> Seq<RefNode>
        decreases self.height(n), self.node(n).children.len() - from,
        when self.wf() && self.contains(n) && 0 <= from
    {
        if from >= self.node(n).children.len() {
            Seq::empty()
        } else {
            proof {
                self.lemma_child_height(n, from);
            }
            self.subtree(self.node(n).children[from]) + self.subtrees(n, from + 1)
        }
    }

    /// Whether the node `x` is an element that `query` looks for.
    pub open spec fn hit(self, x: RefNode, query: QueryView) -> bool {
        self.kind(x) == NodeType::Element && match query {
            QueryView::Tag(tag) => tag_matches(self.node(x).name.qualified(), tag),
            QueryView::Namespaced(ns, local) => namespaced_matches(
                self.node(x).name.namespace_uri,
                self.node(x).name.local_name,
                ns,
                local,
            ),
        }
    }

    /// The test that lets through the elements that `query` looks for.
    pub open spec fn hits(self, query: QueryView) -> spec_fn(RefNode) -> bool {
        |x: RefNode| self.hit(x, query)
    }

    /// The test that lets through every element.
    pub open spec fn elements(self) -> spec_fn(RefNode) -> bool {
        |x: RefNode| self.kind(x) == NodeType::Element
    }

    /// The elements that `query` looks for in the element `n` and below it, in document
    /// order; none where `n` is no element.
    pub open spec fn found(self, n: RefNode, query: QueryView) -> Seq<RefNode> {
        if self.kind(n) == NodeType::Element {
            self.subtree(n).filter(self.hits(query))
        } else {
            Seq::empty()
        }
    }

    /// Every node of a subtree is a node of the forest.
    pub proof fn lemma_subtree_contained(self, n: RefNode)
        requires
            self.wf(),
            self.contains(n),
        ensures
            forall|k: int|
                0 <= k < self.subtree(n).len() ==> self.contains(#[trigger] self.subtree(n)[k]),
            self.subtree(n).len() > 0,
            self.subtree(n)[0] == n,
        decreases self.height(n), self.node(n).children.len() + 1,
    {
        self.lemma_subtrees_contained(n, 0);
        let rest = self.subtrees(n, 0);
        assert forall|k: int| 0 <= k < self.subtree(n).len() implies self.contains(
            #[trigger] self.subtree(n)[k],
        ) by {
            if k > 0 {
                assert(self.subtree(n)[k] == rest[k - 1]);
            }
        }
    }

    /// Every node of the subtrees of the children of a node is a node of the forest.
    pub proof fn lemma_subtrees_contained(self, n: RefNode, from: int)
        requires
            self.wf(),
            self.contains(n),
            0 <= from,
        ensures
            forall|k: int|
                0 <= k < self.subtrees(n, from).len() ==> self.contains(
                    #[trigger] self.subtrees(n, from)[k],
                ),
        decreases self.height(n), self.node(n).children.len() - from,
    {
        if from < self.node(n).children.len() {
            self.lemma_child_height(n, from);
            self.lemma_subtree_contained(self.node(n).children[from]);
            self.lemma_subtrees_contained(n, from + 1);
            let first = self.subtree(self.node(n).children[from]);
            let rest = self.subtrees(n, from + 1);
            assert forall|k: int| 0 <= k < self.subtrees(n, from).len() implies self.contains(
                #[trigger] self.subtrees(n, from)[k],
            ) by {
                if k < first.len() {
                    assert(self.subtrees(n, from)[k] == first[k]);
                } else {
                    assert(self.subtrees(n, from)[k] == rest[k - first.len()]);
                }
            }
        }
    }
}

/// A search for the name `*` finds every element of the subtree, the element it starts
/// from among them, in document order.
pub proof fn lemma_wildcard_finds_every_element(f: Forest, n: RefNode)
    requires
        f.wf(),
        f.contains(n),
        f.kind(n) == NodeType::Element,
    ensures
        f.found(n, QueryView::Tag("*"@)) == f.subtree(n).filter(f.elements()),
        f.found(n, QueryView::Tag("*"@)).len() > 0,
        f.found(n, QueryView::Tag("*"@))[0] == n,
{
    let q = QueryView::Tag("*"@);
    lemma_filter_agrees(f.subtree(n), f.hits(q), f.elements());
    let rest = f.subtrees(n, 0);
    lemma_filter_one(n, f.elements());
    Seq::filter_distributes_over_add(seq![n], rest, f.elements());
}

impl NodeArena {
    /// Whether the node `x` is an element that `query` looks for.
    pub fn hit(&self, x: RefNode, query: &Query) -> (r: bool)
        requires
            self@.contains(x),
        ensures
            r == self@.hit(x, query@),
    {
        let record = self.record(x);
        if record.node_type() != NodeType::Element {
            return false;
        }
        match query {
            Query::Tag(tag) => {
                let written = record.name().to_string();
                tag_name_match(&written, tag)
            },
            Query::Namespaced(ns, local) => {
                let node_ns = record.name().namespace_uri();
                let node_local = record.name().local_name();
                namespaced_name_match(&node_ns, &node_local, ns, local)
            },
        }
    }

    /// Adds to `out` the elements that `query` looks for in `n` and below it, in document
    /// order.
    pub fn collect(&self, n: RefNode, query: &Query, out: &mut Vec<RefNode>)
        requires
            self@.wf(),
            self@.contains(n),
        ensures
            final(out)@ == old(out)@ + self@.subtree(n).filter(self@.hits(query@)),
        decreases self@.height(n),
    {
        let ghost test = self@.hits(query@);
        let ghost before = out@;
        proof {
            lemma_filter_one(n, test);
            Seq::filter_distributes_over_add(seq![n], self@.subtrees(n, 0), test);
        }
        if self.hit(n, query) {
            out.push(n);
        }
        assert(out@ =~= before + seq![n].filter(test));
        let kids = self.record(n).child_nodes();
        let mut k: usize = 0;
        while k < kids.len()
            invariant
                self@.wf(),
                self@.contains(n),
                kids@ == self@.node(n).children,
                test == self@.hits(query@),
                0 <= k <= kids.len(),
                out@ + self@.subtrees(n, k as int).filter(test) == before + self@.subtree(n).filter(
                    test,
                ),
            decreases kids.len() - k,
        {
            let ghost so_far = out@;
            proof {
                self@.lemma_child_height(n, k as int);
                Seq::filter_distributes_over_add(
                    self@.subtree(kids@[k as int]),
                    self@.subtrees(n, k + 1),
                    test,
                );
            }
            self.collect(kids[k], query, out);
            assert(out@ + self@.subtrees(n, k + 1).filter(test) =~= so_far + self@.subtrees(
                n,
                k as int,
            ).filter(test));
            k = k + 1;
        }
        assert(out@ + Seq::<RefNode>::empty().filter(test) =~= out@) by {
            reveal(Seq::filter);
        }
    }

    /// The elements that `query` looks for in the element `n` and below it, in document
    /// order; none where `n` is no element.
    pub fn find(&self, n: RefNode, query: &Query) -> (r: Vec<RefNode>)
        requires
            self@.wf(),
            self@.contains(n),
        ensures
            r@ == self@.found(n, query@),
            forall|k: int| 0 <= k < r@.len() ==> self@.contains(#[trigger] r@[k]),
    {
        let mut out: Vec<RefNode> = Vec::new();
        if self.record(n).node_type() == NodeType::Element {
            self.collect(n, query, &mut out);
            assert(out@ =~= self@.found(n, query@));
            proof {
                self@.lemma_subtree_contained(n);
                let s = self@.subtree(n);
                let test = self@.hits(query@);
                assert forall|k: int| 0 <= k < out@.len() implies self@.contains(
                    #[trigger] out@[k],
                ) by {
                    assert(s.filter(test).contains(out@[k]));
                    Seq::lemma_filter_contains_rev(s, test, out@[k]);
                    let j = choose|j: int| 0 <= j < s.len() && s[j] == out@[k];
                    assert(self@.contains(s[j]));
                }
            }
        }
        out
    }
}

} // verus!
