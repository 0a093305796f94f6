//! What the operations that change the shape of the tree compute, and the proofs that they
//! keep the forest well formed.

use vstd::prelude::*;
use crate::error::Error;
use crate::forest::{
    child_kind_allowed, lemma_position_from, lemma_position_of_stranger, lemma_without, position,
    without, Forest,
};
use crate::node::{ExtensionView, NodeType, NodeView, RefNode};

verus! {

impl Forest {
    /// Whether `g` has the nodes of this forest, each with its kind, name, value and
    /// extension.
    pub open spec fn same_identities(self, g: Forest) -> bool {
        &&& g.nodes.len() == self.nodes.len()
        &&& forall|n: RefNode|
            self.contains(n) ==> (#[trigger] g.node(n)).node_type == self.node(n).node_type
                && g.node(n).name == self.node(n).name && g.node(n).extension == self.node(
                n,
            ).extension && g.node(n).value == self.node(n).value
    }

    /// The forest in which `c` has no parent and stands in no list of children.
    pub open spec fn detach(self, c: RefNode) -> Forest {
        match self.node(c).parent {
            None => self,
            Some(p) => {
                let f = self.with_node(
                    p,
                    NodeView { children: without(self.node(p).children, c), ..self.node(p) },
                );
                f.with_node(c, NodeView { parent: None, ..f.node(c) })
            },
        }
    }

    /// The forest in which `c`, which has no parent, is the child of `p` that stands at
    /// `at`, and has the owner document `owner`.
    pub open spec fn link(self, p: RefNode, c: RefNode, at: int, owner: Option<RefNode>) -> Forest {
        let f = self.with_node(
            p,
            NodeView { children: self.node(p).children.insert(at, c), ..self.node(p) },
        );
        f.with_node(c, NodeView { parent: Some(p), owner_document: owner, ..f.node(c) })
    }

    /// The forest in which `c`, which has no parent, is the child of `p` that stands at
    /// `at`, and has the owner document of `p`.
    pub open spec fn attach(self, p: RefNode, c: RefNode, at: int) -> Forest {
        self.link(p, c, at, self.node(p).owner_document)
    }

    /// The place at which a child is put among `kids`: before `anchor` where `anchor` is
    /// given and stands in `kids`, and behind the last child otherwise.
    pub open spec fn insertion_point(kids: Seq<RefNode>, anchor: Option<RefNode>) -> int {
        match anchor {
            None => kids.len() as int,
            Some(r) => position(kids, r),
        }
    }

    /// The forest after `c` has been taken from where it was and made a child of `p`,
    /// before `anchor` or behind the last child.
    pub open spec fn insert_child(self, p: RefNode, c: RefNode, anchor: Option<RefNode>) -> Forest {
        let d = self.detach(c);
        d.attach(p, c, Self::insertion_point(d.node(p).children, anchor))
    }

    /// The forest after `c` has been taken from where it was and made the last child of `p`.
    pub open spec fn append_child(self, p: RefNode, c: RefNode) -> Forest {
        self.insert_child(p, c, None)
    }

    /// The forest after `c` has taken the place of `old_child` among the children of `p`,
    /// and `old_child` has been left without a parent.
    pub open spec fn replace_child(self, p: RefNode, c: RefNode, old_child: RefNode) -> Forest {
        if c == old_child {
            self
        } else {
            let d = self.detach(c);
            let at = position(d.node(p).children, old_child);
            d.attach(p, c, at).detach(old_child)
        }
    }

    /// An inclusive ancestor of a node has its own parent among the ancestors of that node.
    pub proof fn lemma_ancestor_step(self, x: RefNode, n: RefNode)
        requires
            self.wf(),
            self.contains(n),
            self.contains(x),
            self.is_inclusive_ancestor(x, n),
            self.node(x).parent is Some,
        ensures
            self.is_inclusive_ancestor(self.node(x).parent->0, n),
            self.node(x).parent->0 != n,
        decreases self.climb(n),
    {
        let q = self.node(x).parent->0;
        self.lemma_measures(x);
        if x == n {
            assert(self.is_inclusive_ancestor(q, q));
        } else {
            let pp = self.node(n).parent->0;
            self.lemma_measures(n);
            self.lemma_ancestor_step(x, pp);
            self.lemma_ancestor_height(x, n);
        }
    }

    /// An inclusive ancestor of a node is at least as high as the node.
    pub proof fn lemma_ancestor_height(self, x: RefNode, n: RefNode)
        requires
            self.wf(),
            self.contains(n),
            self.is_inclusive_ancestor(x, n),
        ensures
            self.height(n) <= self.height(x),
            self.contains(x),
        decreases self.climb(n),
    {
        if x != n {
            self.lemma_measures(n);
            self.lemma_ancestor_height(x, self.node(n).parent->0);
        }
    }

    /// Giving `c` the parent `p` closes no cycle unless `c` is `p` or one of its ancestors.
    #[verifier::rlimit(40)]
    pub proof fn lemma_reparent_acyclic(self, g: Forest, p: RefNode, c: RefNode)
        requires
            self.wf(),
            self.contains(p),
            self.contains(c),
            !self.is_inclusive_ancestor(c, p),
            g.nodes.len() == self.nodes.len(),
            g.node(c).parent == Some(p),
            forall|n: RefNode|
                self.contains(n) && n != c ==> (#[trigger] g.node(n)).parent == self.node(n).parent,
        ensures
            g.acyclic(),
    {
        self.lemma_ranking();
        let (rank, bound) = self.ranking();
        let lifted = Seq::new(
            rank.len(),
            |i: int|
                if self.is_inclusive_ancestor(RefNode { index: i as usize }, p) {
                    (rank[i] + bound + 1) as nat
                } else {
                    rank[i]
                },
        );
        let top = (2 * bound + 1) as nat;
        assert forall|n: RefNode| g.contains(n) && (#[trigger] g.node(n)).parent is Some implies {
            &&& g.contains(g.node(n).parent->0)
            &&& lifted[n.index as int] < lifted[g.node(n).parent->0.index as int]
        } by {
            let q = g.node(n).parent->0;
            assert(RefNode { index: n.index as int as usize } == n);
            if n == c {
                assert(q == p);
                assert(RefNode { index: p.index as int as usize } == p);
                assert(self.is_inclusive_ancestor(p, p));
                assert(rank[c.index as int] <= bound);
            } else {
                assert(self.node(n).parent == Some(q));
                assert(self.contains(q));
                assert(RefNode { index: q.index as int as usize } == q);
                if self.is_inclusive_ancestor(n, p) {
                    self.lemma_ancestor_step(n, p);
                }
            }
        }
        assert(g.ranked_by(lifted, top));
    }

    /// Taking a node from its parent keeps the forest well formed, and changes nothing but
    /// the parent of the node and the children of that parent.
    #[verifier::rlimit(40)]
    pub proof fn lemma_detach(self, c: RefNode)
        requires
            self.wf(),
            self.contains(c),
        ensures
            self.detach(c).wf(),
            self.same_identities(self.detach(c)),
            self.detach(c).node(c).parent is None,
            self.detach(c).node(c).children == self.node(c).children,
            self.detach(c).node(c).owner_document == self.node(c).owner_document,
            forall|n: RefNode|
                self.contains(n) && n != c ==> (#[trigger] self.detach(c).node(n)).parent
                    == self.node(n).parent && self.detach(c).node(n).owner_document == self.node(
                    n,
                ).owner_document,
            forall|n: RefNode|
                self.contains(n) && Some(n) != self.node(c).parent ==> (#[trigger] self.detach(
                    c,
                ).node(n)).children == self.node(n).children,
            self.node(c).parent matches Some(p) ==> self.detach(c).node(p).children == without(
                self.node(p).children,
                c,
            ),
            forall|n: RefNode|
                self.contains(n) ==> !(#[trigger] self.detach(c).node(n)).children.contains(c),
    {
        let g = self.detach(c);
        assert(self.node_wf(c));
        match self.node(c).parent {
            None => {
                assert forall|n: RefNode| self.contains(n) implies !(#[trigger] g.node(
                    n,
                )).children.contains(c) by {
                    assert(self.node_wf(n));
                    if g.node(n).children.contains(c) {
                        let k = choose|k: int|
                            0 <= k < g.node(n).children.len() && g.node(n).children[k] == c;
                        assert(self.node(g.node(n).children[k]).parent == Some(n));
                    }
                }
            },
            Some(p) => {
                self.lemma_measures(c);
                assert(p != c);
                assert(self.node_wf(p));
                lemma_without(self.node(p).children, c);
                let kids = without(self.node(p).children, c);
                assert forall|n: RefNode| g.contains(n) implies #[trigger] g.node_wf(n) by {
                    assert(self.node_wf(n));
                    let v = g.node(n);
                    assert forall|k: int| 0 <= k < v.children.len() implies g.contains(
                        #[trigger] v.children[k],
                    ) && g.node(v.children[k]).parent == Some(n) by {
                        let x = v.children[k];
                        if n == p {
                            assert(kids.contains(x));
                            assert(self.node(p).children.contains(x));
                            let j = choose|j: int|
                                0 <= j < self.node(p).children.len() && self.node(p).children[j]
                                    == x;
                            assert(self.node(self.node(p).children[j]).parent == Some(p));
                            assert(x != c);
                        } else {
                            assert(self.node(n).children[k] == x);
                            assert(self.node(x).parent == Some(n));
                            assert(x != c);
                        }
                    }
                    assert(g.extension_wf(n));
                }
                self.lemma_fewer_parents(g);
                assert forall|n: RefNode| self.contains(n) implies !(#[trigger] g.node(
                    n,
                )).children.contains(c) by {
                    assert(self.node_wf(n));
                    if n != p && g.node(n).children.contains(c) {
                        let k = choose|k: int|
                            0 <= k < g.node(n).children.len() && g.node(n).children[k] == c;
                        assert(self.node(self.node(n).children[k]).parent == Some(n));
                    }
                }
            },
        }
    }

    /// Whether `c` can take the owner document of `p` without harm: it has that owner
    /// already or has no children that would be left with another, and the owner is one
    /// that its kind can have.
    pub open spec fn fits_under(self, p: RefNode, c: RefNode) -> bool {
        &&& self.node(c).children.len() == 0 || self.node(c).owner_document == self.node(
            p,
        ).owner_document
        &&& Self::owner_fits(self.kind(c), self.node(p).owner_document)
    }

    /// A node that nothing forbids to be made a child of another can take the owner
    /// document of that other, before it is taken from its parent and after.
    pub proof fn lemma_insertion_fits(self, p: RefNode, c: RefNode, leaving: Option<RefNode>)
        requires
            self.wf(),
            self.contains(p),
            self.contains(c),
            self.insertion_error(p, c, leaving) is None,
        ensures
            self.fits_under(p, c),
            child_kind_allowed(self.kind(p), self.kind(c)),
            !self.is_inclusive_ancestor(c, p),
    {
        assert(self.node_wf(p));
        assert(self.node_wf(c));
        if self.node(c).children.len() > 0 {
            assert(self.node_wf(self.node(c).children[0]));
        }
    }

    /// The nodes above a node have its owner document.
    pub proof fn lemma_ancestor_owner(self, a: RefNode, n: RefNode)
        requires
            self.wf(),
            self.contains(n),
            self.is_inclusive_ancestor(a, n),
        ensures
            self.node(a).owner_document == self.node(n).owner_document,
        decreases self.climb(n),
    {
        if a != n {
            assert(self.node_wf(n));
            self.lemma_measures(n);
            self.lemma_ancestor_owner(a, self.node(n).parent->0);
        }
    }

    /// Making a node without a parent a child keeps the forest well formed, provided that
    /// the parent admits its kind and is not below it.
    #[verifier::rlimit(40)]
    pub proof fn lemma_link(self, p: RefNode, c: RefNode, at: int, owner: Option<RefNode>)
        requires
            self.wf(),
            self.contains(p),
            self.contains(c),
            self.node(c).parent is None,
            child_kind_allowed(self.kind(p), self.kind(c)),
            !self.is_inclusive_ancestor(c, p),
            0 <= at <= self.node(p).children.len(),
            owner == self.node(p).owner_document,
            self.fits_under(p, c),
        ensures
            self.link(p, c, at, owner).wf(),
            self.same_identities(self.link(p, c, at, owner)),
            self.link(p, c, at, owner).node(c).parent == Some(p),
            self.link(p, c, at, owner).node(c).owner_document == owner,
            self.link(p, c, at, owner).node(c).children == self.node(c).children,
            self.link(p, c, at, owner).node(p).children == self.node(p).children.insert(at, c),
            self.link(p, c, at, owner).node(p).parent == self.node(p).parent,
            self.link(p, c, at, owner).node(p).owner_document == self.node(p).owner_document,
            forall|n: RefNode|
                self.contains(n) && n != c && n != p ==> #[trigger] self.link(p, c, at, owner).node(n)
                    == self.node(n),
    {
        let g = self.link(p, c, at, owner);
        assert(self.is_inclusive_ancestor(p, p));
        assert(p != c);
        assert(self.node_wf(p));
        assert(self.node_wf(c));
        let kids = self.node(p).children;
        let grown = kids.insert(at, c);
        assert(!kids.contains(c)) by {
            if kids.contains(c) {
                let k = choose|k: int| 0 <= k < kids.len() && kids[k] == c;
                assert(self.node(kids[k]).parent == Some(p));
            }
        }
        assert(grown.no_duplicates()) by {
            assert forall|i: int, j: int| 0 <= i < grown.len() && 0 <= j < grown.len() && i != j
                implies grown[i] != grown[j] by {
                let a = if i < at { i } else { i - 1 };
                let b = if j < at { j } else { j - 1 };
                if i != at && j != at {
                    assert(grown[i] == kids[a]);
                    assert(grown[j] == kids[b]);
                } else if i == at {
                    assert(grown[j] == kids[b]);
                } else {
                    assert(grown[i] == kids[a]);
                }
            }
        }
        assert forall|n: RefNode| g.contains(n) implies #[trigger] g.node_wf(n) by {
            assert(self.node_wf(n));
            let v = g.node(n);
            if n == c {
                assert(grown[at] == c);
            } else if self.node(n).parent == Some(p) {
                let j = choose|j: int| 0 <= j < kids.len() && kids[j] == n;
                if j < at {
                    assert(grown[j] == n);
                } else {
                    assert(grown[j + 1] == n);
                }
            }
            assert forall|k: int| 0 <= k < v.children.len() implies g.contains(
                #[trigger] v.children[k],
            ) && g.node(v.children[k]).parent == Some(n) by {
                let x = v.children[k];
                if n == p {
                    if k < at {
                        assert(x == kids[k]);
                    } else if k > at {
                        assert(x == kids[k - 1]);
                    }
                } else {
                    assert(self.node(n).children[k] == x);
                    assert(self.node(x).parent == Some(n));
                }
            }
            assert(g.extension_wf(n));
        }
        self.lemma_reparent_acyclic(g, p, c);
    }
    /// Making a node without a parent a child, with the owner document of its parent, keeps
    /// the forest well formed under the same conditions.
    pub proof fn lemma_attach(self, p: RefNode, c: RefNode, at: int)
        requires
            self.wf(),
            self.contains(p),
            self.contains(c),
            self.node(c).parent is None,
            child_kind_allowed(self.kind(p), self.kind(c)),
            !self.is_inclusive_ancestor(c, p),
            0 <= at <= self.node(p).children.len(),
            self.fits_under(p, c),
        ensures
            self.attach(p, c, at).wf(),
            self.same_identities(self.attach(p, c, at)),
            self.attach(p, c, at).node(c).parent == Some(p),
            self.attach(p, c, at).node(c).owner_document == self.node(p).owner_document,
            self.attach(p, c, at).node(c).children == self.node(c).children,
            self.attach(p, c, at).node(p).children == self.node(p).children.insert(at, c),
            self.attach(p, c, at).node(p).parent == self.node(p).parent,
            self.attach(p, c, at).node(p).owner_document == self.node(p).owner_document,
            forall|n: RefNode|
                self.contains(n) && n != c && n != p ==> #[trigger] self.attach(p, c, at).node(n)
                    == self.node(n),
    {
        assert(self.node_wf(p));
        self.lemma_link(p, c, at, self.node(p).owner_document);
    }

    /// Another extension for a node keeps the forest well formed, provided that it is one
    /// of the node's kind and that what must hold of the handles it keeps does hold.
    #[verifier::rlimit(40)]
    pub proof fn lemma_with_extension(self, n: RefNode, extension: ExtensionView)
        requires
            self.wf(),
            self.contains(n),
            crate::node::extension_fits(self.kind(n), extension),
            self.with_extension(n, extension).extension_wf(n),
        ensures
            self.with_extension(n, extension).wf(),
    {
        let g = self.with_extension(n, extension);
        assert forall|x: RefNode| g.contains(x) implies #[trigger] g.node_wf(x) by {
            assert(self.node_wf(x));
            if x != n {
                assert(g.extension_wf(x));
            }
        }
        self.lemma_fewer_parents(g);
    }

    /// A node that is the parent of no node stands above no node but itself.
    pub proof fn lemma_childless_is_no_ancestor(self, x: RefNode, n: RefNode)
        requires
            self.wf(),
            self.contains(n),
            x != n,
            forall|m: RefNode| self.contains(m) ==> (#[trigger] self.node(m)).parent != Some(x),
        ensures
            !self.is_inclusive_ancestor(x, n),
        decreases self.climb(n),
    {
        if self.node(n).parent is Some {
            self.lemma_measures(n);
            self.lemma_childless_is_no_ancestor(x, self.node(n).parent->0);
        }
    }

    /// Whether `v` can join the forest as a new node: it is no document, has no parent and
    /// no children, an owner document that its kind can have and the extension of its
    /// kind, and keeps handles to nodes of the forest only; an element has no attributes
    /// yet.
    pub open spec fn admits(self, v: NodeView) -> bool {
        &&& v.parent is None
        &&& v.node_type != NodeType::Document
        &&& Self::owner_fits(v.node_type, v.owner_document)
        &&& v.children.len() == 0
        &&& self.contains_opt(v.owner_document)
        &&& crate::node::extension_fits(v.node_type, v.extension)
        &&& match v.extension {
            ExtensionView::Document { document_element, document_type } => {
                &&& document_element matches Some(e) ==> self.contains(e) && self.kind(e)
                    == NodeType::Element
                &&& document_type matches Some(t) ==> self.contains(t) && self.kind(t)
                    == NodeType::DocumentType
            },
            ExtensionView::Element { attributes, .. } => attributes.len() == 0,
            ExtensionView::DocumentType { entities, notations, .. } => entities.len() == 0
                && notations.len() == 0,
            _ => true,
        }
    }

    /// Whether `after` and `r` are what the making of a node leaves behind. Where `name`
    /// is one, the new node has the handle `self.next()`, which `r` hands out, and is of
    /// the given kind, name, value, owner and extension, with no parent and no children;
    /// no other node has changed. Where `name` is an error, `r` is that error and nothing
    /// has changed.
    pub open spec fn makes(
        self,
        after: Forest,
        r: Result<RefNode, Error>,
        name: Result<crate::name::NameView, Error>,
        node_type: NodeType,
        value: Option<Seq<char>>,
        owner: Option<RefNode>,
        extension: ExtensionView,
    ) -> bool {
        match name {
            Ok(n) => {
                &&& r == Ok::<RefNode, Error>(self.next())
                &&& after == self.with_new(
                    NodeView::detached(node_type, n, value, owner, extension),
                )
                &&& after.contains(self.next())
                &&& !self.contains(self.next())
            },
            Err(e) => r == Err::<RefNode, Error>(e) && after == self,
        }
    }

    /// A new node that the forest admits keeps it well formed, and changes no other node.
    #[verifier::rlimit(40)]
    pub proof fn lemma_with_new(self, v: NodeView)
        requires
            self.wf(),
            self.admits(v),
            self.nodes.len() < usize::MAX,
        ensures
            self.with_new(v).wf(),
            self.with_new(v).contains(self.next()),
            self.with_new(v).node(self.next()) == v,
            !self.contains(self.next()),
            forall|n: RefNode|
                self.contains(n) ==> #[trigger] self.with_new(v).node(n) == self.node(n),
            forall|n: RefNode| self.contains(n) ==> self.with_new(v).contains(n),
            forall|n: RefNode|
                self.with_new(v).contains(n) ==> (#[trigger] self.with_new(v).node(n)).parent
                    != Some(self.next()),
    {
        let g = self.with_new(v);
        let x = self.next();
        assert forall|n: RefNode| g.contains(n) implies #[trigger] g.node_wf(n) by {
            if n != x {
                assert(self.contains(n));
                assert(self.node_wf(n));
                assert(g.node(n) == self.node(n));
                assert forall|k: int| 0 <= k < g.node(n).children.len() implies g.contains(
                    #[trigger] g.node(n).children[k],
                ) && g.node(g.node(n).children[k]).parent == Some(n) by {
                    assert(self.contains(self.node(n).children[k]));
                }
                assert(g.extension_wf(n));
            } else {
                assert(g.extension_wf(n));
            }
        }
        self.lemma_ranking();
        let rb = self.ranking();
        let rank = rb.0.push(0nat);
        assert forall|n: RefNode|
            g.contains(n) && (#[trigger] g.node(n)).parent is Some implies g.contains(
            g.node(n).parent->0,
        ) && rank[n.index as int] < rank[g.node(n).parent->0.index as int] by {
            assert(n != x);
            assert(self.node(n).parent == g.node(n).parent);
        }
        assert(g.ranked_by(rank, rb.1));
        assert forall|n: RefNode| g.contains(n) implies (#[trigger] g.node(n)).parent != Some(
            x,
        ) by {
            if n != x {
                assert(self.node_wf(n));
            }
        }
    }

    /// Putting a node in the place of a child keeps the forest well formed; the place is
    /// that of the child once the node has been taken from where it was.
    pub proof fn lemma_replace_child(self, p: RefNode, c: RefNode, old_child: RefNode)
        requires
            self.wf(),
            self.contains(p),
            self.contains(c),
            self.contains(old_child),
            c != old_child,
            child_kind_allowed(self.kind(p), self.kind(c)),
            !self.is_inclusive_ancestor(c, p),
            self.fits_under(p, c),
        ensures
            self.replace_child(p, c, old_child) == self.insert_child(p, c, Some(old_child)).detach(
                old_child,
            ),
            self.insert_child(p, c, Some(old_child)).wf(),
            self.replace_child(p, c, old_child).wf(),
    {
        self.lemma_insert_child(p, c, Some(old_child));
        self.insert_child(p, c, Some(old_child)).lemma_detach(old_child);
    }

    /// The document that `n` belongs to: `n` itself if it is a document, else its owner.
    pub open spec fn home_document(self, n: RefNode) -> Option<RefNode> {
        if self.kind(n) == NodeType::Document {
            Some(n)
        } else {
            self.node(n).owner_document
        }
    }

    /// Whether `c` is owned by a document that is not the document of `p`. A node that no
    /// document owns is foreign nowhere.
    pub open spec fn is_foreign(self, p: RefNode, c: RefNode) -> bool {
        self.node(c).owner_document is Some && self.node(c).owner_document
            != self.home_document(p)
    }

    /// The element of the document `d` if `kind` is `Element`, its document type if `kind`
    /// is `DocumentType`, and nothing for any other kind or node.
    pub open spec fn slot(self, d: RefNode, kind: NodeType) -> Option<RefNode> {
        match self.node(d).extension {
            ExtensionView::Document { document_element, document_type } => match kind {
                NodeType::Element => document_element,
                NodeType::DocumentType => document_type,
                _ => None,
            },
            _ => None,
        }
    }

    /// Whether the document `p` already has a node of the kind of `c`, of which it can
    /// have but one: an element, or a document type. `c` itself and `leaving` do not count
    /// among the children.
    pub open spec fn is_crowded(self, p: RefNode, c: RefNode, leaving: Option<RefNode>) -> bool {
        &&& self.kind(p) == NodeType::Document
        &&& self.kind(c) == NodeType::Element || self.kind(c) == NodeType::DocumentType
        &&& {
            ||| self.slot(p, self.kind(c)) is Some
            ||| exists|k: int|
                0 <= k < self.node(p).children.len() && self.rivals(
                    #[trigger] self.node(p).children[k],
                    c,
                    leaving,
                )
        }
    }

    /// Whether `x` is a node of the kind of `c` other than `c` and `leaving`.
    pub open spec fn rivals(self, x: RefNode, c: RefNode, leaving: Option<RefNode>) -> bool {
        self.kind(x) == self.kind(c) && x != c && Some(x) != leaving
    }

    /// Why `c` cannot be made a child of `p`, if it cannot: the hierarchy forbids it where
    /// `p` admits no child of the kind of `c`, where `c` is `p` or one of its ancestors,
    /// and where `p` is a document that has its one node of that kind; else the documents
    /// may differ.
    pub open spec fn insertion_error(self, p: RefNode, c: RefNode, leaving: Option<RefNode>)
        -> Option<Error> {
        if !child_kind_allowed(self.kind(p), self.kind(c)) || self.is_inclusive_ancestor(c, p)
            || self.is_crowded(p, c, leaving) {
            Some(Error::HierarchyRequest)
        } else if self.is_foreign(p, c) {
            Some(Error::WrongDocument)
        } else {
            None
        }
    }

    /// What stands above a node after another has been taken from its parent stood above
    /// it before.
    pub proof fn lemma_detach_ancestors(self, c: RefNode, a: RefNode, n: RefNode)
        requires
            self.wf(),
            self.contains(c),
            self.contains(n),
            self.detach(c).is_inclusive_ancestor(a, n),
        ensures
            self.is_inclusive_ancestor(a, n),
        decreases self.detach(c).climb(n),
    {
        let d = self.detach(c);
        self.lemma_detach(c);
        if a != n {
            let q = d.node(n).parent->0;
            d.lemma_measures(n);
            assert(self.node(n).parent == Some(q));
            self.lemma_detach_ancestors(c, a, q);
        }
    }

    /// Making `c` a child of `p` keeps the forest well formed where nothing forbids it.
    #[verifier::rlimit(40)]
    pub proof fn lemma_insert_child(self, p: RefNode, c: RefNode, anchor: Option<RefNode>)
        requires
            self.wf(),
            self.contains(p),
            self.contains(c),
            child_kind_allowed(self.kind(p), self.kind(c)),
            !self.is_inclusive_ancestor(c, p),
            self.fits_under(p, c),
        ensures
            self.insert_child(p, c, anchor).wf(),
            self.same_identities(self.insert_child(p, c, anchor)),
            self.insert_child(p, c, anchor).node(c).parent == Some(p),
            self.insert_child(p, c, anchor).node(c).owner_document == self.node(p).owner_document,
            self.insert_child(p, c, anchor).node(p).owner_document == self.node(p).owner_document,
            self.insert_child(p, c, anchor).node(c).children == self.node(c).children,
            self.insert_child(p, c, anchor).node(p).children == without(
                self.node(p).children,
                c,
            ).insert(
                Self::insertion_point(without(self.node(p).children, c), anchor),
                c,
            ),
            0 <= Self::insertion_point(without(self.node(p).children, c), anchor) <= without(
                self.node(p).children,
                c,
            ).len(),
    {
        let d = self.detach(c);
        self.lemma_detach(c);
        assert(self.is_inclusive_ancestor(p, p));
        assert(p != c);
        assert(self.node_wf(p));
        assert(d.node(p).children == without(self.node(p).children, c)) by {
            if self.node(c).parent != Some(p) {
                assert(!self.node(p).children.contains(c)) by {
                    if self.node(p).children.contains(c) {
                        let k = choose|k: int|
                            0 <= k < self.node(p).children.len() && self.node(p).children[k] == c;
                        assert(self.node(self.node(p).children[k]).parent == Some(p));
                    }
                }
                lemma_position_of_stranger(self.node(p).children, c);
            }
        }
        let at = Self::insertion_point(d.node(p).children, anchor);
        if anchor is Some {
            lemma_position_from(d.node(p).children, anchor->0, 0);
        }
        if d.is_inclusive_ancestor(c, p) {
            self.lemma_detach_ancestors(c, c, p);
        }
        d.lemma_attach(p, c, at);
        let g = d.attach(p, c, at);
        assert(self.same_identities(g)) by {
            assert forall|n: RefNode| self.contains(n) implies (#[trigger] g.node(n)).node_type
                == self.node(n).node_type && g.node(n).name == self.node(n).name && g.node(
                n,
            ).extension == self.node(n).extension && g.node(n).value == self.node(n).value by {
                assert(d.node(n).node_type == self.node(n).node_type);
            }
        }
    }
}

} // verus!
