//! The operations that every node offers: reading its state, walking to its relatives, and
//! changing the shape of the tree.

use vstd::prelude::*;
use crate::arena::NodeArena;
use crate::error::Error;
use crate::forest::{child_kind_allowed, lemma_position_from, position, position_from, Forest};
use crate::name::Name;
use crate::node::{Extension, NodeType, NodeView, RefNode};
use crate::node_impl::{clone_handles, NodeImpl};
use crate::text::clone_opt_string;
use crate::traits::Node;

verus! {

impl Forest {
    /// The forest in which the node `n` has the value `value`.
    pub open spec fn with_value(self, n: RefNode, value: Option<Seq<char>>) -> Forest {
        self.with_node(n, NodeView { value, ..self.node(n) })
    }

    /// The first child of `n`, if it has children.
    pub open spec fn first_child(self, n: RefNode) -> Option<RefNode> {
        let kids = self.node(n).children;
        if kids.len() > 0 {
            Some(kids[0])
        } else {
            None
        }
    }

    /// The last child of `n`, if it has children.
    pub open spec fn last_child(self, n: RefNode) -> Option<RefNode> {
        let kids = self.node(n).children;
        if kids.len() > 0 {
            Some(kids[kids.len() - 1])
        } else {
            None
        }
    }

    /// The child of the parent of `n` that stands just behind `n`, if there is one.
    pub open spec fn next_sibling(self, n: RefNode) -> Option<RefNode> {
        match self.node(n).parent {
            None => None,
            Some(p) => {
                let kids = self.node(p).children;
                let at = position(kids, n);
                if at + 1 < kids.len() {
                    Some(kids[at + 1])
                } else {
                    None
                }
            },
        }
    }

    /// The child of the parent of `n` that stands just before `n`, if there is one.
    pub open spec fn previous_sibling(self, n: RefNode) -> Option<RefNode> {
        match self.node(n).parent {
            None => None,
            Some(p) => {
                let kids = self.node(p).children;
                let at = position(kids, n);
                if 0 < at < kids.len() {
                    Some(kids[at - 1])
                } else {
                    None
                }
            },
        }
    }

    /// Why `c` cannot take the place of `old_child` under `p`, if it cannot: what forbids
    /// the insertion of `c`, where `old_child` does not count against it, or else that
    /// `old_child` is no child of `p`.
    pub open spec fn replacement_error(self, p: RefNode, c: RefNode, old_child: RefNode) -> Option<
        Error,
    > {
        match self.insertion_error(p, c, Some(old_child)) {
            Some(e) => Some(e),
            None => if self.node(p).children.contains(old_child) {
                None
            } else {
                Some(Error::NotFound)
            },
        }
    }

    /// A change of value keeps the forest well formed.
    pub proof fn lemma_with_value(self, n: RefNode, value: Option<Seq<char>>)
        requires
            self.wf(),
            self.contains(n),
        ensures
            self.with_value(n, value).wf(),
    {
        let g = self.with_value(n, value);
        assert forall|x: RefNode| g.contains(x) implies #[trigger] g.node_wf(x) by {
            assert(self.node_wf(x));
            assert(g.extension_wf(x));
        }
        self.lemma_fewer_parents(g);
    }
}

/// The first index at which `x` stands in `kids`, or their number if it stands nowhere.
pub fn index_in(kids: &Vec<RefNode>, x: RefNode) -> (r: usize)
    ensures
        r == position(kids@, x),
        r <= kids@.len(),
        r < kids@.len() ==> kids@[r as int] == x,
        r == kids@.len() ==> !kids@.contains(x),
{
    let mut i: usize = 0;
    proof {
        lemma_position_from(kids@, x, 0);
    }
    while i < kids.len()
        invariant
            0 <= i <= kids.len(),
            position(kids@, x) == position_from(kids@, x, i as int),
            forall|j: int| 0 <= j < i ==> kids@[j] != x,
        decreases kids.len() - i,
    {
        if kids[i] == x {
            return i;
        }
        i = i + 1;
    }
    i
}

/// Whether a parent of kind `parent` admits a child of kind `child`.
pub fn kind_allowed(parent: NodeType, child: NodeType) -> (r: bool)
    ensures
        r == child_kind_allowed(parent, child),
{
    match parent {
        NodeType::Document => match child {
            NodeType::Element
            | NodeType::Comment
            | NodeType::ProcessingInstruction
            | NodeType::DocumentType => true,
            _ => false,
        },
        NodeType::DocumentFragment
        | NodeType::Element
        | NodeType::EntityReference
        | NodeType::Entity => match child {
            NodeType::Element
            | NodeType::Text
            | NodeType::Comment
            | NodeType::ProcessingInstruction
            | NodeType::CData
            | NodeType::EntityReference => true,
            _ => false,
        },
        NodeType::Attribute => match child {
            NodeType::Text | NodeType::EntityReference => true,
            _ => false,
        },
        _ => false,
    }
}

/// Whether the kind of `parent` admits a child of the kind of `child`.
pub fn is_child_allowed(arena: &NodeArena, parent: RefNode, child: RefNode) -> (r: bool)
    requires
        arena@.contains(parent),
        arena@.contains(child),
    ensures
        r == child_kind_allowed(arena@.kind(parent), arena@.kind(child)),
{
    kind_allowed(arena.record(parent).node_type(), arena.record(child).node_type())
}

impl NodeArena {
    /// Whether `a` is `n` or an ancestor of `n`.
    pub fn is_inclusive_ancestor(&self, a: RefNode, n: RefNode) -> (r: bool)
        requires
            self@.wf(),
            self@.contains(n),
        ensures
            r == self@.is_inclusive_ancestor(a, n),
    {
        let mut cur = n;
        loop
            invariant
                self@.wf(),
                self@.contains(cur),
                self@.is_inclusive_ancestor(a, n) == self@.is_inclusive_ancestor(a, cur),
            decreases self@.climb(cur),
        {
            if cur == a {
                return true;
            }
            match self.record(cur).parent_node() {
                None => {
                    return false;
                },
                Some(w) => {
                    proof {
                        self@.lemma_measures(cur);
                    }
                    cur = RefNode { index: w.index };
                },
            }
        }
    }

    /// Whether the document `p` already has its one node of the kind of `c`.
    #[verifier::rlimit(40)]
    pub fn is_crowded(&self, p: RefNode, c: RefNode, leaving: Option<RefNode>) -> (r: bool)
        requires
            self@.wf(),
            self@.contains(p),
            self@.contains(c),
        ensures
            r == self@.is_crowded(p, c, leaving),
    {
        let kind = self.record(c).node_type();
        if self.record(p).node_type() != NodeType::Document {
            return false;
        }
        if kind != NodeType::Element && kind != NodeType::DocumentType {
            return false;
        }
        proof {
            assert(self@.node_wf(p));
        }
        let taken = match self.record(p).extension() {
            Extension::Document { i_document_element, i_document_type } => {
                if kind == NodeType::Element {
                    i_document_element.is_some()
                } else {
                    i_document_type.is_some()
                }
            },
            _ => false,
        };
        if taken {
            return true;
        }
        let kids = self.record(p).child_nodes();
        let mut i: usize = 0;
        while i < kids.len()
            invariant
                self@.wf(),
                self@.contains(p),
                self@.contains(c),
                kids@ == self@.node(p).children,
                kind == self@.kind(c),
                kind == NodeType::Element || kind == NodeType::DocumentType,
                self@.kind(p) == NodeType::Document,
                self@.slot(p, kind) is None,
                0 <= i <= kids.len(),
                forall|k: int| 0 <= k < i ==> !self@.rivals(#[trigger] kids@[k], c, leaving),
            decreases kids.len() - i,
        {
            let x = kids[i];
            proof {
                assert(self@.node_wf(p));
                assert(self@.contains(kids@[i as int]));
            }
            let leaves = match leaving {
                Some(l) => l == x,
                None => false,
            };
            if self.record(x).node_type() == kind && x != c && !leaves {
                assert(self@.rivals(self@.node(p).children[i as int], c, leaving));
                return true;
            }
            i = i + 1;
        }
        false
    }

    /// Why `c` cannot be made a child of `p`, if it cannot.
    pub fn insertion_error(&self, p: RefNode, c: RefNode, leaving: Option<RefNode>) -> (r: Option<
        Error,
    >)
        requires
            self@.wf(),
            self@.contains(p),
            self@.contains(c),
        ensures
            r == self@.insertion_error(p, c, leaving),
    {
        if !is_child_allowed(self, p, c) || self.is_inclusive_ancestor(c, p) || self.is_crowded(
            p,
            c,
            leaving,
        ) {
            return Some(Error::HierarchyRequest);
        }
        let home = if self.record(p).node_type() == NodeType::Document {
            Some(p)
        } else {
            match self.record(p).owner_document() {
                None => None,
                Some(w) => Some(RefNode { index: w.index }),
            }
        };
        match self.record(c).owner_document() {
            None => None,
            Some(w) => {
                let owner = RefNode { index: w.index };
                let same = match home {
                    Some(h) => h == owner,
                    None => false,
                };
                if same {
                    None
                } else {
                    Some(Error::WrongDocument)
                }
            },
        }
    }

    /// Holds `node` as a new node of the tree and hands out its handle.
    pub(crate) fn create(&mut self, node: NodeImpl) -> (r: RefNode)
        requires
            old(self)@.wf(),
            old(self)@.admits(node@),
        ensures
            r == old(self)@.next(),
            final(self)@ == old(self)@.with_new(node@),
            final(self)@.wf(),
            final(self)@.contains(r),
            !old(self)@.contains(r),
            final(self)@.node(r) == node@,
            forall|n: RefNode| old(self)@.contains(n) ==> final(self)@.contains(n),
            forall|n: RefNode|
                old(self)@.contains(n) ==> #[trigger] final(self)@.node(n) == old(self)@.node(n),
    {
        let r = self.add(node);
        proof {
            old(self)@.lemma_with_new(node@);
        }
        r
    }

    /// Takes `c` from its parent, if it has one.
    #[verifier::rlimit(40)]
    pub(crate) fn detach(&mut self, c: RefNode)
        requires
            old(self)@.wf(),
            old(self)@.contains(c),
        ensures
            final(self)@ == old(self)@.detach(c),
            final(self)@.wf(),
    {
        proof {
            self@.lemma_detach(c);
            assert(self@.node_wf(c));
        }
        match self.record(c).parent_node() {
            None => {},
            Some(w) => {
                let p = RefNode { index: w.index };
                let at = index_in(self.record(p).child_nodes(), c);
                if at < self.record(p).child_nodes().len() {
                    self.remove_child_of(p, at);
                } else {
                    assert(self@ == old(self)@.with_node(p, old(self)@.node(p))) by {
                        assert(old(self)@.nodes =~= old(self)@.nodes.update(
                            p.index as int,
                            old(self)@.node(p),
                        ));
                    }
                }
                self.set_parent_of(c, None);
            },
        }
    }

    /// Makes `c`, which has no parent, the child of `p` that stands at `at`.
    #[verifier::rlimit(40)]
    pub(crate) fn attach(&mut self, p: RefNode, c: RefNode, at: usize)
        requires
            old(self)@.contains(p),
            old(self)@.contains(c),
            at <= old(self)@.node(p).children.len(),
        ensures
            final(self)@ == old(self)@.attach(p, c, at as int),
    {
        let owner = self.record(p).owner_document();
        self.insert_child_of(p, at, c);
        self.set_parent_of(c, Some(p.downgrade()));
        self.set_owner_of(c, owner);
        assert(self@.nodes =~= old(self)@.attach(p, c, at as int).nodes);
    }

    /// Takes `c` from where it is and makes it a child of `p`, before `anchor` or last.
    #[verifier::rlimit(40)]
    pub(crate) fn place(&mut self, p: RefNode, c: RefNode, anchor: Option<RefNode>)
        requires
            old(self)@.wf(),
            old(self)@.contains(p),
            old(self)@.contains(c),
            child_kind_allowed(old(self)@.kind(p), old(self)@.kind(c)),
            !old(self)@.is_inclusive_ancestor(c, p),
            old(self)@.fits_under(p, c),
        ensures
            final(self)@ == old(self)@.insert_child(p, c, anchor),
            final(self)@.wf(),
    {
        proof {
            self@.lemma_insert_child(p, c, anchor);
            self@.lemma_detach(c);
        }
        self.detach(c);
        let kids = self.record(p).child_nodes();
        let at = match anchor {
            None => kids.len(),
            Some(r) => index_in(kids, r),
        };
        self.attach(p, c, at);
    }
}

impl Node for NodeArena {
    open spec fn forest(&self) -> Forest {
        self@
    }

    fn name(&self, node: RefNode) -> (r: Name) {
        self.record(node).name().clone()
    }

    fn node_value(&self, node: RefNode) -> (r: Option<String>) {
        clone_opt_string(self.record(node).value())
    }

    fn set_node_value(&mut self, node: RefNode, value: &str) -> (r: Result<(), Error>) {
        proof {
            self@.lemma_with_value(node, Some(value@));
        }
        self.set_value_of(node, Some(value.to_owned()));
        Ok(())
    }

    fn unset_node_value(&mut self, node: RefNode) -> (r: Result<(), Error>) {
        proof {
            self@.lemma_with_value(node, None);
        }
        self.set_value_of(node, None);
        Ok(())
    }

    fn node_type(&self, node: RefNode) -> (r: NodeType) {
        self.record(node).node_type()
    }

    fn parent_node(&self, node: RefNode) -> (r: Option<RefNode>) {
        proof {
            assert(self@.node_wf(node));
        }
        match self.record(node).parent_node() {
            None => None,
            Some(w) => self.upgrade(w),
        }
    }

    fn child_nodes(&self, node: RefNode) -> (r: Vec<RefNode>) {
        proof {
            assert(self@.node_wf(node));
        }
        clone_handles(self.record(node).child_nodes())
    }

    fn first_child(&self, node: RefNode) -> (r: Option<RefNode>) {
        proof {
            assert(self@.node_wf(node));
        }
        let kids = self.record(node).child_nodes();
        if kids.len() > 0 {
            Some(kids[0])
        } else {
            None
        }
    }

    fn last_child(&self, node: RefNode) -> (r: Option<RefNode>) {
        proof {
            assert(self@.node_wf(node));
        }
        let kids = self.record(node).child_nodes();
        if kids.len() > 0 {
            Some(kids[kids.len() - 1])
        } else {
            None
        }
    }

    fn previous_sibling(&self, node: RefNode) -> (r: Option<RefNode>) {
        proof {
            assert(self@.node_wf(node));
        }
        match self.record(node).parent_node() {
            None => None,
            Some(w) => {
                let p = RefNode { index: w.index };
                proof {
                    assert(self@.node_wf(p));
                }
                let kids = self.record(p).child_nodes();
                let at = index_in(kids, node);
                if 0 < at && at < kids.len() {
                    Some(kids[at - 1])
                } else {
                    None
                }
            },
        }
    }

    fn next_sibling(&self, node: RefNode) -> (r: Option<RefNode>) {
        proof {
            assert(self@.node_wf(node));
        }
        match self.record(node).parent_node() {
            None => None,
            Some(w) => {
                let p = RefNode { index: w.index };
                proof {
                    assert(self@.node_wf(p));
                }
                let kids = self.record(p).child_nodes();
                let at = index_in(kids, node);
                if at < kids.len() && at + 1 < kids.len() {
                    Some(kids[at + 1])
                } else {
                    None
                }
            },
        }
    }

    fn attributes(&self, node: RefNode) -> (r: Vec<RefNode>) {
        proof {
            assert(self@.node_wf(node));
        }
        match self.record(node).extension() {
            Extension::Element { i_attributes, .. } => clone_handles(i_attributes),
            _ => Vec::new(),
        }
    }

    fn owner_document(&self, node: RefNode) -> (r: Option<RefNode>) {
        proof {
            assert(self@.node_wf(node));
        }
        match self.record(node).owner_document() {
            None => None,
            Some(w) => self.upgrade(w),
        }
    }

    fn insert_before(&mut self, node: RefNode, new_child: RefNode, ref_child: Option<RefNode>) -> (r:
        Result<RefNode, Error>) {
        match self.insertion_error(node, new_child, None) {
            Some(e) => Err(e),
            None => {
                proof {
                    self@.lemma_insertion_fits(node, new_child, None);
                }
                self.place(node, new_child, ref_child);
                Ok(new_child)
            },
        }
    }

    #[verifier::rlimit(40)]

    fn replace_child(&mut self, node: RefNode, new_child: RefNode, old_child: RefNode) -> (r:
        Result<RefNode, Error>) {
        match self.insertion_error(node, new_child, Some(old_child)) {
            Some(e) => {
                return Err(e);
            },
            None => {},
        }
        let at = index_in(self.record(node).child_nodes(), old_child);
        if at == self.record(node).child_nodes().len() {
            return Err(Error::NotFound);
        }
        if new_child == old_child {
            return Ok(old_child);
        }
        proof {
            self@.lemma_insertion_fits(node, new_child, Some(old_child));
            self@.lemma_replace_child(node, new_child, old_child);
        }
        self.place(node, new_child, Some(old_child));
        self.detach(old_child);
        Ok(old_child)
    }

    fn remove_child(&mut self, node: RefNode, old_child: RefNode) -> (r: Result<RefNode, Error>) {
        let at = index_in(self.record(node).child_nodes(), old_child);
        if at == self.record(node).child_nodes().len() {
            return Err(Error::NotFound);
        }
        proof {
            assert(self@.node_wf(node));
        }
        self.detach(old_child);
        Ok(old_child)
    }

    fn append_child(&mut self, node: RefNode, new_child: RefNode) -> (r: Result<RefNode, Error>) {
        match self.insertion_error(node, new_child, None) {
            Some(e) => Err(e),
            None => {
                proof {
                    self@.lemma_insertion_fits(node, new_child, None);
                }
                self.place(node, new_child, None);
                Ok(new_child)
            },
        }
    }

    fn clone_node(&mut self, node: RefNode, deep: bool) -> (r: Option<RefNode>) {
        self.copy(node, deep)
    }

    fn normalize(&mut self, node: RefNode) {
        self.normalize_tree(node)
    }

    fn is_supported(&self, node: RefNode, feature: &str, version: &str) -> (r: bool) {
        crate::dom_impl::get_implementation().has_feature(feature, version)
    }

    fn has_child_nodes(&self, node: RefNode) -> (r: bool) {
        self.record(node).child_nodes().len() > 0
    }

    fn has_attributes(&self, node: RefNode) -> (r: bool) {
        match self.record(node).extension() {
            Extension::Element { i_attributes, .. } => i_attributes.len() > 0,
            _ => false,
        }
    }
}

} // verus!
