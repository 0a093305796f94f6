//! The arena: the store that holds every node, and that handles refer into.

use vstd::prelude::*;
use crate::forest::Forest;
use crate::node::{opt_target, ExtensionView, NamespaceBinding, NodeView, RefNode, WeakRefNode};
use crate::node_impl::{put, NodeImpl};
use crate::text::opt_view;

verus! {

/// A store of nodes. Documents and all their nodes are made in an arena and live as long
/// as it does; a [`RefNode`] names one of them.
#[derive(Debug)]
pub struct NodeArena {
    nodes: Vec<NodeImpl>,
}

impl View for NodeArena {
    type V = Forest;

    closed spec fn view(&self) -> Forest {
        Forest { nodes: Seq::new(self.nodes@.len(), |i: int| self.nodes@[i]@) }
    }
}

impl Default for NodeArena {
    /// An arena that holds no node.
    fn default() -> (r: NodeArena)
        ensures
            r@.nodes.len() == 0,
            r@.wf(),
    {
        NodeArena::new()
    }
}

impl NodeArena {
    /// An arena that holds no node.
    pub fn new() -> (r: NodeArena)
        ensures
            r@.nodes.len() == 0,
            r@.wf(),
    {
        let r = NodeArena { nodes: Vec::new() };
        proof {
            assert(r@.ranked_by(Seq::<nat>::empty(), 0nat));
        }
        r
    }

    /// The number of nodes that the arena holds.
    pub fn len(&self) -> (r: usize)
        ensures
            r == self@.nodes.len(),
    {
        self.nodes.len()
    }

    /// Whether `node` is a handle to a node of this arena.
    pub fn contains(&self, node: RefNode) -> (r: bool)
        ensures
            r == self@.contains(node),
    {
        node.index < self.nodes.len()
    }

    /// The owning handle to the node that `weak` refers to, or nothing where this arena
    /// holds no such node.
    pub fn upgrade(&self, weak: WeakRefNode) -> (r: Option<RefNode>)
        ensures
            r == if self@.contains(weak.target()) {
                Some(weak.target())
            } else {
                None
            },
    {
        if weak.index < self.nodes.len() {
            Some(RefNode { index: weak.index })
        } else {
            None
        }
    }

    /// The record of the node `n`.
    pub(crate) fn record(&self, n: RefNode) -> (r: &NodeImpl)
        requires
            self@.contains(n),
        ensures
            r@ == self@.node(n),
    {
        &self.nodes[n.index]
    }

    /// Holds `node` as a new node and hands out its handle.
    pub(crate) fn add(&mut self, node: NodeImpl) -> (r: RefNode)
        ensures
            r == old(self)@.next(),
            final(self)@ == old(self)@.with_new(node@),
            old(self)@.nodes.len() < usize::MAX,
    {
        let r = RefNode { index: self.nodes.len() };
        self.nodes.push(node);
        let _ = self.nodes.len();
        assert(self@.nodes =~= old(self)@.with_new(node@).nodes);
        r
    }

    /// Gives the node `n` the value `value`, or none.
    pub(crate) fn set_value_of(&mut self, n: RefNode, value: Option<String>)
        requires
            old(self)@.contains(n),
        ensures
            final(self)@ == old(self)@.with_node(
                n,
                NodeView { value: opt_view(value), ..old(self)@.node(n) },
            ),
    {
        self.nodes[n.index].set_value(value);
        assert(self@.nodes =~= old(self)@.nodes.update(n.index as int, self.nodes@[n.index as int]@));
    }

    /// Gives the node `n` the parent `parent`, or none. The children of the parent are left as
    /// they are.
    pub(crate) fn set_parent_of(&mut self, n: RefNode, parent: Option<WeakRefNode>)
        requires
            old(self)@.contains(n),
        ensures
            final(self)@ == old(self)@.with_node(
                n,
                NodeView { parent: opt_target(parent), ..old(self)@.node(n) },
            ),
    {
        self.nodes[n.index].set_parent_node(parent);
        assert(self@.nodes =~= old(self)@.nodes.update(n.index as int, self.nodes@[n.index as int]@));
    }

    /// Gives the node `n` the owner document `owner`, or none.
    pub(crate) fn set_owner_of(&mut self, n: RefNode, owner: Option<WeakRefNode>)
        requires
            old(self)@.contains(n),
        ensures
            final(self)@ == old(self)@.with_node(
                n,
                NodeView { owner_document: opt_target(owner), ..old(self)@.node(n) },
            ),
    {
        self.nodes[n.index].set_owner_document(owner);
        assert(self@.nodes =~= old(self)@.nodes.update(n.index as int, self.nodes@[n.index as int]@));
    }

    /// Lists `child` among the children of `n`, at `at`. The parent of `child` is left as it
    /// is.
    pub(crate) fn insert_child_of(&mut self, n: RefNode, at: usize, child: RefNode)
        requires
            old(self)@.contains(n),
            at <= old(self)@.node(n).children.len(),
        ensures
            final(self)@ == old(self)@.with_node(
                n,
                NodeView {
                    children: old(self)@.node(n).children.insert(at as int, child),
                    ..old(self)@.node(n)
                },
            ),
    {
        self.nodes[n.index].insert_child(at, child);
        assert(self@.nodes =~= old(self)@.nodes.update(n.index as int, self.nodes@[n.index as int]@));
    }

    /// Takes the child that stands at `at` from the list of the children of `n`. The parent of
    /// that child is left as it is.
    pub(crate) fn remove_child_of(&mut self, n: RefNode, at: usize)
        requires
            old(self)@.contains(n),
            at < old(self)@.node(n).children.len(),
        ensures
            final(self)@ == old(self)@.with_node(
                n,
                NodeView {
                    children: old(self)@.node(n).children.remove(at as int),
                    ..old(self)@.node(n)
                },
            ),
    {
        self.nodes[n.index].remove_child(at);
        assert(self@.nodes =~= old(self)@.nodes.update(n.index as int, self.nodes@[n.index as int]@));
    }

    /// Records `element` as the element of the document `n`.
    pub(crate) fn set_document_element_of(&mut self, n: RefNode, element: Option<RefNode>)
        requires
            old(self)@.contains(n),
            old(self)@.node(n).extension is Document,
        ensures
            final(self)@ == old(self)@.with_extension(
                n,
                ExtensionView::Document {
                    document_element: element,
                    document_type: old(self)@.node(n).extension->document_type,
                },
            ),
    {
        self.nodes[n.index].set_document_element(element);
        assert(self@.nodes =~= old(self)@.nodes.update(n.index as int, self.nodes@[n.index as int]@));
    }

    /// Lists `attribute` behind the attributes of the element `n`.
    pub(crate) fn push_attribute_of(&mut self, n: RefNode, attribute: RefNode)
        requires
            old(self)@.contains(n),
            old(self)@.node(n).extension is Element,
        ensures
            final(self)@ == old(self)@.with_extension(
                n,
                ExtensionView::Element {
                    attributes: old(self)@.node(n).attributes().push(attribute),
                    namespaces: old(self)@.node(n).namespaces(),
                },
            ),
    {
        self.nodes[n.index].push_attribute(attribute);
        assert(self@.nodes =~= old(self)@.nodes.update(n.index as int, self.nodes@[n.index as int]@));
    }

    /// Lists `attribute` in the place of the attribute of the element `n` that stands at `at`.
    pub(crate) fn set_attribute_of(&mut self, n: RefNode, at: usize, attribute: RefNode)
        requires
            old(self)@.contains(n),
            old(self)@.node(n).extension is Element,
            at < old(self)@.node(n).attributes().len(),
        ensures
            final(self)@ == old(self)@.with_extension(
                n,
                ExtensionView::Element {
                    attributes: old(self)@.node(n).attributes().update(at as int, attribute),
                    namespaces: old(self)@.node(n).namespaces(),
                },
            ),
    {
        self.nodes[n.index].set_attribute_at(at, attribute);
        assert(self@.nodes =~= old(self)@.nodes.update(n.index as int, self.nodes@[n.index as int]@));
    }

    /// Takes the attribute that stands at `at` from the attributes of the element `n`.
    pub(crate) fn remove_attribute_of(&mut self, n: RefNode, at: usize)
        requires
            old(self)@.contains(n),
            old(self)@.node(n).extension is Element,
            at < old(self)@.node(n).attributes().len(),
        ensures
            final(self)@ == old(self)@.with_extension(
                n,
                ExtensionView::Element {
                    attributes: old(self)@.node(n).attributes().remove(at as int),
                    namespaces: old(self)@.node(n).namespaces(),
                },
            ),
    {
        self.nodes[n.index].remove_attribute_at(at);
        assert(self@.nodes =~= old(self)@.nodes.update(n.index as int, self.nodes@[n.index as int]@));
    }

    /// Lists `binding` behind the namespace bindings of the element `n`.
    pub(crate) fn push_binding_of(&mut self, n: RefNode, binding: NamespaceBinding)
        requires
            old(self)@.contains(n),
            old(self)@.node(n).extension is Element,
        ensures
            final(self)@ == old(self)@.with_extension(
                n,
                ExtensionView::Element {
                    attributes: old(self)@.node(n).attributes(),
                    namespaces: old(self)@.node(n).namespaces().push(binding@),
                },
            ),
    {
        self.nodes[n.index].push_binding(binding);
        assert(self@.nodes =~= old(self)@.nodes.update(n.index as int, self.nodes@[n.index as int]@));
    }

    /// Lists `binding` in the place of the namespace binding of the element `n` that stands at
    /// `at`.
    pub(crate) fn set_binding_of(&mut self, n: RefNode, at: usize, binding: NamespaceBinding)
        requires
            old(self)@.contains(n),
            old(self)@.node(n).extension is Element,
            at < old(self)@.node(n).namespaces().len(),
        ensures
            final(self)@ == old(self)@.with_extension(
                n,
                ExtensionView::Element {
                    attributes: old(self)@.node(n).attributes(),
                    namespaces: old(self)@.node(n).namespaces().update(at as int, binding@),
                },
            ),
    {
        self.nodes[n.index].set_binding_at(at, binding);
        assert(self@.nodes =~= old(self)@.nodes.update(n.index as int, self.nodes@[n.index as int]@));
    }

    /// Lists `entity` among the entities of the document type `n`: in the place of the one at
    /// `at`, or behind them all.
    pub(crate) fn put_entity_of(&mut self, n: RefNode, at: usize, entity: RefNode)
        requires
            old(self)@.contains(n),
            old(self)@.node(n).extension is DocumentType,
            at <= old(self)@.node(n).extension->entities.len(),
        ensures
            final(self)@ == old(self)@.with_extension(
                n,
                ExtensionView::DocumentType {
                    entities: put(old(self)@.node(n).extension->entities, at as int, entity),
                    notations: old(self)@.node(n).extension->notations,
                    public_id: old(self)@.node(n).extension->DocumentType_public_id,
                    system_id: old(self)@.node(n).extension->DocumentType_system_id,
                    internal_subset: old(self)@.node(n).extension->internal_subset,
                },
            ),
    {
        self.nodes[n.index].put_entity(at, entity);
        assert(self@.nodes =~= old(self)@.nodes.update(n.index as int, self.nodes@[n.index as int]@));
    }

    /// Lists `notation` among the notations of the document type `n`: in the place of the one
    /// at `at`, or behind them all.
    pub(crate) fn put_notation_of(&mut self, n: RefNode, at: usize, notation: RefNode)
        requires
            old(self)@.contains(n),
            old(self)@.node(n).extension is DocumentType,
            at <= old(self)@.node(n).extension->notations.len(),
        ensures
            final(self)@ == old(self)@.with_extension(
                n,
                ExtensionView::DocumentType {
                    entities: old(self)@.node(n).extension->entities,
                    notations: put(old(self)@.node(n).extension->notations, at as int, notation),
                    public_id: old(self)@.node(n).extension->DocumentType_public_id,
                    system_id: old(self)@.node(n).extension->DocumentType_system_id,
                    internal_subset: old(self)@.node(n).extension->internal_subset,
                },
            ),
    {
        self.nodes[n.index].put_notation(at, notation);
        assert(self@.nodes =~= old(self)@.nodes.update(n.index as int, self.nodes@[n.index as int]@));
    }
}

} // verus!
