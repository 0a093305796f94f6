//! The record that holds the state of one node, whatever its kind.

use vstd::prelude::*;
use crate::name::Name;
use crate::node::{
    bindings_view, opt_target, Extension, ExtensionView, NamespaceBinding, NodeType, NodeView,
    RefNode, WeakRefNode,
};
use crate::text::{opt_view, own_opt_str, str_view};

verus! {

/// The state of one node: what every node has, and the extension of its kind.
#[derive(Debug)]
pub struct NodeImpl {
    i_node_type: NodeType,
    i_name: Name,
    i_value: Option<String>,
    i_parent_node: Option<WeakRefNode>,
    i_owner_document: Option<WeakRefNode>,
    i_child_nodes: Vec<RefNode>,
    i_extension: Extension,
}

impl View for NodeImpl {
    type V = NodeView;

    closed spec fn view(&self) -> NodeView {
        NodeView {
            node_type: self.i_node_type,
            name: self.i_name@,
            value: opt_view(self.i_value),
            parent: opt_target(self.i_parent_node),
            owner_document: opt_target(self.i_owner_document),
            children: self.i_child_nodes@,
            extension: self.i_extension@,
        }
    }
}

/// `list` with `x` in the place of the item that stands at `at`, or behind all the items
/// where `at` is not the place of one.
pub open spec fn put(list: Seq<RefNode>, at: int, x: RefNode) -> Seq<RefNode> {
    if 0 <= at < list.len() {
        list.update(at, x)
    } else {
        list.push(x)
    }
}

/// A copy of a list of handles.
pub fn clone_handles(v: &Vec<RefNode>) -> (r: Vec<RefNode>)
    ensures
        r@ == v@,
{
    let mut r: Vec<RefNode> = Vec::new();
    let mut i: usize = 0;
    while i < v.len()
        invariant
            0 <= i <= v.len(),
            r@ == v@.subrange(0, i as int),
        decreases v.len() - i,
    {
        r.push(v[i]);
        assert(v@.subrange(0, i as int).push(v@[i as int]) =~= v@.subrange(0, i + 1));
        i = i + 1;
    }
    assert(v@.subrange(0, v@.len() as int) =~= v@);
    r
}

impl NodeImpl {
    /// A node of the given kind, name, value and extension, owned by `owner`, with no
    /// parent and no children.
    pub(crate) fn new(
        node_type: NodeType,
        name: Name,
        value: Option<String>,
        owner: Option<WeakRefNode>,
        extension: Extension,
    ) -> (r: NodeImpl)
        ensures
            r@ == NodeView::detached(
                node_type,
                name@,
                opt_view(value),
                opt_target(owner),
                extension@,
            ),
    {
        NodeImpl {
            i_node_type: node_type,
            i_name: name,
            i_value: value,
            i_parent_node: None,
            i_owner_document: owner,
            i_child_nodes: Vec::new(),
            i_extension: extension,
        }
    }

    /// An element named `name`, with no attributes and no namespace bindings.
    pub fn new_element(owner: WeakRefNode, name: Name) -> (r: NodeImpl)
        ensures
            r@ == NodeView::detached(
                NodeType::Element,
                name@,
                None,
                Some(owner.target()),
                ExtensionView::Element { attributes: Seq::empty(), namespaces: Seq::empty() },
            ),
    {
        let extension = Extension::Element { i_attributes: Vec::new(), i_namespaces: Vec::new() };
        assert(bindings_view(Seq::<NamespaceBinding>::empty()) =~= Seq::empty());
        NodeImpl::new(NodeType::Element, name, None, Some(owner), extension)
    }

    /// An attribute named `name`, with the value `value` if one is given.
    pub fn new_attribute(owner: WeakRefNode, name: Name, value: Option<&str>) -> (r: NodeImpl)
        ensures
            r@ == NodeView::detached(
                NodeType::Attribute,
                name@,
                str_view(value),
                Some(owner.target()),
                ExtensionView::Empty,
            ),
    {
        NodeImpl::new(NodeType::Attribute, name, own_opt_str(value), Some(owner), Extension::Empty)
    }

    /// A text node that holds `data`.
    pub fn new_text(owner: WeakRefNode, data: &str) -> (r: NodeImpl)
        ensures
            r@ == NodeView::detached(
                NodeType::Text,
                Name::reserved_view("#text"@),
                Some(data@),
                Some(owner.target()),
                ExtensionView::Empty,
            ),
    {
        NodeImpl::new(
            NodeType::Text,
            Name::reserved("#text"),
            Some(data.to_owned()),
            Some(owner),
            Extension::Empty,
        )
    }

    /// A character data section that holds `data`.
    pub fn new_cdata(owner: WeakRefNode, data: &str) -> (r: NodeImpl)
        ensures
            r@ == NodeView::detached(
                NodeType::CData,
                Name::reserved_view("#cdata-section"@),
                Some(data@),
                Some(owner.target()),
                ExtensionView::Empty,
            ),
    {
        NodeImpl::new(
            NodeType::CData,
            Name::reserved("#cdata-section"),
            Some(data.to_owned()),
            Some(owner),
            Extension::Empty,
        )
    }

    /// A comment that holds `data`.
    pub fn new_comment(owner: WeakRefNode, data: &str) -> (r: NodeImpl)
        ensures
            r@ == NodeView::detached(
                NodeType::Comment,
                Name::reserved_view("#comment"@),
                Some(data@),
                Some(owner.target()),
                ExtensionView::Empty,
            ),
    {
        NodeImpl::new(
            NodeType::Comment,
            Name::reserved("#comment"),
            Some(data.to_owned()),
            Some(owner),
            Extension::Empty,
        )
    }

    /// A processing instruction for `target`, with `data` if any is given.
    pub fn new_processing_instruction(owner: WeakRefNode, target: Name, data: Option<&str>) -> (r:
        NodeImpl)
        ensures
            r@ == NodeView::detached(
                NodeType::ProcessingInstruction,
                target@,
                str_view(data),
                Some(owner.target()),
                ExtensionView::Empty,
            ),
    {
        NodeImpl::new(
            NodeType::ProcessingInstruction,
            target,
            own_opt_str(data),
            Some(owner),
            Extension::Empty,
        )
    }

    /// An empty document fragment.
    pub fn new_document_fragment(owner: WeakRefNode) -> (r: NodeImpl)
        ensures
            r@ == NodeView::detached(
                NodeType::DocumentFragment,
                Name::reserved_view("#document-fragment"@),
                None,
                Some(owner.target()),
                ExtensionView::Empty,
            ),
    {
        NodeImpl::new(
            NodeType::DocumentFragment,
            Name::reserved("#document-fragment"),
            None,
            Some(owner),
            Extension::Empty,
        )
    }

    /// A reference to the entity named `name`.
    pub fn new_entity_reference(owner: WeakRefNode, name: Name) -> (r: NodeImpl)
        ensures
            r@ == NodeView::detached(
                NodeType::EntityReference,
                name@,
                None,
                Some(owner.target()),
                ExtensionView::Empty,
            ),
    {
        NodeImpl::new(NodeType::EntityReference, name, None, Some(owner), Extension::Empty)
    }

    /// A document with the document type `doc_type`, if one is given, and no element yet.
    pub fn new_document(doc_type: Option<RefNode>) -> (r: NodeImpl)
        ensures
            r@ == NodeView::detached(
                NodeType::Document,
                Name::reserved_view("#document"@),
                None,
                None,
                ExtensionView::Document { document_element: None, document_type: doc_type },
            ),
    {
        NodeImpl::new(
            NodeType::Document,
            Name::reserved("#document"),
            None,
            None,
            Extension::Document { i_document_element: None, i_document_type: doc_type },
        )
    }

    /// A document type named `name`, with the identifiers given and no entities or notations.
    pub fn new_document_type(
        owner: Option<WeakRefNode>,
        name: Name,
        public_id: Option<&str>,
        system_id: Option<&str>,
    ) -> (r: NodeImpl)
        ensures
            r@ == NodeView::detached(
                NodeType::DocumentType,
                name@,
                None,
                opt_target(owner),
                ExtensionView::DocumentType {
                    entities: Seq::empty(),
                    notations: Seq::empty(),
                    public_id: str_view(public_id),
                    system_id: str_view(system_id),
                    internal_subset: None,
                },
            ),
    {
        let extension = Extension::DocumentType {
            i_entities: Vec::new(),
            i_notations: Vec::new(),
            i_public_id: own_opt_str(public_id),
            i_system_id: own_opt_str(system_id),
            i_internal_subset: None,
        };
        NodeImpl::new(NodeType::DocumentType, name, None, owner, extension)
    }

    /// An entity named `name`, with the identifiers and the notation given.
    pub fn new_entity(
        owner: Option<WeakRefNode>,
        name: Name,
        public_id: Option<&str>,
        system_id: Option<&str>,
        notation_name: Option<&str>,
    ) -> (r: NodeImpl)
        ensures
            r@ == NodeView::detached(
                NodeType::Entity,
                name@,
                None,
                opt_target(owner),
                ExtensionView::Entity {
                    public_id: str_view(public_id),
                    system_id: str_view(system_id),
                    notation_name: str_view(notation_name),
                },
            ),
    {
        let extension = Extension::Entity {
            i_public_id: own_opt_str(public_id),
            i_system_id: own_opt_str(system_id),
            i_notation_name: own_opt_str(notation_name),
        };
        NodeImpl::new(NodeType::Entity, name, None, owner, extension)
    }

    /// A notation named `name`, with the identifiers given.
    pub fn new_notation(
        owner: Option<WeakRefNode>,
        name: Name,
        public_id: Option<&str>,
        system_id: Option<&str>,
    ) -> (r: NodeImpl)
        ensures
            r@ == NodeView::detached(
                NodeType::Notation,
                name@,
                None,
                opt_target(owner),
                ExtensionView::Notation {
                    public_id: str_view(public_id),
                    system_id: str_view(system_id),
                },
            ),
    {
        let extension = Extension::Notation {
            i_public_id: own_opt_str(public_id),
            i_system_id: own_opt_str(system_id),
        };
        NodeImpl::new(NodeType::Notation, name, None, owner, extension)
    }

    /// The kind of the node.
    pub fn node_type(&self) -> (r: NodeType)
        ensures
            r == self@.node_type,
    {
        self.i_node_type
    }

    /// The name of the node.
    pub fn name(&self) -> (r: &Name)
        ensures
            r@ == self@.name,
    {
        &self.i_name
    }

    /// The value of the node, if it has one.
    pub fn value(&self) -> (r: &Option<String>)
        ensures
            opt_view(*r) == self@.value,
    {
        &self.i_value
    }

    /// The way back to the parent of the node, if it has one.
    pub fn parent_node(&self) -> (r: Option<WeakRefNode>)
        ensures
            opt_target(r) == self@.parent,
    {
        self.i_parent_node
    }

    /// The way back to the document that owns the node, if one does.
    pub fn owner_document(&self) -> (r: Option<WeakRefNode>)
        ensures
            opt_target(r) == self@.owner_document,
    {
        self.i_owner_document
    }

    /// The children of the node, in document order.
    pub fn child_nodes(&self) -> (r: &Vec<RefNode>)
        ensures
            r@ == self@.children,
    {
        &self.i_child_nodes
    }

    /// The extension of the node.
    pub fn extension(&self) -> (r: &Extension)
        ensures
            r@ == self@.extension,
    {
        &self.i_extension
    }

    /// Gives the node the value `value`, or none.
    pub fn set_value(&mut self, value: Option<String>)
        ensures
            final(self)@ == (NodeView { value: opt_view(value), ..old(self)@ }),
    {
        self.i_value = value;
    }

    /// Gives the node the parent `parent`, or none.
    pub fn set_parent_node(&mut self, parent: Option<WeakRefNode>)
        ensures
            final(self)@ == (NodeView { parent: opt_target(parent), ..old(self)@ }),
    {
        self.i_parent_node = parent;
    }

    /// Gives the node the owner document `owner`, or none.
    pub fn set_owner_document(&mut self, owner: Option<WeakRefNode>)
        ensures
            final(self)@ == (NodeView { owner_document: opt_target(owner), ..old(self)@ }),
    {
        self.i_owner_document = owner;
    }

    /// Places `child` among the children, before the child that stands at `at`, or behind
    /// the last child where `at` is their number.
    pub fn insert_child(&mut self, at: usize, child: RefNode)
        requires
            at <= old(self)@.children.len(),
        ensures
            final(self)@ == (NodeView {
                children: old(self)@.children.insert(at as int, child),
                ..old(self)@
            }),
    {
        self.i_child_nodes.insert(at, child);
    }

    /// Takes the child that stands at `at` out of the children.
    pub fn remove_child(&mut self, at: usize) -> (r: RefNode)
        requires
            at < old(self)@.children.len(),
        ensures
            r == old(self)@.children[at as int],
            final(self)@ == (NodeView {
                children: old(self)@.children.remove(at as int),
                ..old(self)@
            }),
    {
        self.i_child_nodes.remove(at)
    }

    /// Records `element` as the element of the document. A node that is no document is
    /// left as it is.
    pub fn set_document_element(&mut self, element: Option<RefNode>)
        ensures
            final(self)@ == (NodeView {
                extension: match old(self)@.extension {
                    ExtensionView::Document { document_element, document_type } => {
                        ExtensionView::Document { document_element: element, document_type }
                    },
                    other => other,
                },
                ..old(self)@
            }),
    {
        match &mut self.i_extension {
            Extension::Document { i_document_element, .. } => {
                *i_document_element = element;
            },
            _ => {},
        }
    }

    /// Places `attribute` among the attributes of the element, behind the others. A node
    /// that is no element is left as it is.
    pub fn push_attribute(&mut self, attribute: RefNode)
        ensures
            final(self)@ == (NodeView {
                extension: match old(self)@.extension {
                    ExtensionView::Element { attributes, namespaces } => ExtensionView::Element {
                        attributes: attributes.push(attribute),
                        namespaces,
                    },
                    other => other,
                },
                ..old(self)@
            }),
    {
        match &mut self.i_extension {
            Extension::Element { i_attributes, .. } => {
                i_attributes.push(attribute);
            },
            _ => {},
        }
    }

    /// Puts `attribute` in the place of the attribute that stands at `at`. A node that is
    /// no element is left as it is.
    pub fn set_attribute_at(&mut self, at: usize, attribute: RefNode)
        requires
            at < old(self)@.attributes().len(),
        ensures
            final(self)@ == (NodeView {
                extension: match old(self)@.extension {
                    ExtensionView::Element { attributes, namespaces } => ExtensionView::Element {
                        attributes: attributes.update(at as int, attribute),
                        namespaces,
                    },
                    other => other,
                },
                ..old(self)@
            }),
    {
        match &mut self.i_extension {
            Extension::Element { i_attributes, .. } => {
                i_attributes[at] = attribute;
            },
            _ => {},
        }
    }

    /// Takes the attribute that stands at `at` out of the attributes. A node that is no
    /// element is left as it is.
    pub fn remove_attribute_at(&mut self, at: usize)
        requires
            at < old(self)@.attributes().len(),
        ensures
            final(self)@ == (NodeView {
                extension: match old(self)@.extension {
                    ExtensionView::Element { attributes, namespaces } => ExtensionView::Element {
                        attributes: attributes.remove(at as int),
                        namespaces,
                    },
                    other => other,
                },
                ..old(self)@
            }),
    {
        match &mut self.i_extension {
            Extension::Element { i_attributes, .. } => {
                i_attributes.remove(at);
            },
            _ => {},
        }
    }

    /// Places `binding` among the namespace bindings of the element, behind the others.
    /// A node that is no element is left as it is.
    pub fn push_binding(&mut self, binding: NamespaceBinding)
        ensures
            final(self)@ == (NodeView {
                extension: match old(self)@.extension {
                    ExtensionView::Element { attributes, namespaces } => ExtensionView::Element {
                        attributes,
                        namespaces: namespaces.push(binding@),
                    },
                    other => other,
                },
                ..old(self)@
            }),
    {
        match &mut self.i_extension {
            Extension::Element { i_namespaces, .. } => {
                i_namespaces.push(binding);
                assert(bindings_view(i_namespaces@) =~= bindings_view(
                    old(self).i_extension->i_namespaces@,
                ).push(binding@));
            },
            _ => {},
        }
    }

    /// Puts `binding` in the place of the namespace binding that stands at `at`. A node
    /// that is no element is left as it is.
    pub fn set_binding_at(&mut self, at: usize, binding: NamespaceBinding)
        requires
            at < old(self)@.namespaces().len(),
        ensures
            final(self)@ == (NodeView {
                extension: match old(self)@.extension {
                    ExtensionView::Element { attributes, namespaces } => ExtensionView::Element {
                        attributes,
                        namespaces: namespaces.update(at as int, binding@),
                    },
                    other => other,
                },
                ..old(self)@
            }),
    {
        match &mut self.i_extension {
            Extension::Element { i_namespaces, .. } => {
                i_namespaces[at] = binding;
                assert(bindings_view(i_namespaces@) =~= bindings_view(
                    old(self).i_extension->i_namespaces@,
                ).update(at as int, binding@));
            },
            _ => {},
        }
    }

    /// Places `entity` among the entities of the document type: in the place of the one
    /// that stands at `at`, or behind them all where `at` is their number. A node that is
    /// no document type is left as it is.
    pub fn put_entity(&mut self, at: usize, entity: RefNode)
        requires
            old(self)@.extension is DocumentType ==> at <= old(self)@.extension->entities.len(),
        ensures
            final(self)@ == (NodeView {
                extension: match old(self)@.extension {
                    ExtensionView::DocumentType {
                        entities,
                        notations,
                        public_id,
                        system_id,
                        internal_subset,
                    } => ExtensionView::DocumentType {
                        entities: put(entities, at as int, entity),
                        notations,
                        public_id,
                        system_id,
                        internal_subset,
                    },
                    other => other,
                },
                ..old(self)@
            }),
    {
        match &mut self.i_extension {
            Extension::DocumentType { i_entities, .. } => {
                if at < i_entities.len() {
                    i_entities[at] = entity;
                } else {
                    i_entities.push(entity);
                }
            },
            _ => {},
        }
    }

    /// Places `notation` among the notations of the document type: in the place of the
    /// one that stands at `at`, or behind them all where `at` is their number. A node
    /// that is no document type is left as it is.
    pub fn put_notation(&mut self, at: usize, notation: RefNode)
        requires
            old(self)@.extension is DocumentType ==> at <= old(self)@.extension->notations.len(),
        ensures
            final(self)@ == (NodeView {
                extension: match old(self)@.extension {
                    ExtensionView::DocumentType {
                        entities,
                        notations,
                        public_id,
                        system_id,
                        internal_subset,
                    } => ExtensionView::DocumentType {
                        entities,
                        notations: put(notations, at as int, notation),
                        public_id,
                        system_id,
                        internal_subset,
                    },
                    other => other,
                },
                ..old(self)@
            }),
    {
        match &mut self.i_extension {
            Extension::DocumentType { i_notations, .. } => {
                if at < i_notations.len() {
                    i_notations[at] = notation;
                } else {
                    i_notations.push(notation);
                }
            },
            _ => {},
        }
    }
}

} // verus!
