//! One node of a document: its kind, its handles, and the record that holds its state.

use vstd::prelude::*;
use crate::name::NameView;
use crate::text::{clone_opt_string, opt_view, own_opt_str, str_view};

verus! {

/// The kind of a node. It is fixed when the node is made.
#[derive(Clone, Copy, Debug, PartialEq, Eq, Structural)]
pub enum NodeType {
    /// An element, which has a tag name, attributes and content.
    Element,
    /// An attribute of an element.
    Attribute,
    /// Character data in the content of an element or of an attribute.
    Text,
    /// A section of character data in which markup is not recognised.
    CData,
    /// A reference to an entity.
    EntityReference,
    /// An entity of the document type.
    Entity,
    /// An instruction to a processor, made of a target and data.
    ProcessingInstruction,
    /// A comment.
    Comment,
    /// A document, the root of a tree and the maker of its nodes.
    Document,
    /// A document type declaration.
    DocumentType,
    /// A fragment: a holder of nodes that is no document.
    DocumentFragment,
    /// A notation of the document type.
    Notation,
}

/// An owning handle to a node. Handles are equal exactly when they refer to the same node.
#[derive(Clone, Copy, Debug, PartialEq, Eq, Structural)]
pub struct RefNode {
    /// The place of the node among the nodes of its arena.
    pub index: usize,
}

/// A handle that does not own its node: a way back to a parent or to an owner document.
/// It is turned into a [`RefNode`] by the arena that holds the node.
#[derive(Clone, Copy, Debug, PartialEq, Eq, Structural)]
pub struct WeakRefNode {
    /// The place of the node among the nodes of its arena.
    pub index: usize,
}

impl RefNode {
    /// A handle to the same node that does not own it.
    pub fn downgrade(self) -> (w: WeakRefNode)
        ensures
            w.target() == self,
    {
        WeakRefNode { index: self.index }
    }
}

impl WeakRefNode {
    /// The node that the handle refers to.
    pub open spec fn target(self) -> RefNode {
        RefNode { index: self.index }
    }
}

/// The node that an optional weak handle refers to.
pub open spec fn opt_target(w: Option<WeakRefNode>) -> Option<RefNode> {
    match w {
        None => None,
        Some(w) => Some(w.target()),
    }
}

/// The binding of a prefix, or of the default namespace where the prefix is absent, to a
/// namespace.
#[derive(Debug)]
pub struct NamespaceBinding {
    prefix: Option<String>,
    uri: String,
}

impl View for NamespaceBinding {
    type V = (Option<Seq<char>>, Seq<char>);

    closed spec fn view(&self) -> (Option<Seq<char>>, Seq<char>) {
        (opt_view(self.prefix), self.uri@)
    }
}

impl NamespaceBinding {
    /// Binds `prefix` to `uri`.
    pub fn new(prefix: Option<&str>, uri: &str) -> (r: NamespaceBinding)
        ensures
            r@ == (str_view(prefix), uri@),
    {
        NamespaceBinding { prefix: own_opt_str(prefix), uri: uri.to_owned() }
    }

    /// Whether the binding is for `prefix`.
    pub fn binds(&self, prefix: Option<&str>) -> (r: bool)
        ensures
            r == (self@.0 == str_view(prefix)),
    {
        match (&self.prefix, prefix) {
            (None, None) => true,
            (Some(a), Some(b)) => crate::text::str_eq(a.as_str(), b),
            _ => false,
        }
    }

    /// A copy of the binding.
    pub fn duplicate(&self) -> (r: NamespaceBinding)
        ensures
            r@ == self@,
    {
        NamespaceBinding { prefix: clone_opt_string(&self.prefix), uri: self.uri.clone() }
    }

    /// The namespace that the prefix is bound to.
    pub fn uri(&self) -> (r: String)
        ensures
            r@ == self@.1,
    {
        self.uri.clone()
    }
}

/// The views of a list of bindings, in their order.
pub open spec fn bindings_view(b: Seq<NamespaceBinding>) -> Seq<(Option<Seq<char>>, Seq<char>)> {
    Seq::new(b.len(), |i: int| b[i]@)
}

/// The state that only nodes of some kinds have.
#[derive(Debug)]
pub enum Extension {
    /// Nothing: the kind has no state of its own.
    Empty,
    /// The state of a document.
    Document { i_document_element: Option<RefNode>, i_document_type: Option<RefNode> },
    /// The state of an element.
    Element { i_attributes: Vec<RefNode>, i_namespaces: Vec<NamespaceBinding> },
    /// The state of a document type.
    DocumentType {
        i_entities: Vec<RefNode>,
        i_notations: Vec<RefNode>,
        i_public_id: Option<String>,
        i_system_id: Option<String>,
        i_internal_subset: Option<String>,
    },
    /// The state of an entity.
    Entity {
        i_public_id: Option<String>,
        i_system_id: Option<String>,
        i_notation_name: Option<String>,
    },
    /// The state of a notation.
    Notation { i_public_id: Option<String>, i_system_id: Option<String> },
}

/// The mathematical value of an [`Extension`].
pub enum ExtensionView {
    Empty,
    Document { document_element: Option<RefNode>, document_type: Option<RefNode> },
    Element { attributes: Seq<RefNode>, namespaces: Seq<(Option<Seq<char>>, Seq<char>)> },
    DocumentType {
        entities: Seq<RefNode>,
        notations: Seq<RefNode>,
        public_id: Option<Seq<char>>,
        system_id: Option<Seq<char>>,
        internal_subset: Option<Seq<char>>,
    },
    Entity {
        public_id: Option<Seq<char>>,
        system_id: Option<Seq<char>>,
        notation_name: Option<Seq<char>>,
    },
    Notation { public_id: Option<Seq<char>>, system_id: Option<Seq<char>> },
}

impl View for Extension {
    type V = ExtensionView;

    open spec fn view(&self) -> ExtensionView {
        match *self {
            Extension::Empty => ExtensionView::Empty,
            Extension::Document { i_document_element, i_document_type } => ExtensionView::Document {
                document_element: i_document_element,
                document_type: i_document_type,
            },
            Extension::Element { i_attributes, i_namespaces } => ExtensionView::Element {
                attributes: i_attributes@,
                namespaces: bindings_view(i_namespaces@),
            },
            Extension::DocumentType {
                i_entities,
                i_notations,
                i_public_id,
                i_system_id,
                i_internal_subset,
            } => ExtensionView::DocumentType {
                entities: i_entities@,
                notations: i_notations@,
                public_id: opt_view(i_public_id),
                system_id: opt_view(i_system_id),
                internal_subset: opt_view(i_internal_subset),
            },
            Extension::Entity { i_public_id, i_system_id, i_notation_name } => ExtensionView::Entity {
                public_id: opt_view(i_public_id),
                system_id: opt_view(i_system_id),
                notation_name: opt_view(i_notation_name),
            },
            Extension::Notation { i_public_id, i_system_id } => ExtensionView::Notation {
                public_id: opt_view(i_public_id),
                system_id: opt_view(i_system_id),
            },
        }
    }
}

/// The mathematical value of a node.
pub struct NodeView {
    pub node_type: NodeType,
    pub name: NameView,
    pub value: Option<Seq<char>>,
    pub parent: Option<RefNode>,
    pub owner_document: Option<RefNode>,
    pub children: Seq<RefNode>,
    pub extension: ExtensionView,
}

/// The extension that a node of the given kind carries.
pub open spec fn extension_fits(node_type: NodeType, extension: ExtensionView) -> bool {
    match node_type {
        NodeType::Document => extension is Document,
        NodeType::Element => extension is Element,
        NodeType::DocumentType => extension is DocumentType,
        NodeType::Entity => extension is Entity,
        NodeType::Notation => extension is Notation,
        _ => extension is Empty,
    }
}

impl NodeView {
    /// A node as it is when just made: of the given kind, name, value and state, owned by
    /// `owner`, with no parent and no children.
    pub open spec fn detached(
        node_type: NodeType,
        name: NameView,
        value: Option<Seq<char>>,
        owner: Option<RefNode>,
        extension: ExtensionView,
    ) -> NodeView {
        NodeView {
            node_type,
            name,
            value,
            parent: None,
            owner_document: owner,
            children: Seq::empty(),
            extension,
        }
    }

    /// The attributes of the node: those of its extension if it is an element, else none.
    pub open spec fn attributes(self) -> Seq<RefNode> {
        match self.extension {
            ExtensionView::Element { attributes, .. } => attributes,
            _ => Seq::empty(),
        }
    }

    /// The namespace bindings of the node: those of its extension if it is an element.
    pub open spec fn namespaces(self) -> Seq<(Option<Seq<char>>, Seq<char>)> {
        match self.extension {
            ExtensionView::Element { namespaces, .. } => namespaces,
            _ => Seq::empty(),
        }
    }
}

} // verus!
