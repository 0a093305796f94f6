//! The interfaces of the document tree. Each is offered by a store of nodes, and each of
//! its operations names the node it works on by a handle.

use vstd::prelude::*;
use crate::error::Error;
use crate::forest::Forest;
use crate::copy::is_clonable;
use crate::dom_impl::{feature_supported, Implementation};
use crate::name::{parse_name, parse_name_ns, Name};
use crate::node::{ExtensionView, NodeType, NodeView, RefNode};
use crate::search::QueryView;
use crate::bytes::byte_len;
use crate::chardata::{appended, data_length, deleted, inserted, replaced, substring_of};
use crate::text::{opt_view, str_view};

verus! {

/// What every node offers, whatever its kind.
pub trait Node {
    /// The nodes that the store holds.
    spec fn forest(&self) -> Forest;

    /// The name of the node.
    fn name(&self, node: RefNode) -> (r: Name)
        requires
            self.forest().wf(),
            self.forest().contains(node),
        ensures
            r@ == self.forest().node(node).name,
    ;

    /// The value of the node, if it has one.
    fn node_value(&self, node: RefNode) -> (r: Option<String>)
        requires
            self.forest().wf(),
            self.forest().contains(node),
        ensures
            opt_view(r) == self.forest().node(node).value,
    ;

    /// Gives the node the value `value`.
    fn set_node_value(&mut self, node: RefNode, value: &str) -> (r: Result<(), Error>)
        requires
            old(self).forest().wf(),
            old(self).forest().contains(node),
        ensures
            r is Ok,
            final(self).forest().wf(),
            final(self).forest() == old(self).forest().with_value(node, Some(value@)),
    ;

    /// Leaves the node without a value.
    fn unset_node_value(&mut self, node: RefNode) -> (r: Result<(), Error>)
        requires
            old(self).forest().wf(),
            old(self).forest().contains(node),
        ensures
            r is Ok,
            final(self).forest().wf(),
            final(self).forest() == old(self).forest().with_value(node, None),
    ;

    /// The kind of the node.
    fn node_type(&self, node: RefNode) -> (r: NodeType)
        requires
            self.forest().wf(),
            self.forest().contains(node),
        ensures
            r == self.forest().kind(node),
    ;

    /// The parent of the node, if it has one.
    fn parent_node(&self, node: RefNode) -> (r: Option<RefNode>)
        requires
            self.forest().wf(),
            self.forest().contains(node),
        ensures
            r == self.forest().node(node).parent,
            self.forest().contains_opt(r),
    ;

    /// The children of the node, in document order.
    fn child_nodes(&self, node: RefNode) -> (r: Vec<RefNode>)
        requires
            self.forest().wf(),
            self.forest().contains(node),
        ensures
            r@ == self.forest().node(node).children,
            forall|k: int| 0 <= k < r@.len() ==> self.forest().contains(#[trigger] r@[k]),
    ;

    /// The first child of the node, if it has children.
    fn first_child(&self, node: RefNode) -> (r: Option<RefNode>)
        requires
            self.forest().wf(),
            self.forest().contains(node),
        ensures
            r == self.forest().first_child(node),
            self.forest().contains_opt(r),
    ;

    /// The last child of the node, if it has children.
    fn last_child(&self, node: RefNode) -> (r: Option<RefNode>)
        requires
            self.forest().wf(),
            self.forest().contains(node),
        ensures
            r == self.forest().last_child(node),
            self.forest().contains_opt(r),
    ;

    /// The child of the node's parent that stands just before the node, if there is one.
    fn previous_sibling(&self, node: RefNode) -> (r: Option<RefNode>)
        requires
            self.forest().wf(),
            self.forest().contains(node),
        ensures
            r == self.forest().previous_sibling(node),
            self.forest().contains_opt(r),
    ;

    /// The child of the node's parent that stands just behind the node, if there is one.
    fn next_sibling(&self, node: RefNode) -> (r: Option<RefNode>)
        requires
            self.forest().wf(),
            self.forest().contains(node),
        ensures
            r == self.forest().next_sibling(node),
            self.forest().contains_opt(r),
    ;

    /// The attributes of the node: those of an element, and none for a node of another kind.
    fn attributes(&self, node: RefNode) -> (r: Vec<RefNode>)
        requires
            self.forest().wf(),
            self.forest().contains(node),
        ensures
            r@ == self.forest().node(node).attributes(),
            forall|k: int| 0 <= k < r@.len() ==> self.forest().contains(#[trigger] r@[k]),
    ;

    /// The document that owns the node, if one does.
    fn owner_document(&self, node: RefNode) -> (r: Option<RefNode>)
        requires
            self.forest().wf(),
            self.forest().contains(node),
        ensures
            r == self.forest().node(node).owner_document,
            self.forest().contains_opt(r),
    ;

    /// Makes `new_child` a child of the node, just before `ref_child`; behind the last
    /// child where no `ref_child` is given, or where it is no child of the node. The new
    /// child is first taken from the parent it had.
    fn insert_before(&mut self, node: RefNode, new_child: RefNode, ref_child: Option<RefNode>) -> (r:
        Result<RefNode, Error>)
        requires
            old(self).forest().wf(),
            old(self).forest().contains(node),
            old(self).forest().contains(new_child),
        ensures
            final(self).forest().wf(),
            r is Ok <==> old(self).forest().insertion_error(node, new_child, None) is None,
            r matches Ok(c) ==> c == new_child && final(self).forest() == old(
                self,
            ).forest().insert_child(node, new_child, ref_child),
            r matches Err(e) ==> Some(e) == old(self).forest().insertion_error(
                node,
                new_child,
                None,
            ) && final(self).forest() == old(self).forest(),
    ;

    /// Puts `new_child` in the place of `old_child` among the children of the node, and
    /// hands back `old_child`, which is left without a parent.
    fn replace_child(&mut self, node: RefNode, new_child: RefNode, old_child: RefNode) -> (r:
        Result<RefNode, Error>)
        requires
            old(self).forest().wf(),
            old(self).forest().contains(node),
            old(self).forest().contains(new_child),
            old(self).forest().contains(old_child),
        ensures
            final(self).forest().wf(),
            r is Ok <==> old(self).forest().replacement_error(node, new_child, old_child) is None,
            r matches Ok(c) ==> c == old_child && final(self).forest() == old(
                self,
            ).forest().replace_child(node, new_child, old_child),
            r matches Err(e) ==> Some(e) == old(self).forest().replacement_error(
                node,
                new_child,
                old_child,
            ) && final(self).forest() == old(self).forest(),
    ;

    /// Takes `old_child` from the children of the node and hands it back.
    fn remove_child(&mut self, node: RefNode, old_child: RefNode) -> (r: Result<RefNode, Error>)
        requires
            old(self).forest().wf(),
            old(self).forest().contains(node),
            old(self).forest().contains(old_child),
        ensures
            final(self).forest().wf(),
            r is Ok <==> old(self).forest().node(node).children.contains(old_child),
            r matches Ok(c) ==> c == old_child && final(self).forest() == old(
                self,
            ).forest().detach(old_child),
            r matches Err(e) ==> e == Error::NotFound && final(self).forest() == old(
                self,
            ).forest(),
    ;

    /// Makes `new_child` the last child of the node. The new child is first taken from
    /// the parent it had.
    fn append_child(&mut self, node: RefNode, new_child: RefNode) -> (r: Result<RefNode, Error>)
        requires
            old(self).forest().wf(),
            old(self).forest().contains(node),
            old(self).forest().contains(new_child),
        ensures
            final(self).forest().wf(),
            r is Ok <==> old(self).forest().insertion_error(node, new_child, None) is None,
            r matches Ok(c) ==> c == new_child && final(self).forest() == old(
                self,
            ).forest().append_child(node, new_child),
            r matches Err(e) ==> Some(e) == old(self).forest().insertion_error(
                node,
                new_child,
                None,
            ) && final(self).forest() == old(self).forest(),
    ;

    /// Makes a copy of the node and hands it out. The copy has no parent; it has copies of
    /// the attributes of the node, and, where `deep` is set, deep copies of its children.
    /// A document and the nodes of a document type cannot be copied: then nothing is made
    /// and nothing handed out.
    fn clone_node(&mut self, node: RefNode, deep: bool) -> (r: Option<RefNode>)
        requires
            old(self).forest().wf(),
            old(self).forest().contains(node),
        ensures
            final(self).forest().wf(),
            r is Some <==> is_clonable(old(self).forest().kind(node)),
            r matches Some(c) ==> {
                &&& c == old(self).forest().next()
                &&& final(self).forest().contains(c)
                &&& final(self).forest().extends(old(self).forest())
                &&& final(self).forest().node(c).parent is None
                &&& old(self).forest().is_copy(node, final(self).forest(), c, deep)
            },
            r is Some ==> final(self).forest() == old(self).forest().with_copy(
                old(self).forest(),
                node,
                deep,
            ),
            r is None ==> final(self).forest() == old(self).forest(),
    ;

    /// Brings the text below the node into normal form: among the children of the node
    /// and of every node below it, no text node is empty and none stands next to another.
    /// A text node takes up the text nodes that follow it; those, and the empty ones, are
    /// left without a parent.
    fn normalize(&mut self, node: RefNode)
        requires
            old(self).forest().wf(),
            old(self).forest().contains(node),
        ensures
            final(self).forest().wf(),
            final(self).forest() == old(self).forest().normalized(node),
            final(self).forest().nodes.len() == old(self).forest().nodes.len(),
    ;

    /// Whether the implementation offers the version `version` of the feature `feature`.
    fn is_supported(&self, node: RefNode, feature: &str, version: &str) -> (r: bool)
        ensures
            r == feature_supported(feature@, version@),
    ;

    /// Whether the node has children.
    fn has_child_nodes(&self, node: RefNode) -> (r: bool)
        requires
            self.forest().wf(),
            self.forest().contains(node),
        ensures
            r == (self.forest().node(node).children.len() > 0),
    ;

    /// Whether the node has attributes.
    fn has_attributes(&self, node: RefNode) -> (r: bool)
        requires
            self.forest().wf(),
            self.forest().contains(node),
        ensures
            r == (self.forest().node(node).attributes().len() > 0),
    ;
}

/// What nodes that hold character data offer: text, comments and sections of character data.
///
/// Offsets, counts and lengths are in bytes of the UTF-8 form of the data. A range can be
/// taken only where both its ends fall between characters: an end within a character is
/// refused as an offset beyond the data is.
pub trait CharacterData: Node {
    /// The number of bytes of the node's data; 0 where it has none.
    fn length(&self, node: RefNode) -> (r: usize)
        requires
            self.forest().wf(),
            self.forest().contains(node),
        ensures
            r == data_length(self.forest().node(node).value),
    {
        match self.data(node) {
            None => 0,
            Some(s) => byte_len(s.as_str()),
        }
    }

    /// The data of the node.
    fn data(&self, node: RefNode) -> (r: Option<String>)
        requires
            self.forest().wf(),
            self.forest().contains(node),
        ensures
            opt_view(r) == self.forest().node(node).value,
    {
        Node::node_value(self, node)
    }

    /// Gives the node the data `data`.
    fn set_data(&mut self, node: RefNode, data: &str) -> (r: Result<(), Error>)
        requires
            old(self).forest().wf(),
            old(self).forest().contains(node),
        ensures
            r is Ok,
            final(self).forest().wf(),
            final(self).forest() == old(self).forest().with_value(node, Some(data@)),
    {
        Node::set_node_value(self, node, data)
    }

    /// Leaves the node without data.
    fn unset_data(&mut self, node: RefNode) -> (r: Result<(), Error>)
        requires
            old(self).forest().wf(),
            old(self).forest().contains(node),
        ensures
            r is Ok,
            final(self).forest().wf(),
            final(self).forest() == old(self).forest().with_value(node, None),
    {
        Node::unset_node_value(self, node)
    }

    /// The `count` bytes of the data that begin at `offset`, or as many as there are.
    /// A `count` of 0 gives the empty string, whatever the offset.
    fn substring(&self, node: RefNode, offset: usize, count: usize) -> (r: Result<String, Error>)
        requires
            self.forest().wf(),
            self.forest().contains(node),
        ensures
            r is Ok <==> substring_of(self.forest().node(node).value, offset as int, count as int)
                is Ok,
            r matches Ok(s) ==> s@ == substring_of(
                self.forest().node(node).value,
                offset as int,
                count as int,
            )->Ok_0,
            r matches Err(e) ==> e == Error::IndexSize,
    ;

    /// Adds `data` behind the data of the node.
    fn append(&mut self, node: RefNode, data: &str) -> (r: Result<(), Error>)
        requires
            old(self).forest().wf(),
            old(self).forest().contains(node),
        ensures
            r is Ok,
            final(self).forest().wf(),
            final(self).forest() == old(self).forest().with_value(
                node,
                appended(old(self).forest().node(node).value, data@),
            ),
    ;

    /// Puts `data` into the data of the node, before the byte at `offset`.
    fn insert(&mut self, node: RefNode, offset: usize, data: &str) -> (r: Result<(), Error>)
        requires
            old(self).forest().wf(),
            old(self).forest().contains(node),
        ensures
            final(self).forest().wf(),
            r is Ok <==> inserted(old(self).forest().node(node).value, offset as int, data@) is Ok,
            r is Ok ==> final(self).forest() == old(self).forest().with_value(
                node,
                inserted(old(self).forest().node(node).value, offset as int, data@)->Ok_0,
            ),
            r matches Err(e) ==> e == Error::IndexSize && final(self).forest() == old(
                self,
            ).forest(),
    ;

    /// Takes the `count` bytes that begin at `offset`, or as many as there are, out of the
    /// data of the node.
    fn delete(&mut self, node: RefNode, offset: usize, count: usize) -> (r: Result<(), Error>)
        requires
            old(self).forest().wf(),
            old(self).forest().contains(node),
        ensures
            final(self).forest().wf(),
            r is Ok <==> deleted(old(self).forest().node(node).value, offset as int, count as int)
                is Ok,
            r is Ok ==> final(self).forest() == old(self).forest().with_value(
                node,
                deleted(old(self).forest().node(node).value, offset as int, count as int)->Ok_0,
            ),
            r matches Err(e) ==> e == Error::IndexSize && final(self).forest() == old(
                self,
            ).forest(),
    ;

    /// Puts `data` in the place of the `count` bytes that begin at `offset`, or of as many
    /// as there are.
    fn replace(&mut self, node: RefNode, offset: usize, count: usize, data: &str) -> (r: Result<
        (),
        Error,
    >)
        requires
            old(self).forest().wf(),
            old(self).forest().contains(node),
        ensures
            final(self).forest().wf(),
            r is Ok <==> replaced(
                old(self).forest().node(node).value,
                offset as int,
                count as int,
                data@,
            ) is Ok,
            r is Ok ==> final(self).forest() == old(self).forest().with_value(
                node,
                Some(
                    replaced(
                        old(self).forest().node(node).value,
                        offset as int,
                        count as int,
                        data@,
                    )->Ok_0,
                ),
            ),
            r matches Err(e) ==> e == Error::IndexSize && final(self).forest() == old(
                self,
            ).forest(),
    ;
}

/// What a comment offers: its characters are those between the marks that open and close it.
pub trait Comment: CharacterData {

}

/// What a text node offers.
pub trait Text: CharacterData {
    /// Breaks the node in two at `offset`. The node keeps the bytes before `offset`; a new
    /// node of the same kind, which is handed back, gets the rest, and stands just behind
    /// the node among the children of its parent, if it has a parent. An `offset` at or
    /// beyond the end of the data leaves the node as it is and the new node empty; an
    /// `offset` within a character is refused.
    fn split(&mut self, node: RefNode, offset: usize) -> (r: Result<RefNode, Error>)
        requires
            old(self).forest().wf(),
            old(self).forest().contains(node),
        ensures
            final(self).forest().wf(),
            r is Ok <==> old(self).forest().split_error(node, offset as int) is None,
            r matches Ok(n) ==> n == old(self).forest().next() && final(self).forest() == old(
                self,
            ).forest().split_text(node, offset as int),
            r matches Err(e) ==> Some(e) == old(self).forest().split_error(node, offset as int)
                && final(self).forest() == old(self).forest(),
    ;
}

/// What a section of character data offers.
pub trait CDataSection: Text {

}

/// What a processing instruction offers: a target, which is its name, and data.
pub trait ProcessingInstruction: Node {
    /// The number of bytes of the instruction's data; 0 where it has none.
    fn length(&self, node: RefNode) -> (r: usize)
        requires
            self.forest().wf(),
            self.forest().contains(node),
        ensures
            r == data_length(self.forest().node(node).value),
    {
        match self.data(node) {
            None => 0,
            Some(s) => byte_len(s.as_str()),
        }
    }

    /// The data of the instruction.
    fn data(&self, node: RefNode) -> (r: Option<String>)
        requires
            self.forest().wf(),
            self.forest().contains(node),
        ensures
            opt_view(r) == self.forest().node(node).value,
    {
        Node::node_value(self, node)
    }

    /// Gives the instruction the data `data`.
    fn set_data(&mut self, node: RefNode, data: &str) -> (r: Result<(), Error>)
        requires
            old(self).forest().wf(),
            old(self).forest().contains(node),
        ensures
            r is Ok,
            final(self).forest().wf(),
            final(self).forest() == old(self).forest().with_value(node, Some(data@)),
    {
        Node::set_node_value(self, node, data)
    }

    /// Leaves the instruction without data.
    fn unset_data(&mut self, node: RefNode) -> (r: Result<(), Error>)
        requires
            old(self).forest().wf(),
            old(self).forest().contains(node),
        ensures
            r is Ok,
            final(self).forest().wf(),
            final(self).forest() == old(self).forest().with_value(node, None),
    {
        Node::unset_node_value(self, node)
    }

    /// The target of the instruction.
    fn target(&self, node: RefNode) -> (r: String)
        requires
            self.forest().wf(),
            self.forest().contains(node),
        ensures
            r@ == self.forest().node(node).name.qualified(),
    {
        Node::name(self, node).to_string()
    }
}

/// What an attribute offers.
pub trait Attribute: Node {
    /// The value of the attribute.
    fn value(&self, node: RefNode) -> (r: Option<String>)
        requires
            self.forest().wf(),
            self.forest().contains(node),
        ensures
            opt_view(r) == self.forest().node(node).value,
    {
        Node::node_value(self, node)
    }

    /// Gives the attribute the value `value`.
    fn set_value(&mut self, node: RefNode, value: &str) -> (r: Result<(), Error>)
        requires
            old(self).forest().wf(),
            old(self).forest().contains(node),
        ensures
            r is Ok,
            final(self).forest().wf(),
            final(self).forest() == old(self).forest().with_value(node, Some(value@)),
    {
        Node::set_node_value(self, node, value)
    }

    /// Leaves the attribute without a value.
    fn unset_value(&mut self, node: RefNode) -> (r: Result<(), Error>)
        requires
            old(self).forest().wf(),
            old(self).forest().contains(node),
        ensures
            r is Ok,
            final(self).forest().wf(),
            final(self).forest() == old(self).forest().with_value(node, None),
    {
        Node::unset_node_value(self, node)
    }

    /// Whether the attribute was given its value in the document. It always was: no value
    /// comes from a declaration of defaults.
    fn specified(&self, node: RefNode) -> (r: bool)
        ensures
            r,
    {
        true
    }
}

/// The extension of an element that has no attributes and binds no prefix.
pub open spec fn bare_element() -> ExtensionView {
    ExtensionView::Element { attributes: Seq::empty(), namespaces: Seq::empty() }
}

/// What a document offers: it makes the nodes of its tree, and gives access to its element
/// and to its document type.
pub trait Document: Node {
    /// The document type of the document, if it has one; nothing for a node that is no
    /// document.
    fn doc_type(&self, document: RefNode) -> (r: Option<RefNode>)
        requires
            self.forest().wf(),
            self.forest().contains(document),
        ensures
            r == self.forest().slot(document, NodeType::DocumentType),
            self.forest().contains_opt(r),
    ;

    /// The element of the document, if it has one; nothing for a node that is no document.
    fn document_element(&self, document: RefNode) -> (r: Option<RefNode>)
        requires
            self.forest().wf(),
            self.forest().contains(document),
        ensures
            r == self.forest().slot(document, NodeType::Element),
            self.forest().contains_opt(r),
    ;

    /// The implementation that made the document.
    fn implementation(&self, document: RefNode) -> (r: Implementation);

    /// Makes an attribute named `name`, without a value.
    fn create_attribute(&mut self, document: RefNode, name: &str) -> (r: Result<RefNode, Error>)
        requires
            old(self).forest().wf(),
            old(self).forest().contains(document),
        ensures
            final(self).forest().wf(),
            old(self).forest().makes(
                final(self).forest(),
                r,
                parse_name(name@),
                NodeType::Attribute,
                None,
                Some(document),
                ExtensionView::Empty,
            ),
    ;

    /// Makes an attribute named `name` with the value `value`.
    fn create_attribute_with(&mut self, document: RefNode, name: &str, value: &str) -> (r: Result<
        RefNode,
        Error,
    >)
        requires
            old(self).forest().wf(),
            old(self).forest().contains(document),
        ensures
            final(self).forest().wf(),
            old(self).forest().makes(
                final(self).forest(),
                r,
                parse_name(name@),
                NodeType::Attribute,
                Some(value@),
                Some(document),
                ExtensionView::Empty,
            ),
    ;

    /// Makes an attribute named `qualified_name` in the namespace `namespace_uri`, without
    /// a value.
    fn create_attribute_ns(&mut self, document: RefNode, namespace_uri: &str, qualified_name: &str)
        -> (r: Result<RefNode, Error>)
        requires
            old(self).forest().wf(),
            old(self).forest().contains(document),
        ensures
            final(self).forest().wf(),
            old(self).forest().makes(
                final(self).forest(),
                r,
                parse_name_ns(namespace_uri@, qualified_name@),
                NodeType::Attribute,
                None,
                Some(document),
                ExtensionView::Empty,
            ),
    ;

    /// Makes a section of character data that holds `data`.
    fn create_cdata_section(&mut self, document: RefNode, data: &str) -> (r: Result<RefNode, Error>)
        requires
            old(self).forest().wf(),
            old(self).forest().contains(document),
        ensures
            final(self).forest().wf(),
            old(self).forest().makes(
                final(self).forest(),
                r,
                Ok(Name::reserved_view("#cdata-section"@)),
                NodeType::CData,
                Some(data@),
                Some(document),
                ExtensionView::Empty,
            ),
    ;

    /// Makes an empty document fragment.
    fn create_document_fragment(&mut self, document: RefNode) -> (r: Result<RefNode, Error>)
        requires
            old(self).forest().wf(),
            old(self).forest().contains(document),
        ensures
            final(self).forest().wf(),
            old(self).forest().makes(
                final(self).forest(),
                r,
                Ok(Name::reserved_view("#document-fragment"@)),
                NodeType::DocumentFragment,
                None,
                Some(document),
                ExtensionView::Empty,
            ),
    ;

    /// Makes a reference to the entity named `name`.
    fn create_entity_reference(&mut self, document: RefNode, name: &str) -> (r: Result<
        RefNode,
        Error,
    >)
        requires
            old(self).forest().wf(),
            old(self).forest().contains(document),
        ensures
            final(self).forest().wf(),
            old(self).forest().makes(
                final(self).forest(),
                r,
                parse_name(name@),
                NodeType::EntityReference,
                None,
                Some(document),
                ExtensionView::Empty,
            ),
    ;

    /// Makes a comment that holds `data`.
    fn create_comment(&mut self, document: RefNode, data: &str) -> (r: RefNode)
        requires
            old(self).forest().wf(),
            old(self).forest().contains(document),
        ensures
            final(self).forest().wf(),
            old(self).forest().makes(
                final(self).forest(),
                Ok(r),
                Ok(Name::reserved_view("#comment"@)),
                NodeType::Comment,
                Some(data@),
                Some(document),
                ExtensionView::Empty,
            ),
    ;

    /// Makes an element named `tag_name`.
    fn create_element(&mut self, document: RefNode, tag_name: &str) -> (r: Result<RefNode, Error>)
        requires
            old(self).forest().wf(),
            old(self).forest().contains(document),
        ensures
            final(self).forest().wf(),
            old(self).forest().makes(
                final(self).forest(),
                r,
                parse_name(tag_name@),
                NodeType::Element,
                None,
                Some(document),
                bare_element(),
            ),
    ;

    /// Makes an element named `qualified_name` in the namespace `namespace_uri`.
    fn create_element_ns(&mut self, document: RefNode, namespace_uri: &str, qualified_name: &str)
        -> (r: Result<RefNode, Error>)
        requires
            old(self).forest().wf(),
            old(self).forest().contains(document),
        ensures
            final(self).forest().wf(),
            old(self).forest().makes(
                final(self).forest(),
                r,
                parse_name_ns(namespace_uri@, qualified_name@),
                NodeType::Element,
                None,
                Some(document),
                bare_element(),
            ),
    ;

    /// Makes a processing instruction for `target`, with `data` if any is given.
    fn create_processing_instruction(&mut self, document: RefNode, target: &str, data: Option<&str>)
        -> (r: Result<RefNode, Error>)
        requires
            old(self).forest().wf(),
            old(self).forest().contains(document),
        ensures
            final(self).forest().wf(),
            old(self).forest().makes(
                final(self).forest(),
                r,
                parse_name(target@),
                NodeType::ProcessingInstruction,
                str_view(data),
                Some(document),
                ExtensionView::Empty,
            ),
    ;

    /// Makes a text node that holds `data`.
    fn create_text_node(&mut self, document: RefNode, data: &str) -> (r: RefNode)
        requires
            old(self).forest().wf(),
            old(self).forest().contains(document),
        ensures
            final(self).forest().wf(),
            old(self).forest().makes(
                final(self).forest(),
                Ok(r),
                Ok(Name::reserved_view("#text"@)),
                NodeType::Text,
                Some(data@),
                Some(document),
                ExtensionView::Empty,
            ),
    ;

    /// The element whose identifier is `id`. No attribute is known to be an identifier,
    /// so there is never one.
    fn get_element_by_id(&self, document: RefNode, id: &str) -> (r: Option<RefNode>)
        ensures
            r is None,
    ;

    /// The elements named `tag_name` in the tree of the document's element, in document
    /// order; none where the document has no element.
    fn get_elements_by_tag_name(&self, document: RefNode, tag_name: &str) -> (r: Vec<RefNode>)
        requires
            self.forest().wf(),
            self.forest().contains(document),
        ensures
            r@ == match self.forest().slot(document, NodeType::Element) {
                Some(e) => self.forest().found(e, QueryView::Tag(tag_name@)),
                None => Seq::empty(),
            },
            forall|k: int| 0 <= k < r@.len() ==> self.forest().contains(#[trigger] r@[k]),
    ;

    /// The elements with the local name `local_name` in the namespace `namespace_uri` in
    /// the tree of the document's element, in document order.
    fn get_elements_by_tag_name_ns(&self, document: RefNode, namespace_uri: &str, local_name: &str)
        -> (r: Vec<RefNode>)
        requires
            self.forest().wf(),
            self.forest().contains(document),
        ensures
            r@ == match self.forest().slot(document, NodeType::Element) {
                Some(e) => self.forest().found(e, QueryView::Namespaced(namespace_uri@, local_name@)),
                None => Seq::empty(),
            },
            forall|k: int| 0 <= k < r@.len() ==> self.forest().contains(#[trigger] r@[k]),
    ;
}

/// What a document fragment offers: a holder of nodes that is no document.
pub trait DocumentFragment: Node {

}

/// What a reference to an entity offers.
pub trait EntityReference: Node {

}

/// What a document type offers.
pub trait DocumentType: Node {
    /// The entities of the document type; none for a node that is no document type.
    fn entities(&self, node: RefNode) -> (r: Vec<RefNode>)
        requires
            self.forest().wf(),
            self.forest().contains(node),
        ensures
            r@ == match self.forest().node(node).extension {
                ExtensionView::DocumentType { entities, .. } => entities,
                _ => Seq::empty(),
            },
    ;

    /// The notations of the document type; none for a node that is no document type.
    fn notations(&self, node: RefNode) -> (r: Vec<RefNode>)
        requires
            self.forest().wf(),
            self.forest().contains(node),
        ensures
            r@ == match self.forest().node(node).extension {
                ExtensionView::DocumentType { notations, .. } => notations,
                _ => Seq::empty(),
            },
    ;

    /// The public identifier of the external subset; nothing for a node that is no
    /// document type.
    fn public_id(&self, node: RefNode) -> (r: Option<String>)
        requires
            self.forest().wf(),
            self.forest().contains(node),
        ensures
            opt_view(r) == match self.forest().node(node).extension {
                ExtensionView::DocumentType { public_id, .. } => public_id,
                _ => None,
            },
    ;

    /// The system identifier of the external subset; nothing for a node that is no
    /// document type.
    fn system_id(&self, node: RefNode) -> (r: Option<String>)
        requires
            self.forest().wf(),
            self.forest().contains(node),
        ensures
            opt_view(r) == match self.forest().node(node).extension {
                ExtensionView::DocumentType { system_id, .. } => system_id,
                _ => None,
            },
    ;

    /// The internal subset; nothing for a node that is no document type.
    fn internal_subset(&self, node: RefNode) -> (r: Option<String>)
        requires
            self.forest().wf(),
            self.forest().contains(node),
        ensures
            opt_view(r) == match self.forest().node(node).extension {
                ExtensionView::DocumentType { internal_subset, .. } => internal_subset,
                _ => None,
            },
    ;

    /// Makes an entity named `name`, with the identifiers and the notation given, and
    /// places it among the entities of the document type, in the place of the entity of
    /// that name if there is one.
    fn create_entity(
        &mut self,
        node: RefNode,
        name: &str,
        public_id: Option<&str>,
        system_id: Option<&str>,
        notation_name: Option<&str>,
    ) -> (r: Result<RefNode, Error>)
        requires
            old(self).forest().wf(),
            old(self).forest().contains(node),
        ensures
            final(self).forest().wf(),
            r is Ok <==> old(self).forest().declaration_error(node, parse_name(name@)) is None,
            r matches Ok(e) ==> e == old(self).forest().next() && final(self).forest().contains(e),
            r is Ok ==> final(self).forest() == old(self).forest().with_new(
                NodeView::detached(
                    NodeType::Entity,
                    parse_name(name@)->Ok_0,
                    None,
                    old(self).forest().node(node).owner_document,
                    ExtensionView::Entity {
                        public_id: str_view(public_id),
                        system_id: str_view(system_id),
                        notation_name: str_view(notation_name),
                    },
                ),
            ).with_entity(node, old(self).forest().next()),
            r matches Err(e) ==> Some(e) == old(self).forest().declaration_error(
                node,
                parse_name(name@),
            ) && final(self).forest() == old(self).forest(),
    ;

    /// Makes a notation named `name`, with the identifiers given, and places it among
    /// the notations of the document type, in the place of the notation of that name if
    /// there is one.
    fn create_notation(
        &mut self,
        node: RefNode,
        name: &str,
        public_id: Option<&str>,
        system_id: Option<&str>,
    ) -> (r: Result<RefNode, Error>)
        requires
            old(self).forest().wf(),
            old(self).forest().contains(node),
        ensures
            final(self).forest().wf(),
            r is Ok <==> old(self).forest().declaration_error(node, parse_name(name@)) is None,
            r matches Ok(e) ==> e == old(self).forest().next() && final(self).forest().contains(e),
            r is Ok ==> final(self).forest() == old(self).forest().with_new(
                NodeView::detached(
                    NodeType::Notation,
                    parse_name(name@)->Ok_0,
                    None,
                    old(self).forest().node(node).owner_document,
                    ExtensionView::Notation {
                        public_id: str_view(public_id),
                        system_id: str_view(system_id),
                    },
                ),
            ).with_notation(node, old(self).forest().next()),
            r matches Err(e) ==> Some(e) == old(self).forest().declaration_error(
                node,
                parse_name(name@),
            ) && final(self).forest() == old(self).forest(),
    ;
}

/// What an entity offers.
pub trait Entity: Node {
    /// The public identifier of the entity; nothing for a node that is no entity.
    fn public_id(&self, node: RefNode) -> (r: Option<String>)
        requires
            self.forest().wf(),
            self.forest().contains(node),
        ensures
            opt_view(r) == match self.forest().node(node).extension {
                ExtensionView::Entity { public_id, .. } => public_id,
                _ => None,
            },
    ;

    /// The system identifier of the entity; nothing for a node that is no entity.
    fn system_id(&self, node: RefNode) -> (r: Option<String>)
        requires
            self.forest().wf(),
            self.forest().contains(node),
        ensures
            opt_view(r) == match self.forest().node(node).extension {
                ExtensionView::Entity { system_id, .. } => system_id,
                _ => None,
            },
    ;

    /// The name of the notation of an unparsed entity; nothing for a node that is no
    /// entity.
    fn notation_name(&self, node: RefNode) -> (r: Option<String>)
        requires
            self.forest().wf(),
            self.forest().contains(node),
        ensures
            opt_view(r) == match self.forest().node(node).extension {
                ExtensionView::Entity { notation_name, .. } => notation_name,
                _ => None,
            },
    ;
}

/// What a notation offers.
pub trait Notation: Node {
    /// The public identifier of the notation; nothing for a node that is no notation.
    fn public_id(&self, node: RefNode) -> (r: Option<String>)
        requires
            self.forest().wf(),
            self.forest().contains(node),
        ensures
            opt_view(r) == match self.forest().node(node).extension {
                ExtensionView::Notation { public_id, .. } => public_id,
                _ => None,
            },
    ;

    /// The system identifier of the notation; nothing for a node that is no notation.
    fn system_id(&self, node: RefNode) -> (r: Option<String>)
        requires
            self.forest().wf(),
            self.forest().contains(node),
        ensures
            opt_view(r) == match self.forest().node(node).extension {
                ExtensionView::Notation { system_id, .. } => system_id,
                _ => None,
            },
    ;
}

/// What an element offers: its attributes, the namespaces it declares, and the search for
/// elements in its tree.
pub trait Element: Node {
    /// The value of the attribute named `name`; nothing where the element has no such
    /// attribute or the attribute no value, where `name` is no name, and for a node that
    /// is no element.
    fn get_attribute(&self, element: RefNode, name: &str) -> (r: Option<String>)
        requires
            self.forest().wf(),
            self.forest().contains(element),
        ensures
            opt_view(r) == self.forest().attribute_value(element, parse_name(name@)),
    ;

    /// Gives the element an attribute named `name` with the value `value`, in the place
    /// of the attribute of that name if it has one.
    fn set_attribute(&mut self, element: RefNode, name: &str, value: &str) -> (r: Result<(), Error>)
        requires
            old(self).forest().wf(),
            old(self).forest().contains(element),
        ensures
            final(self).forest().wf(),
            r is Ok <==> old(self).forest().new_attribute_error(element, parse_name(name@))
                is None,
            r is Ok ==> final(self).forest() == old(self).forest().with_new_attribute(
                element,
                parse_name(name@)->Ok_0,
                value@,
            ),
            r matches Err(e) ==> Some(e) == old(self).forest().new_attribute_error(
                element,
                parse_name(name@),
            ) && final(self).forest() == old(self).forest(),
    ;

    /// Takes the attribute named `name` from the element, if it has one.
    fn remove_attribute(&mut self, element: RefNode, name: &str) -> (r: Result<(), Error>)
        requires
            old(self).forest().wf(),
            old(self).forest().contains(element),
        ensures
            final(self).forest().wf(),
            r is Ok,
            final(self).forest() == old(self).forest().without_attribute(
                element,
                parse_name(name@),
            ),
    ;

    /// The attribute named `name`, if the element has one.
    fn get_attribute_node(&self, element: RefNode, name: &str) -> (r: Option<RefNode>)
        requires
            self.forest().wf(),
            self.forest().contains(element),
        ensures
            r == self.forest().attribute_named(element, parse_name(name@)),
            self.forest().contains_opt(r),
    ;

    /// Gives the element the attribute `new_attribute`, in the place of the attribute of
    /// the same name if it has one, and hands the attribute back. An attribute that
    /// declares a namespace binds its prefix to its value on the element.
    fn set_attribute_node(&mut self, element: RefNode, new_attribute: RefNode) -> (r: Result<
        RefNode,
        Error,
    >)
        requires
            old(self).forest().wf(),
            old(self).forest().contains(element),
            old(self).forest().contains(new_attribute),
        ensures
            final(self).forest().wf(),
            r is Ok <==> old(self).forest().attribute_error(element, new_attribute) is None,
            r matches Ok(a) ==> a == new_attribute && final(self).forest() == old(
                self,
            ).forest().set_attribute_node(element, new_attribute),
            r matches Err(e) ==> Some(e) == old(self).forest().attribute_error(
                element,
                new_attribute,
            ) && final(self).forest() == old(self).forest(),
    ;

    /// Takes the attribute `old_attribute` from the element and hands it back.
    fn remove_attribute_node(&mut self, element: RefNode, old_attribute: RefNode) -> (r: Result<
        RefNode,
        Error,
    >)
        requires
            old(self).forest().wf(),
            old(self).forest().contains(element),
        ensures
            final(self).forest().wf(),
            r is Ok <==> old(self).forest().node(element).attributes().contains(old_attribute),
            r matches Ok(a) ==> a == old_attribute && final(self).forest() == old(
                self,
            ).forest().without_attribute_node(element, old_attribute),
            r matches Err(e) ==> final(self).forest() == old(self).forest() && e == if old(
                self,
            ).forest().kind(element) == NodeType::Element {
                Error::NotFound
            } else {
                Error::InvalidState
            },
    ;

    /// The elements named `tag_name` among the element and the nodes below it, in document
    /// order. The name `*` stands for every name. None for a node that is no element.
    fn get_elements_by_tag_name(&self, element: RefNode, tag_name: &str) -> (r: Vec<RefNode>)
        requires
            self.forest().wf(),
            self.forest().contains(element),
        ensures
            r@ == self.forest().found(element, QueryView::Tag(tag_name@)),
            forall|k: int| 0 <= k < r@.len() ==> self.forest().contains(#[trigger] r@[k]),
    ;

    /// The value of the attribute named `local_name` in the namespace `namespace_uri`.
    fn get_attribute_ns(&self, element: RefNode, namespace_uri: &str, local_name: &str) -> (r:
        Option<String>)
        requires
            self.forest().wf(),
            self.forest().contains(element),
        ensures
            opt_view(r) == self.forest().attribute_value(
                element,
                parse_name_ns(namespace_uri@, local_name@),
            ),
    ;

    /// Gives the element an attribute named `qualified_name` in the namespace
    /// `namespace_uri`, with the value `value`.
    fn set_attribute_ns(
        &mut self,
        element: RefNode,
        namespace_uri: &str,
        qualified_name: &str,
        value: &str,
    ) -> (r: Result<(), Error>)
        requires
            old(self).forest().wf(),
            old(self).forest().contains(element),
        ensures
            final(self).forest().wf(),
            r is Ok <==> old(self).forest().new_attribute_error(
                element,
                parse_name_ns(namespace_uri@, qualified_name@),
            ) is None,
            r is Ok ==> final(self).forest() == old(self).forest().with_new_attribute(
                element,
                parse_name_ns(namespace_uri@, qualified_name@)->Ok_0,
                value@,
            ),
            r matches Err(e) ==> Some(e) == old(self).forest().new_attribute_error(
                element,
                parse_name_ns(namespace_uri@, qualified_name@),
            ) && final(self).forest() == old(self).forest(),
    ;

    /// Takes the attribute named `local_name` in the namespace `namespace_uri` from the
    /// element, if it has one.
    fn remove_attribute_ns(&mut self, element: RefNode, namespace_uri: &str, local_name: &str) -> (r:
        Result<(), Error>)
        requires
            old(self).forest().wf(),
            old(self).forest().contains(element),
        ensures
            final(self).forest().wf(),
            r is Ok,
            final(self).forest() == old(self).forest().without_attribute(
                element,
                parse_name_ns(namespace_uri@, local_name@),
            ),
    ;

    /// The attribute named `local_name` in the namespace `namespace_uri`, if the element
    /// has one.
    fn get_attribute_node_ns(&self, element: RefNode, namespace_uri: &str, local_name: &str) -> (r:
        Option<RefNode>)
        requires
            self.forest().wf(),
            self.forest().contains(element),
        ensures
            r == self.forest().attribute_named(
                element,
                parse_name_ns(namespace_uri@, local_name@),
            ),
            self.forest().contains_opt(r),
    ;

    /// Gives the element the attribute `new_attribute`, as `set_attribute_node` does.
    fn set_attribute_node_ns(&mut self, element: RefNode, new_attribute: RefNode) -> (r: Result<
        RefNode,
        Error,
    >)
        requires
            old(self).forest().wf(),
            old(self).forest().contains(element),
            old(self).forest().contains(new_attribute),
        ensures
            final(self).forest().wf(),
            r is Ok <==> old(self).forest().attribute_error(element, new_attribute) is None,
            r matches Ok(a) ==> a == new_attribute && final(self).forest() == old(
                self,
            ).forest().set_attribute_node(element, new_attribute),
            r matches Err(e) ==> Some(e) == old(self).forest().attribute_error(
                element,
                new_attribute,
            ) && final(self).forest() == old(self).forest(),
    ;

    /// The elements with the local name `local_name` in the namespace `namespace_uri`
    /// among the element and the nodes below it, in document order. The string `*` stands
    /// for every namespace and for every local name.
    fn get_elements_by_tag_name_ns(&self, element: RefNode, namespace_uri: &str, local_name: &str)
        -> (r: Vec<RefNode>)
        requires
            self.forest().wf(),
            self.forest().contains(element),
        ensures
            r@ == self.forest().found(element, QueryView::Namespaced(namespace_uri@, local_name@)),
            forall|k: int| 0 <= k < r@.len() ==> self.forest().contains(#[trigger] r@[k]),
    ;

    /// Whether the element has an attribute named `name`.
    fn has_attribute(&self, element: RefNode, name: &str) -> (r: bool)
        requires
            self.forest().wf(),
            self.forest().contains(element),
        ensures
            r == self.forest().attribute_named(element, parse_name(name@)) is Some,
    ;

    /// Whether the element has an attribute named `local_name` in the namespace
    /// `namespace_uri`.
    fn has_attribute_ns(&self, element: RefNode, namespace_uri: &str, local_name: &str) -> (r: bool)
        requires
            self.forest().wf(),
            self.forest().contains(element),
        ensures
            r == self.forest().attribute_named(
                element,
                parse_name_ns(namespace_uri@, local_name@),
            ) is Some,
    ;

    /// The namespace that `prefix` is bound to on the element, or the default namespace
    /// where no prefix is given; nothing where the element declares none.
    fn lookup_namespace_uri(&self, element: RefNode, prefix: Option<&str>) -> (r: Option<String>)
        requires
            self.forest().wf(),
            self.forest().contains(element),
        ensures
            opt_view(r) == self.forest().namespace_of(element, str_view(prefix)),
    ;
}

} // verus!
