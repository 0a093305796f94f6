//! The operations of documents, and of the nodes of a document type.

use vstd::prelude::*;
use crate::arena::NodeArena;
use crate::dom_impl::{get_implementation, Implementation};
use crate::error::Error;
use crate::forest::Forest;
use crate::name::{Name, NameView};
use crate::node::{Extension, ExtensionView, NodeType, RefNode};
use crate::node_impl::{clone_handles, put, NodeImpl};
use crate::search::Query;
use crate::text::clone_opt_string;
use crate::traits::{Document, DocumentFragment, DocumentType, Entity, EntityReference, Notation};

verus! {

impl Document for NodeArena {
    fn doc_type(&self, document: RefNode) -> (r: Option<RefNode>) {
        proof {
            assert(self@.node_wf(document));
        }
        match self.record(document).extension() {
            Extension::Document { i_document_type, .. } => *i_document_type,
            _ => None,
        }
    }

    fn document_element(&self, document: RefNode) -> (r: Option<RefNode>) {
        proof {
            assert(self@.node_wf(document));
        }
        match self.record(document).extension() {
            Extension::Document { i_document_element, .. } => *i_document_element,
            _ => None,
        }
    }

    fn implementation(&self, document: RefNode) -> (r: Implementation) {
        get_implementation()
    }

    fn create_attribute(&mut self, document: RefNode, name: &str) -> (r: Result<RefNode, Error>) {
        match Name::parse(name) {
            Err(e) => Err(e),
            Ok(name) => Ok(self.create(NodeImpl::new_attribute(document.downgrade(), name, None))),
        }
    }

    fn create_attribute_with(&mut self, document: RefNode, name: &str, value: &str) -> (r: Result<
        RefNode,
        Error,
    >) {
        match Name::parse(name) {
            Err(e) => Err(e),
            Ok(name) => Ok(
                self.create(NodeImpl::new_attribute(document.downgrade(), name, Some(value))),
            ),
        }
    }

    fn create_attribute_ns(&mut self, document: RefNode, namespace_uri: &str, qualified_name: &str)
        -> (r: Result<RefNode, Error>) {
        match Name::from_namespace(namespace_uri, qualified_name) {
            Err(e) => Err(e),
            Ok(name) => Ok(self.create(NodeImpl::new_attribute(document.downgrade(), name, None))),
        }
    }

    fn create_cdata_section(&mut self, document: RefNode, data: &str) -> (r: Result<RefNode, Error>) {
        Ok(self.create(NodeImpl::new_cdata(document.downgrade(), data)))
    }

    fn create_document_fragment(&mut self, document: RefNode) -> (r: Result<RefNode, Error>) {
        Ok(self.create(NodeImpl::new_document_fragment(document.downgrade())))
    }

    fn create_entity_reference(&mut self, document: RefNode, name: &str) -> (r: Result<
        RefNode,
        Error,
    >) {
        match Name::parse(name) {
            Err(e) => Err(e),
            Ok(name) => Ok(self.create(NodeImpl::new_entity_reference(document.downgrade(), name))),
        }
    }

    fn create_comment(&mut self, document: RefNode, data: &str) -> (r: RefNode) {
        self.create(NodeImpl::new_comment(document.downgrade(), data))
    }

    fn create_element(&mut self, document: RefNode, tag_name: &str) -> (r: Result<RefNode, Error>) {
        match Name::parse(tag_name) {
            Err(e) => Err(e),
            Ok(name) => Ok(self.create(NodeImpl::new_element(document.downgrade(), name))),
        }
    }

    fn create_element_ns(&mut self, document: RefNode, namespace_uri: &str, qualified_name: &str)
        -> (r: Result<RefNode, Error>) {
        match Name::from_namespace(namespace_uri, qualified_name) {
            Err(e) => Err(e),
            Ok(name) => Ok(self.create(NodeImpl::new_element(document.downgrade(), name))),
        }
    }

    fn create_processing_instruction(&mut self, document: RefNode, target: &str, data: Option<&str>)
        -> (r: Result<RefNode, Error>) {
        match Name::parse(target) {
            Err(e) => Err(e),
            Ok(name) => Ok(
                self.create(
                    NodeImpl::new_processing_instruction(document.downgrade(), name, data),
                ),
            ),
        }
    }

    fn create_text_node(&mut self, document: RefNode, data: &str) -> (r: RefNode) {
        self.create(NodeImpl::new_text(document.downgrade(), data))
    }

    fn get_element_by_id(&self, document: RefNode, id: &str) -> (r: Option<RefNode>) {
        None
    }

    fn get_elements_by_tag_name(&self, document: RefNode, tag_name: &str) -> (r: Vec<RefNode>) {
        match self.document_element(document) {
            None => Vec::new(),
            Some(root) => self.find(root, &Query::Tag(tag_name.to_owned())),
        }
    }

    fn get_elements_by_tag_name_ns(&self, document: RefNode, namespace_uri: &str, local_name: &str)
        -> (r: Vec<RefNode>) {
        match self.document_element(document) {
            None => Vec::new(),
            Some(root) => self.find(
                root,
                &Query::Namespaced(namespace_uri.to_owned(), local_name.to_owned()),
            ),
        }
    }
}

impl DocumentFragment for NodeArena {

}

impl EntityReference for NodeArena {

}

impl DocumentType for NodeArena {
    fn entities(&self, node: RefNode) -> (r: Vec<RefNode>) {
        match self.record(node).extension() {
            Extension::DocumentType { i_entities, .. } => clone_handles(i_entities),
            _ => Vec::new(),
        }
    }

    fn notations(&self, node: RefNode) -> (r: Vec<RefNode>) {
        match self.record(node).extension() {
            Extension::DocumentType { i_notations, .. } => clone_handles(i_notations),
            _ => Vec::new(),
        }
    }

    fn public_id(&self, node: RefNode) -> (r: Option<String>) {
        match self.record(node).extension() {
            Extension::DocumentType { i_public_id, .. } => clone_opt_string(i_public_id),
            _ => None,
        }
    }

    fn system_id(&self, node: RefNode) -> (r: Option<String>) {
        match self.record(node).extension() {
            Extension::DocumentType { i_system_id, .. } => clone_opt_string(i_system_id),
            _ => None,
        }
    }

    fn internal_subset(&self, node: RefNode) -> (r: Option<String>) {
        match self.record(node).extension() {
            Extension::DocumentType { i_internal_subset, .. } => clone_opt_string(
                i_internal_subset,
            ),
            _ => None,
        }
    }

    fn create_entity(
        &mut self,
        node: RefNode,
        name: &str,
        public_id: Option<&str>,
        system_id: Option<&str>,
        notation_name: Option<&str>,
    ) -> (r: Result<RefNode, Error>) {
        let name = match Name::parse(name) {
            Err(e) => {
                return Err(e);
            },
            Ok(name) => name,
        };
        if self.record(node).node_type() != NodeType::DocumentType {
            return Err(Error::InvalidState);
        }
        proof {
            assert(self@.node_wf(node));
        }
        let owner = self.record(node).owner_document();
        let record = NodeImpl::new_entity(owner, name, public_id, system_id, notation_name);
        Ok(self.declare(node, record))
    }

    fn create_notation(
        &mut self,
        node: RefNode,
        name: &str,
        public_id: Option<&str>,
        system_id: Option<&str>,
    ) -> (r: Result<RefNode, Error>) {
        let name = match Name::parse(name) {
            Err(e) => {
                return Err(e);
            },
            Ok(name) => name,
        };
        if self.record(node).node_type() != NodeType::DocumentType {
            return Err(Error::InvalidState);
        }
        proof {
            assert(self@.node_wf(node));
        }
        let owner = self.record(node).owner_document();
        let record = NodeImpl::new_notation(owner, name, public_id, system_id);
        Ok(self.declare(node, record))
    }
}

impl Forest {
    /// Why no entity or notation named `name` can be declared in `doc_type`, if none can:
    /// the name is no name, or `doc_type` is no document type.
    pub open spec fn declaration_error(self, doc_type: RefNode, name: Result<NameView, Error>)
        -> Option<Error> {
        match name {
            Err(e) => Some(e),
            Ok(_) => if self.kind(doc_type) != NodeType::DocumentType {
                Some(Error::InvalidState)
            } else {
                None
            },
        }
    }

    /// The forest in which `entity` stands among the entities of the document type
    /// `doc_type`: in the place of the entity of its name if there is one, and behind
    /// them all otherwise.
    pub open spec fn with_entity(self, doc_type: RefNode, entity: RefNode) -> Forest {
        let ext = self.node(doc_type).extension;
        self.with_extension(
            doc_type,
            ExtensionView::DocumentType {
                entities: put(
                    ext->entities,
                    self.key_position(ext->entities, self.node(entity).name, 0),
                    entity,
                ),
                notations: ext->notations,
                public_id: ext->DocumentType_public_id,
                system_id: ext->DocumentType_system_id,
                internal_subset: ext->internal_subset,
            },
        )
    }

    /// The forest in which `notation` stands among the notations of the document type
    /// `doc_type`: in the place of the notation of its name if there is one, and behind
    /// them all otherwise.
    pub open spec fn with_notation(self, doc_type: RefNode, notation: RefNode) -> Forest {
        let ext = self.node(doc_type).extension;
        self.with_extension(
            doc_type,
            ExtensionView::DocumentType {
                entities: ext->entities,
                notations: put(
                    ext->notations,
                    self.key_position(ext->notations, self.node(notation).name, 0),
                    notation,
                ),
                public_id: ext->DocumentType_public_id,
                system_id: ext->DocumentType_system_id,
                internal_subset: ext->internal_subset,
            },
        )
    }

    /// A list of nodes of distinct keys is one still, in every forest that gives the nodes
    /// the names they have here, when a node is put into it where its key is found, or
    /// behind the list where its key is not found.
    #[verifier::rlimit(40)]
    pub proof fn lemma_put_keeps_keys(self, g: Forest, list: Seq<RefNode>, x: RefNode)
        requires
            self.distinct_keys(list),
            self.contains(x),
            forall|k: int| 0 <= k < list.len() ==> self.contains(#[trigger] list[k]),
            forall|y: RefNode| self.contains(y) ==> (#[trigger] g.node(y)).name == self.node(y).name,
        ensures
            g.distinct_keys(put(list, self.key_position(list, self.node(x).name, 0), x)),
    {
        let key = self.node(x).name;
        let at = self.key_position(list, key, 0);
        self.lemma_key_position(list, key, 0);
        let after = put(list, at, x);
        assert forall|i: int, j: int| 0 <= i < j < after.len() implies !g.node(
            #[trigger] after[i],
        ).name.same_key(g.node(#[trigger] after[j]).name) by {
            if at < list.len() {
                if i != at && j != at {
                    assert(after[i] == list[i] && after[j] == list[j]);
                    assert(!self.node(list[i]).name.same_key(self.node(list[j]).name));
                } else if i == at {
                    assert(after[j] == list[j]);
                    assert(!self.node(list[at]).name.same_key(self.node(list[j]).name));
                } else {
                    assert(after[i] == list[i]);
                    assert(!self.node(list[i]).name.same_key(self.node(list[at]).name));
                }
            } else {
                assert(after[i] == list[i]);
                if j < list.len() {
                    assert(after[j] == list[j]);
                    assert(!self.node(list[i]).name.same_key(self.node(list[j]).name));
                }
            }
        }
    }

    /// A list of nodes of distinct keys is one in every forest that gives the nodes the
    /// names they have here.
    pub proof fn lemma_same_names_keys(self, g: Forest, list: Seq<RefNode>)
        requires
            self.distinct_keys(list),
            forall|k: int| 0 <= k < list.len() ==> self.contains(#[trigger] list[k]),
            forall|y: RefNode| self.contains(y) ==> (#[trigger] g.node(y)).name == self.node(y).name,
        ensures
            g.distinct_keys(list),
    {
        assert forall|i: int, j: int| 0 <= i < j < list.len() implies !g.node(
            #[trigger] list[i],
        ).name.same_key(g.node(#[trigger] list[j]).name) by {
            assert(!self.node(list[i]).name.same_key(self.node(list[j]).name));
            assert(self.contains(list[i]) && self.contains(list[j]));
        }
    }

    /// A list of nodes of one kind is one still when a node of the kind is put into it.
    pub proof fn lemma_put_keeps_kind(self, list: Seq<RefNode>, at: int, x: RefNode, kind: NodeType)
        requires
            self.contains(x),
            self.kind(x) == kind,
            forall|k: int|
                0 <= k < list.len() ==> self.contains(#[trigger] list[k]) && self.kind(list[k])
                    == kind,
        ensures
            forall|k: int|
                0 <= k < put(list, at, x).len() ==> self.contains(#[trigger] put(list, at, x)[k])
                    && self.kind(put(list, at, x)[k]) == kind,
    {
        let after = put(list, at, x);
        assert forall|k: int| 0 <= k < after.len() implies self.contains(#[trigger] after[k])
            && self.kind(after[k]) == kind by {
            if k < list.len() && k != at {
                assert(after[k] == list[k]);
            }
        }
    }
}

impl NodeArena {
    /// The first index at which a node with the key of `key` stands in `list`, or the
    /// length of `list` if none does.
    pub fn key_index(&self, list: &Vec<RefNode>, key: &Name) -> (r: usize)
        requires
            forall|k: int| 0 <= k < list@.len() ==> self@.contains(#[trigger] list@[k]),
        ensures
            r == self@.key_position(list@, key@, 0),
            r <= list@.len(),
    {
        proof {
            self@.lemma_key_position(list@, key@, 0);
        }
        let mut i: usize = 0;
        while i < list.len()
            invariant
                forall|k: int| 0 <= k < list@.len() ==> self@.contains(#[trigger] list@[k]),
                0 <= i <= list.len(),
                self@.key_position(list@, key@, 0) == self@.key_position(list@, key@, i as int),
            decreases list.len() - i,
        {
            if self.record(list[i]).name().same_key(key) {
                return i;
            }
            i = i + 1;
        }
        i
    }

    /// Makes the node `record`, an entity or a notation, and declares it in `doc_type`.
    #[verifier::rlimit(40)]
    fn declare(&mut self, doc_type: RefNode, record: NodeImpl) -> (r: RefNode)
        requires
            old(self)@.wf(),
            old(self)@.contains(doc_type),
            old(self)@.kind(doc_type) == NodeType::DocumentType,
            old(self)@.admits(record@),
            record@.node_type == NodeType::Entity || record@.node_type == NodeType::Notation,
        ensures
            final(self)@.wf(),
            r == old(self)@.next(),
            final(self)@.contains(r),
            record@.node_type == NodeType::Entity ==> final(self)@ == old(self)@.with_new(
                record@,
            ).with_entity(doc_type, r),
            record@.node_type == NodeType::Notation ==> final(self)@ == old(self)@.with_new(
                record@,
            ).with_notation(doc_type, r),
    {
        let is_entity = record.node_type() == NodeType::Entity;
        let name = record.name().clone();
        let node = self.create(record);
        proof {
            assert(self@.node_wf(doc_type));
        }
        let at = match self.record(doc_type).extension() {
            Extension::DocumentType { i_entities, i_notations, .. } => {
                if is_entity {
                    self.key_index(i_entities, &name)
                } else {
                    self.key_index(i_notations, &name)
                }
            },
            _ => 0,
        };
        proof {
            let ext = self@.node(doc_type).extension;
            if is_entity {
                self@.lemma_put_keeps_kind(ext->entities, at as int, node, NodeType::Entity);
                let g = self@.with_entity(doc_type, node);
                self@.lemma_put_keeps_keys(g, ext->entities, node);
                assert(g.distinct_keys(ext->notations)) by {
                    self@.lemma_same_names_keys(g, ext->notations);
                }
                assert(g.extension_wf(doc_type));
                self@.lemma_with_extension(doc_type, g.node(doc_type).extension);
            } else {
                self@.lemma_put_keeps_kind(ext->notations, at as int, node, NodeType::Notation);
                let g = self@.with_notation(doc_type, node);
                self@.lemma_put_keeps_keys(g, ext->notations, node);
                assert(g.distinct_keys(ext->entities)) by {
                    self@.lemma_same_names_keys(g, ext->entities);
                }
                assert(g.extension_wf(doc_type));
                self@.lemma_with_extension(doc_type, g.node(doc_type).extension);
            }
        }
        if is_entity {
            self.put_entity_of(doc_type, at, node);
        } else {
            self.put_notation_of(doc_type, at, node);
        }
        node
    }
}

impl Entity for NodeArena {
    fn public_id(&self, node: RefNode) -> (r: Option<String>) {
        match self.record(node).extension() {
            Extension::Entity { i_public_id, .. } => clone_opt_string(i_public_id),
            _ => None,
        }
    }

    fn system_id(&self, node: RefNode) -> (r: Option<String>) {
        match self.record(node).extension() {
            Extension::Entity { i_system_id, .. } => clone_opt_string(i_system_id),
            _ => None,
        }
    }

    fn notation_name(&self, node: RefNode) -> (r: Option<String>) {
        match self.record(node).extension() {
            Extension::Entity { i_notation_name, .. } => clone_opt_string(i_notation_name),
            _ => None,
        }
    }
}

impl Notation for NodeArena {
    fn public_id(&self, node: RefNode) -> (r: Option<String>) {
        match self.record(node).extension() {
            Extension::Notation { i_public_id, .. } => clone_opt_string(i_public_id),
            _ => None,
        }
    }

    fn system_id(&self, node: RefNode) -> (r: Option<String>) {
        match self.record(node).extension() {
            Extension::Notation { i_system_id, .. } => clone_opt_string(i_system_id),
            _ => None,
        }
    }
}

} // verus!
