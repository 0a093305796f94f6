//! The implementation: where documents and document types are made.

use vstd::prelude::*;
use crate::arena::NodeArena;
use crate::error::Error;
use crate::forest::Forest;
use crate::name::{parse_name, parse_name_ns, Name, NameView};
use crate::node::{ExtensionView, NodeType, NodeView, RefNode};
use crate::node_impl::NodeImpl;
use crate::text::{str_eq, str_view};
use crate::traits::bare_element;

verus! {

/// Whether the implementation offers the version `version` of the feature `feature`: the
/// features `Core` and `XML` in version `1.0`, and `Core` in version `2.0`.
pub open spec fn feature_supported(feature: Seq<char>, version: Seq<char>) -> bool {
    ||| (feature == "Core"@ || feature == "XML"@) && version == "1.0"@
    ||| feature == "Core"@ && version == "2.0"@
}

impl Forest {
    /// The forest with a new document, whose handle is `self.next()`, and the element of
    /// that document, named `name` and owned by the document.
    pub open spec fn with_document(self, name: NameView, doc_type: Option<RefNode>) -> Forest {
        let document = self.next();
        let f = self.with_new(
            NodeView::detached(
                NodeType::Document,
                Name::reserved_view("#document"@),
                None,
                None,
                ExtensionView::Document { document_element: None, document_type: doc_type },
            ),
        );
        let g = f.with_new(
            NodeView::detached(NodeType::Element, name, None, Some(document), bare_element()),
        );
        g.with_extension(
            document,
            ExtensionView::Document { document_element: Some(f.next()), document_type: doc_type },
        )
    }

    /// A new document with its element keeps the forest well formed, and changes no other
    /// node.
    #[verifier::rlimit(40)]
    pub proof fn lemma_with_document(self, name: NameView, doc_type: Option<RefNode>)
        requires
            self.wf(),
            self.nodes.len() + 1 < usize::MAX,
            doc_type matches Some(t) ==> self.contains(t) && self.kind(t) == NodeType::DocumentType,
        ensures
            self.with_document(name, doc_type).wf(),
            self.with_document(name, doc_type).contains(self.next()),
            self.with_document(name, doc_type).kind(self.next()) == NodeType::Document,
            self.with_document(name, doc_type).slot(self.next(), NodeType::Element) is Some,
            forall|n: RefNode|
                self.contains(n) ==> #[trigger] self.with_document(name, doc_type).node(n)
                    == self.node(n),
    {
        let g = self.with_document(name, doc_type);
        let document = self.next();
        let element = RefNode { index: (self.nodes.len() + 1) as usize };
        assert(g.nodes.len() == self.nodes.len() + 2);
        assert(g.node(element).owner_document == Some(document));
        assert forall|n: RefNode| g.contains(n) implies #[trigger] g.node_wf(n) by {
            if n != document && n != element {
                assert(self.contains(n));
                assert(self.node_wf(n));
                assert(g.node(n) == self.node(n));
                assert forall|k: int| 0 <= k < g.node(n).children.len() implies g.contains(
                    #[trigger] g.node(n).children[k],
                ) && g.node(g.node(n).children[k]).parent == Some(n) by {
                    assert(self.contains(self.node(n).children[k]));
                }
                if self.node(n).parent is Some {
                    assert(self.contains(self.node(n).parent->0));
                }
                assert(g.extension_wf(n));
            } else {
                assert(g.extension_wf(n));
            }
        }
        self.lemma_ranking();
        let rb = self.ranking();
        let rank = rb.0.push(0nat).push(0nat);
        assert forall|n: RefNode|
            g.contains(n) && (#[trigger] g.node(n)).parent is Some implies g.contains(
            g.node(n).parent->0,
        ) && rank[n.index as int] < rank[g.node(n).parent->0.index as int] by {
            assert(self.contains(n));
            assert(self.node(n).parent == g.node(n).parent);
        }
        assert(g.ranked_by(rank, rb.1));
    }

    /// Why no document with an element named `name` and the document type `doc_type` can
    /// be made, if none can: the name is no name, or `doc_type` is no document type.
    pub open spec fn document_error(self, name: Result<NameView, Error>, doc_type: Option<RefNode>)
        -> Option<Error> {
        match name {
            Err(e) => Some(e),
            Ok(_) => match doc_type {
                Some(t) if self.kind(t) != NodeType::DocumentType => Some(Error::InvalidState),
                _ => None,
            },
        }
    }
}

/// The maker of documents. It has no state: every implementation is like every other.
#[derive(Clone, Copy, Debug)]
pub struct Implementation {}

/// The implementation.
pub fn get_implementation() -> (r: Implementation) {
    Implementation {  }
}

impl Implementation {
    /// Makes a document in `arena`, and in it the element of the document, which is named
    /// `qualified_name` and in the namespace `namespace_uri`. The document has the document
    /// type `doc_type`, if one is given.
    #[verifier::rlimit(40)]
    pub fn create_document(
        &self,
        arena: &mut NodeArena,
        namespace_uri: &str,
        qualified_name: &str,
        doc_type: Option<RefNode>,
    ) -> (r: Result<RefNode, Error>)
        requires
            old(arena)@.wf(),
            old(arena)@.contains_opt(doc_type),
        ensures
            final(arena)@.wf(),
            r is Ok <==> old(arena)@.document_error(
                parse_name_ns(namespace_uri@, qualified_name@),
                doc_type,
            ) is None,
            r matches Ok(d) ==> d == old(arena)@.next() && final(arena)@.contains(d),
            r is Ok ==> final(arena)@ == old(arena)@.with_document(
                parse_name_ns(namespace_uri@, qualified_name@)->Ok_0,
                doc_type,
            ),
            r matches Err(e) ==> Some(e) == old(arena)@.document_error(
                parse_name_ns(namespace_uri@, qualified_name@),
                doc_type,
            ) && final(arena)@ == old(arena)@,
    {
        let name = match Name::from_namespace(namespace_uri, qualified_name) {
            Err(e) => {
                return Err(e);
            },
            Ok(name) => name,
        };
        match doc_type {
            Some(t) => {
                if arena.record(t).node_type() != NodeType::DocumentType {
                    return Err(Error::InvalidState);
                }
            },
            None => {},
        }
        let document = arena.add(NodeImpl::new_document(doc_type));
        let element = arena.add(NodeImpl::new_element(document.downgrade(), name));
        arena.set_document_element_of(document, Some(element));
        proof {
            old(arena)@.lemma_with_document(name@, doc_type);
        }
        Ok(document)
    }

    /// Makes a document type named `qualified_name` in `arena`, with the identifiers given.
    /// No document owns it.
    pub fn create_document_type(
        &self,
        arena: &mut NodeArena,
        qualified_name: &str,
        public_id: Option<&str>,
        system_id: Option<&str>,
    ) -> (r: Result<RefNode, Error>)
        requires
            old(arena)@.wf(),
        ensures
            final(arena)@.wf(),
            old(arena)@.makes(
                final(arena)@,
                r,
                parse_name(qualified_name@),
                NodeType::DocumentType,
                None,
                None,
                ExtensionView::DocumentType {
                    entities: Seq::empty(),
                    notations: Seq::empty(),
                    public_id: str_view(public_id),
                    system_id: str_view(system_id),
                    internal_subset: None,
                },
            ),
    {
        match Name::parse(qualified_name) {
            Err(e) => Err(e),
            Ok(name) => {
                let node = NodeImpl::new_document_type(None, name, public_id, system_id);
                Ok(arena.create(node))
            },
        }
    }

    /// Whether the implementation offers the version `version` of the feature `feature`.
    pub fn has_feature(&self, feature: &str, version: &str) -> (r: bool)
        ensures
            r == feature_supported(feature@, version@),
    {
        ((str_eq(feature, "Core") || str_eq(feature, "XML")) && str_eq(version, "1.0")) || (str_eq(
            feature,
            "Core",
        ) && str_eq(version, "2.0"))
    }
}

} // verus!
