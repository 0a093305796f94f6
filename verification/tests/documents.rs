use xml_dom::arena::NodeArena;
use xml_dom::dom_impl::{get_implementation, Implementation};
use xml_dom::error::Error;
use xml_dom::node::{NodeType, RefNode};
use xml_dom::traits::{
    CharacterData, Document, DocumentType, Element, Entity, Node, Notation,
};

fn new_document(arena: &mut NodeArena) -> RefNode {
    get_implementation()
        .create_document(arena, "http://example.org/", "root", None)
        .unwrap()
}

#[test]
fn create_document_makes_the_document_and_its_element() {
    let mut arena = NodeArena::new();
    let doc = new_document(&mut arena);
    assert_eq!(arena.node_type(doc), NodeType::Document);
    assert_eq!(arena.name(doc).to_string(), "#document");
    assert_eq!(arena.owner_document(doc), None);
    assert_eq!(arena.parent_node(doc), None);
    assert_eq!(arena.doc_type(doc), None);
    let root = arena.document_element(doc).unwrap();
    assert_eq!(arena.node_type(root), NodeType::Element);
    assert_eq!(arena.name(root).to_string(), "root");
    assert_eq!(arena.name(root).namespace_uri(), Some("http://example.org/".to_string()));
    assert_eq!(arena.owner_document(root), Some(doc));
    assert_eq!(arena.parent_node(root), None);
    assert_eq!(arena.child_nodes(doc), vec![]);
    assert_eq!(arena.len(), 2);
}

#[test]
fn document_scenario_with_five_children() {
    let mut arena = NodeArena::new();
    let doc = new_document(&mut arena);
    let root = arena.document_element(doc).unwrap();
    assert_eq!(arena.name(root).to_string(), "root");
    for i in 1..6 {
        let child = arena.create_element(doc, &format!("child-{}", i)).unwrap();
        arena.append_child(root, child).unwrap();
    }
    let third = arena.child_nodes(root)[2];
    assert_eq!(arena.name(third).to_string(), "child-3");
    let fourth = arena.next_sibling(third).unwrap();
    assert_eq!(arena.name(fourth).to_string(), "child-4");
    let fifth = arena.next_sibling(fourth).unwrap();
    assert_eq!(arena.name(fifth).to_string(), "child-5");
    assert_eq!(arena.next_sibling(fifth), None);
}

#[test]
fn create_document_fails_on_a_bad_name() {
    let mut arena = NodeArena::new();
    let implementation = get_implementation();
    assert_eq!(
        implementation.create_document(&mut arena, "http://example.org/", "", None).unwrap_err(),
        Error::Syntax
    );
    assert_eq!(
        implementation
            .create_document(&mut arena, "http://example.org/", "a b", None)
            .unwrap_err(),
        Error::InvalidCharacter
    );
    assert_eq!(
        implementation.create_document(&mut arena, "", "p:root", None).unwrap_err(),
        Error::Namespace
    );
    assert_eq!(arena.len(), 0);
}

#[test]
fn create_document_takes_a_document_type() {
    let mut arena = NodeArena::new();
    let implementation = get_implementation();
    let doc_type = implementation
        .create_document_type(&mut arena, "html", Some("-//W3C//DTD"), Some("x.dtd"))
        .unwrap();
    let doc = implementation
        .create_document(&mut arena, "http://example.org/", "html", Some(doc_type))
        .unwrap();
    assert_eq!(arena.doc_type(doc), Some(doc_type));
    assert_eq!(arena.node_type(doc_type), NodeType::DocumentType);
    assert_eq!(arena.name(doc_type).to_string(), "html");
    assert_eq!(DocumentType::public_id(&arena, doc_type), Some("-//W3C//DTD".to_string()));
    assert_eq!(DocumentType::system_id(&arena, doc_type), Some("x.dtd".to_string()));
    assert_eq!(arena.internal_subset(doc_type), None);
    assert_eq!(arena.entities(doc_type), vec![]);
    assert_eq!(arena.notations(doc_type), vec![]);
    assert_eq!(arena.owner_document(doc_type), None);
}

#[test]
fn create_document_refuses_a_document_type_that_is_none() {
    let mut arena = NodeArena::new();
    let implementation = get_implementation();
    let doc = new_document(&mut arena);
    let root = arena.document_element(doc).unwrap();
    let count = arena.len();
    assert_eq!(
        implementation
            .create_document(&mut arena, "http://example.org/", "x", Some(root))
            .unwrap_err(),
        Error::InvalidState
    );
    assert_eq!(arena.len(), count);
}

#[test]
fn create_document_type_fails_on_a_bad_name() {
    let mut arena = NodeArena::new();
    let implementation = get_implementation();
    assert_eq!(
        implementation.create_document_type(&mut arena, "", None, None).unwrap_err(),
        Error::Syntax
    );
    assert_eq!(
        implementation.create_document_type(&mut arena, "<", None, None).unwrap_err(),
        Error::InvalidCharacter
    );
    let bare = implementation.create_document_type(&mut arena, "d", None, None).unwrap();
    assert_eq!(DocumentType::public_id(&arena, bare), None);
    assert_eq!(DocumentType::system_id(&arena, bare), None);
}

#[test]
fn has_feature_knows_core_and_xml() {
    let implementation = get_implementation();
    assert!(implementation.has_feature("Core", "1.0"));
    assert!(implementation.has_feature("XML", "1.0"));
    assert!(implementation.has_feature("Core", "2.0"));
    assert!(!implementation.has_feature("XML", "2.0"));
    assert!(!implementation.has_feature("Core", "3.0"));
    assert!(!implementation.has_feature("core", "1.0"));
    assert!(!implementation.has_feature("Events", "2.0"));
    assert!(!implementation.has_feature("", ""));
}

#[test]
fn nodes_tell_what_is_supported() {
    let mut arena = NodeArena::new();
    let doc = new_document(&mut arena);
    assert!(arena.is_supported(doc, "Core", "2.0"));
    assert!(!arena.is_supported(doc, "XML", "2.0"));
    let implementation: Implementation = arena.implementation(doc);
    assert!(implementation.has_feature("XML", "1.0"));
}

#[test]
fn documents_make_nodes_of_every_kind() {
    let mut arena = NodeArena::new();
    let doc = new_document(&mut arena);

    let e = arena.create_element(doc, "p:e").unwrap();
    assert_eq!(arena.node_type(e), NodeType::Element);
    assert_eq!(arena.name(e).to_string(), "p:e");
    assert_eq!(arena.node_value(e), None);

    let en = arena.create_element_ns(doc, "http://example.org/ns", "q:e").unwrap();
    assert_eq!(arena.name(en).namespace_uri(), Some("http://example.org/ns".to_string()));
    assert_eq!(arena.name(en).prefix(), Some("q".to_string()));

    let a = arena.create_attribute(doc, "a").unwrap();
    assert_eq!(arena.node_type(a), NodeType::Attribute);
    assert_eq!(arena.node_value(a), None);

    let aw = arena.create_attribute_with(doc, "a", "v").unwrap();
    assert_eq!(arena.node_value(aw), Some("v".to_string()));

    let an = arena.create_attribute_ns(doc, "http://example.org/ns", "q:a").unwrap();
    assert_eq!(arena.name(an).local_name(), "a");
    assert_eq!(arena.node_type(an), NodeType::Attribute);

    let t = arena.create_text_node(doc, "text");
    assert_eq!(arena.node_type(t), NodeType::Text);
    assert_eq!(arena.name(t).to_string(), "#text");
    assert_eq!(arena.node_value(t), Some("text".to_string()));

    let c = arena.create_comment(doc, "note");
    assert_eq!(arena.node_type(c), NodeType::Comment);
    assert_eq!(arena.name(c).to_string(), "#comment");
    assert_eq!(CharacterData::data(&arena, c), Some("note".to_string()));

    let cd = arena.create_cdata_section(doc, "a<b").unwrap();
    assert_eq!(arena.node_type(cd), NodeType::CData);
    assert_eq!(arena.name(cd).to_string(), "#cdata-section");
    assert_eq!(arena.node_value(cd), Some("a<b".to_string()));

    let f = arena.create_document_fragment(doc).unwrap();
    assert_eq!(arena.node_type(f), NodeType::DocumentFragment);
    assert_eq!(arena.name(f).to_string(), "#document-fragment");
    assert_eq!(arena.node_value(f), None);

    let r = arena.create_entity_reference(doc, "amp").unwrap();
    assert_eq!(arena.node_type(r), NodeType::EntityReference);
    assert_eq!(arena.name(r).to_string(), "amp");

    let pi = arena.create_processing_instruction(doc, "target", Some("data")).unwrap();
    assert_eq!(arena.node_type(pi), NodeType::ProcessingInstruction);
    assert_eq!(arena.name(pi).to_string(), "target");
    assert_eq!(arena.node_value(pi), Some("data".to_string()));

    for n in [e, en, a, aw, an, t, c, cd, f, r, pi] {
        assert_eq!(arena.owner_document(n), Some(doc));
        assert_eq!(arena.parent_node(n), None);
        assert_eq!(arena.child_nodes(n), vec![]);
        assert!(!arena.has_attributes(n));
    }
}

#[test]
fn documents_refuse_bad_names() {
    let mut arena = NodeArena::new();
    let doc = new_document(&mut arena);
    let count = arena.len();
    assert_eq!(arena.create_element(doc, "").unwrap_err(), Error::Syntax);
    assert_eq!(arena.create_element(doc, "a:b:c").unwrap_err(), Error::Syntax);
    assert_eq!(arena.create_element(doc, "a b").unwrap_err(), Error::InvalidCharacter);
    assert_eq!(arena.create_element_ns(doc, "", "p:e").unwrap_err(), Error::Namespace);
    assert_eq!(arena.create_attribute(doc, "1").unwrap_err(), Error::InvalidCharacter);
    assert_eq!(arena.create_attribute_with(doc, "", "v").unwrap_err(), Error::Syntax);
    assert_eq!(arena.create_attribute_ns(doc, "", "p:a").unwrap_err(), Error::Namespace);
    assert_eq!(arena.create_entity_reference(doc, "&").unwrap_err(), Error::InvalidCharacter);
    assert_eq!(
        arena.create_processing_instruction(doc, "a b", None).unwrap_err(),
        Error::InvalidCharacter
    );
    assert_eq!(arena.len(), count);
}

#[test]
fn get_element_by_id_finds_nothing() {
    let mut arena = NodeArena::new();
    let doc = new_document(&mut arena);
    let root = arena.document_element(doc).unwrap();
    arena.set_attribute(root, "id", "main").unwrap();
    assert_eq!(arena.get_element_by_id(doc, "main"), None);
}

#[test]
fn accessors_of_other_kinds_give_nothing() {
    let mut arena = NodeArena::new();
    let doc = new_document(&mut arena);
    let root = arena.document_element(doc).unwrap();
    assert_eq!(arena.doc_type(root), None);
    assert_eq!(arena.document_element(root), None);
    assert_eq!(DocumentType::public_id(&arena, root), None);
    assert_eq!(DocumentType::system_id(&arena, root), None);
    assert_eq!(arena.internal_subset(root), None);
    assert_eq!(arena.entities(root), vec![]);
    assert_eq!(arena.notations(root), vec![]);
    assert_eq!(Entity::public_id(&arena, root), None);
    assert_eq!(Entity::system_id(&arena, root), None);
    assert_eq!(arena.notation_name(root), None);
    assert_eq!(Notation::public_id(&arena, root), None);
    assert_eq!(Notation::system_id(&arena, root), None);
    assert_eq!(arena.attributes(doc), vec![]);
    assert_eq!(arena.get_attribute(doc, "x"), None);
    assert!(!arena.has_attribute(doc, "x"));
}

#[test]
fn documents_search_from_their_element() {
    let mut arena = NodeArena::new();
    let doc = new_document(&mut arena);
    let root = arena.document_element(doc).unwrap();
    let a = arena.create_element(doc, "a").unwrap();
    let b = arena.create_element(doc, "b").unwrap();
    arena.append_child(root, a).unwrap();
    arena.append_child(a, b).unwrap();
    assert_eq!(Document::get_elements_by_tag_name(&arena, doc, "*"), vec![root, a, b]);
    assert_eq!(Document::get_elements_by_tag_name(&arena, doc, "b"), vec![b]);
    assert_eq!(Document::get_elements_by_tag_name(&arena, doc, "z"), vec![]);
    assert_eq!(
        Document::get_elements_by_tag_name_ns(&arena, doc, "http://example.org/", "root"),
        vec![root]
    );
    assert_eq!(
        Document::get_elements_by_tag_name_ns(&arena, doc, "*", "*"),
        vec![root, a, b]
    );
    assert_eq!(Document::get_elements_by_tag_name(&arena, root, "*"), vec![]);
}

#[test]
fn document_types_declare_entities_and_notations() {
    let mut arena = NodeArena::new();
    let implementation = get_implementation();
    let doc_type = implementation.create_document_type(&mut arena, "book", None, None).unwrap();
    let logo = arena
        .create_entity(doc_type, "logo", Some("-//LOGO"), Some("logo.gif"), Some("gif"))
        .unwrap();
    let text = arena.create_entity(doc_type, "text", None, None, None).unwrap();
    let gif = arena.create_notation(doc_type, "gif", Some("-//GIF"), Some("viewer")).unwrap();
    assert_eq!(arena.entities(doc_type), vec![logo, text]);
    assert_eq!(arena.notations(doc_type), vec![gif]);
    assert_eq!(arena.node_type(logo), NodeType::Entity);
    assert_eq!(arena.name(logo).to_string(), "logo");
    assert_eq!(Entity::public_id(&arena, logo), Some("-//LOGO".to_string()));
    assert_eq!(Entity::system_id(&arena, logo), Some("logo.gif".to_string()));
    assert_eq!(arena.notation_name(logo), Some("gif".to_string()));
    assert_eq!(Entity::public_id(&arena, text), None);
    assert_eq!(Entity::system_id(&arena, text), None);
    assert_eq!(arena.notation_name(text), None);
    assert_eq!(arena.node_type(gif), NodeType::Notation);
    assert_eq!(Notation::public_id(&arena, gif), Some("-//GIF".to_string()));
    assert_eq!(Notation::system_id(&arena, gif), Some("viewer".to_string()));
    assert_eq!(arena.parent_node(logo), None);
    assert_eq!(arena.owner_document(logo), None);
    assert_eq!(arena.to_string(logo), "");
    assert_eq!(arena.to_string(gif), "");
}

#[test]
fn a_second_declaration_takes_the_place_of_the_first() {
    let mut arena = NodeArena::new();
    let implementation = get_implementation();
    let doc_type = implementation.create_document_type(&mut arena, "book", None, None).unwrap();
    let a = arena.create_entity(doc_type, "a", None, None, None).unwrap();
    let b = arena.create_entity(doc_type, "b", None, None, None).unwrap();
    let again = arena.create_entity(doc_type, "a", Some("new"), None, None).unwrap();
    assert!(a != again);
    assert_eq!(arena.entities(doc_type), vec![again, b]);
    let n = arena.create_notation(doc_type, "n", None, None).unwrap();
    let m = arena.create_notation(doc_type, "n", None, Some("sys")).unwrap();
    assert!(n != m);
    assert_eq!(arena.notations(doc_type), vec![m]);
}

#[test]
fn declarations_need_a_name_and_a_document_type() {
    let mut arena = NodeArena::new();
    let implementation = get_implementation();
    let doc = new_document(&mut arena);
    let doc_type = implementation.create_document_type(&mut arena, "book", None, None).unwrap();
    let count = arena.len();
    assert_eq!(arena.create_entity(doc_type, "", None, None, None).unwrap_err(), Error::Syntax);
    assert_eq!(
        arena.create_notation(doc_type, "a b", None, None).unwrap_err(),
        Error::InvalidCharacter
    );
    assert_eq!(arena.create_entity(doc, "e", None, None, None).unwrap_err(), Error::InvalidState);
    assert_eq!(arena.create_notation(doc, "n", None, None).unwrap_err(), Error::InvalidState);
    assert_eq!(arena.create_entity(doc, "", None, None, None).unwrap_err(), Error::Syntax);
    assert_eq!(arena.len(), count);
    assert_eq!(arena.entities(doc_type), vec![]);
}

#[test]
fn entities_and_notations_take_no_parent_and_are_not_copied() {
    let mut arena = NodeArena::new();
    let implementation = get_implementation();
    let doc = new_document(&mut arena);
    let root = arena.document_element(doc).unwrap();
    let doc_type = implementation.create_document_type(&mut arena, "book", None, None).unwrap();
    let entity = arena.create_entity(doc_type, "e", None, None, None).unwrap();
    let notation = arena.create_notation(doc_type, "n", None, None).unwrap();
    assert_eq!(arena.append_child(root, entity).unwrap_err(), Error::HierarchyRequest);
    assert_eq!(arena.append_child(root, notation).unwrap_err(), Error::HierarchyRequest);
    assert_eq!(arena.append_child(doc_type, entity).unwrap_err(), Error::HierarchyRequest);
    let child = arena.create_element(doc, "x").unwrap();
    assert_eq!(arena.append_child(notation, child).unwrap_err(), Error::HierarchyRequest);
    assert_eq!(arena.clone_node(entity, true), None);
    assert_eq!(arena.clone_node(notation, false), None);
}

#[test]
fn an_entity_takes_content() {
    let mut arena = NodeArena::new();
    let implementation = get_implementation();
    let doc_type = implementation.create_document_type(&mut arena, "book", None, None).unwrap();
    let doc = implementation
        .create_document(&mut arena, "http://example.org/", "book", Some(doc_type))
        .unwrap();
    let entity = arena.create_entity(doc_type, "e", None, None, None).unwrap();
    let text = arena.create_text_node(doc, "replacement");
    assert_eq!(arena.append_child(entity, text).unwrap_err(), Error::WrongDocument);
    let orphan = arena.create_comment(doc, "c");
    arena.append_child(doc, orphan).unwrap();
    arena.remove_child(doc, orphan).unwrap();
    assert_eq!(arena.owner_document(orphan), None);
    arena.append_child(entity, orphan).unwrap();
    assert_eq!(arena.child_nodes(entity), vec![orphan]);
}
