use xml_dom::arena::NodeArena;
use xml_dom::dom_impl::get_implementation;
use xml_dom::error::Error;
use xml_dom::node::{NamespaceBinding, RefNode};
use xml_dom::search::Query;
use xml_dom::traits::{Attribute, Document, Element, Node};

fn new_document(arena: &mut NodeArena) -> RefNode {
    get_implementation()
        .create_document(arena, "http://example.org/", "root", None)
        .unwrap()
}

#[test]
fn set_attribute_stores_a_value() {
    let mut arena = NodeArena::new();
    let doc = new_document(&mut arena);
    let root = arena.document_element(doc).unwrap();
    assert!(!arena.has_attributes(root));
    arena.set_attribute(root, "id", "main").unwrap();
    assert_eq!(arena.get_attribute(root, "id"), Some("main".to_string()));
    assert!(arena.has_attribute(root, "id"));
    assert!(!arena.has_attribute(root, "class"));
    assert_eq!(arena.get_attribute(root, "class"), None);
    assert!(arena.has_attributes(root));
    let node = arena.get_attribute_node(root, "id").unwrap();
    assert_eq!(arena.attributes(root), vec![node]);
    assert_eq!(arena.name(node).to_string(), "id");
    assert_eq!(arena.value(node), Some("main".to_string()));
    assert_eq!(arena.owner_document(node), Some(doc));
    assert_eq!(arena.parent_node(node), None);
}

#[test]
fn set_attribute_overwrites_an_attribute_of_the_same_name() {
    let mut arena = NodeArena::new();
    let doc = new_document(&mut arena);
    let root = arena.document_element(doc).unwrap();
    arena.set_attribute(root, "a", "1").unwrap();
    arena.set_attribute(root, "b", "2").unwrap();
    arena.set_attribute(root, "a", "3").unwrap();
    assert_eq!(arena.get_attribute(root, "a"), Some("3".to_string()));
    assert_eq!(arena.get_attribute(root, "b"), Some("2".to_string()));
    assert_eq!(arena.attributes(root).len(), 2);
    let first = arena.attributes(root)[0];
    assert_eq!(arena.name(first).to_string(), "a");
}

#[test]
fn set_attribute_fails_on_a_bad_name_or_a_node_that_is_no_element() {
    let mut arena = NodeArena::new();
    let doc = new_document(&mut arena);
    let root = arena.document_element(doc).unwrap();
    let count = arena.len();
    assert_eq!(arena.set_attribute(root, "", "v").unwrap_err(), Error::Syntax);
    assert_eq!(arena.set_attribute(root, "a b", "v").unwrap_err(), Error::InvalidCharacter);
    assert_eq!(arena.set_attribute(doc, "a", "v").unwrap_err(), Error::InvalidState);
    assert_eq!(arena.set_attribute(doc, "", "v").unwrap_err(), Error::Syntax);
    assert_eq!(arena.set_attribute_ns(root, "", "p:a", "v").unwrap_err(), Error::Namespace);
    assert_eq!(arena.len(), count);
    assert!(!arena.has_attributes(root));
}

#[test]
fn lookups_with_bad_names_find_nothing() {
    let mut arena = NodeArena::new();
    let doc = new_document(&mut arena);
    let root = arena.document_element(doc).unwrap();
    arena.set_attribute(root, "a", "1").unwrap();
    assert_eq!(arena.get_attribute(root, "a b"), None);
    assert_eq!(arena.get_attribute_node(root, ""), None);
    assert!(!arena.has_attribute(root, "1"));
    assert_eq!(arena.get_attribute_ns(root, "", "p:a"), None);
    assert!(!arena.has_attribute_ns(root, "", "p:a"));
    assert_eq!(arena.get_attribute_node_ns(root, "", "p:a"), None);
}

#[test]
fn set_attribute_node_stores_and_returns_the_attribute() {
    let mut arena = NodeArena::new();
    let doc = new_document(&mut arena);
    let root = arena.document_element(doc).unwrap();
    let a = arena.create_attribute_with(doc, "lang", "en").unwrap();
    assert_eq!(arena.set_attribute_node(root, a).unwrap(), a);
    assert_eq!(arena.get_attribute_node(root, "lang"), Some(a));
    assert_eq!(arena.get_attribute(root, "lang"), Some("en".to_string()));
    let b = arena.create_attribute_with(doc, "lang", "fr").unwrap();
    assert_eq!(arena.set_attribute_node_ns(root, b).unwrap(), b);
    assert_eq!(arena.get_attribute_node(root, "lang"), Some(b));
    assert_eq!(arena.attributes(root), vec![b]);
    assert_eq!(arena.set_attribute_node(root, b).unwrap(), b);
    assert_eq!(arena.attributes(root), vec![b]);
}

#[test]
fn an_attribute_without_value_is_there_but_has_none() {
    let mut arena = NodeArena::new();
    let doc = new_document(&mut arena);
    let root = arena.document_element(doc).unwrap();
    let a = arena.create_attribute(doc, "hidden").unwrap();
    arena.set_attribute_node(root, a).unwrap();
    assert!(arena.has_attribute(root, "hidden"));
    assert_eq!(arena.get_attribute(root, "hidden"), None);
}

#[test]
fn set_attribute_node_needs_an_element_and_an_attribute() {
    let mut arena = NodeArena::new();
    let doc = new_document(&mut arena);
    let root = arena.document_element(doc).unwrap();
    let a = arena.create_attribute_with(doc, "a", "1").unwrap();
    let text = arena.create_text_node(doc, "t");
    assert_eq!(arena.set_attribute_node(text, a).unwrap_err(), Error::InvalidState);
    assert_eq!(arena.set_attribute_node(root, text).unwrap_err(), Error::InvalidState);
    assert_eq!(arena.set_attribute_node(doc, a).unwrap_err(), Error::InvalidState);
    assert_eq!(arena.set_attribute_node(root, root).unwrap_err(), Error::InvalidState);
    assert!(!arena.has_attributes(root));
}

#[test]
fn a_namespace_declaration_binds_its_prefix() {
    let mut arena = NodeArena::new();
    let doc = new_document(&mut arena);
    let root = arena.document_element(doc).unwrap();
    let declaration = arena.create_attribute_with(doc, "xmlns:p", "uri").unwrap();
    assert_eq!(arena.lookup_namespace_uri(root, Some("p")), None);
    arena.set_attribute_node(root, declaration).unwrap();
    assert_eq!(arena.lookup_namespace_uri(root, Some("p")), Some("uri".to_string()));
    assert_eq!(arena.lookup_namespace_uri(root, Some("q")), None);
    assert_eq!(arena.lookup_namespace_uri(root, None), None);
    assert_eq!(arena.get_attribute(root, "xmlns:p"), Some("uri".to_string()));
}

#[test]
fn a_default_namespace_declaration_binds_no_prefix() {
    let mut arena = NodeArena::new();
    let doc = new_document(&mut arena);
    let root = arena.document_element(doc).unwrap();
    arena.set_attribute(root, "xmlns", "http://example.org/default").unwrap();
    assert_eq!(
        arena.lookup_namespace_uri(root, None),
        Some("http://example.org/default".to_string())
    );
    assert_eq!(arena.lookup_namespace_uri(root, Some("xmlns")), None);
}

#[test]
fn a_later_declaration_rebinds_the_prefix() {
    let mut arena = NodeArena::new();
    let doc = new_document(&mut arena);
    let root = arena.document_element(doc).unwrap();
    arena.set_attribute(root, "xmlns:p", "one").unwrap();
    arena.set_attribute(root, "xmlns:q", "two").unwrap();
    arena.set_attribute(root, "xmlns:p", "three").unwrap();
    assert_eq!(arena.lookup_namespace_uri(root, Some("p")), Some("three".to_string()));
    assert_eq!(arena.lookup_namespace_uri(root, Some("q")), Some("two".to_string()));
    assert_eq!(arena.binding_index(root, Some("p")), 0);
    assert_eq!(arena.binding_index(root, Some("q")), 1);
    assert_eq!(arena.binding_index(root, Some("r")), 2);
}

#[test]
fn a_namespace_declaration_without_value_is_refused() {
    let mut arena = NodeArena::new();
    let doc = new_document(&mut arena);
    let root = arena.document_element(doc).unwrap();
    let declaration = arena.create_attribute(doc, "xmlns:p").unwrap();
    assert_eq!(arena.set_attribute_node(root, declaration).unwrap_err(), Error::Namespace);
    assert!(!arena.has_attributes(root));
    assert_eq!(arena.lookup_namespace_uri(root, Some("p")), None);
}

#[test]
fn bindings_are_made_directly_too() {
    let mut arena = NodeArena::new();
    let doc = new_document(&mut arena);
    let root = arena.document_element(doc).unwrap();
    arena.bind_namespace(root, Some("a"), "one").unwrap();
    arena.bind_namespace(root, None, "two").unwrap();
    arena.bind_namespace(root, Some("a"), "three").unwrap();
    assert_eq!(arena.bind_namespace(doc, Some("a"), "four").unwrap_err(), Error::InvalidState);
    assert_eq!(arena.lookup_namespace_uri(root, Some("a")), Some("three".to_string()));
    assert_eq!(arena.lookup_namespace_uri(root, None), Some("two".to_string()));
    let binding = NamespaceBinding::new(Some("x"), "y");
    assert!(binding.binds(Some("x")));
    assert!(!binding.binds(Some("z")));
    assert!(!binding.binds(None));
    assert_eq!(binding.uri(), "y");
    assert_eq!(binding.duplicate().uri(), "y");
}

#[test]
fn remove_attribute_takes_the_attribute_out() {
    let mut arena = NodeArena::new();
    let doc = new_document(&mut arena);
    let root = arena.document_element(doc).unwrap();
    arena.set_attribute(root, "a", "1").unwrap();
    arena.set_attribute(root, "b", "2").unwrap();
    arena.set_attribute(root, "c", "3").unwrap();
    arena.remove_attribute(root, "b").unwrap();
    assert!(!arena.has_attribute(root, "b"));
    assert_eq!(arena.get_attribute(root, "a"), Some("1".to_string()));
    assert_eq!(arena.get_attribute(root, "c"), Some("3".to_string()));
    assert_eq!(arena.attributes(root).len(), 2);
    arena.remove_attribute(root, "b").unwrap();
    arena.remove_attribute(root, "not a name").unwrap();
    arena.remove_attribute(doc, "a").unwrap();
    assert_eq!(arena.attributes(root).len(), 2);
}

#[test]
fn remove_attribute_node_takes_the_attribute_out() {
    let mut arena = NodeArena::new();
    let doc = new_document(&mut arena);
    let root = arena.document_element(doc).unwrap();
    let a = arena.create_attribute_with(doc, "a", "1").unwrap();
    let b = arena.create_attribute_with(doc, "b", "2").unwrap();
    arena.set_attribute_node(root, a).unwrap();
    arena.set_attribute_node(root, b).unwrap();
    assert_eq!(arena.remove_attribute_node(root, a).unwrap(), a);
    assert_eq!(arena.attributes(root), vec![b]);
    assert_eq!(arena.remove_attribute_node(root, a).unwrap_err(), Error::NotFound);
    assert_eq!(arena.remove_attribute_node(doc, b).unwrap_err(), Error::InvalidState);
    assert_eq!(arena.attributes(root), vec![b]);
}

#[test]
fn attributes_in_namespaces_are_found_by_prefix_and_local_name() {
    let mut arena = NodeArena::new();
    let doc = new_document(&mut arena);
    let root = arena.document_element(doc).unwrap();
    arena.set_attribute_ns(root, "http://example.org/ns", "width", "10").unwrap();
    assert_eq!(
        arena.get_attribute_ns(root, "http://example.org/ns", "width"),
        Some("10".to_string())
    );
    assert!(arena.has_attribute_ns(root, "http://example.org/ns", "width"));
    assert!(!arena.has_attribute_ns(root, "http://example.org/ns", "height"));
    let node = arena.get_attribute_node_ns(root, "http://example.org/ns", "width").unwrap();
    assert_eq!(arena.name(node).namespace_uri(), Some("http://example.org/ns".to_string()));
    assert_eq!(arena.get_attribute(root, "width"), Some("10".to_string()));
    arena.remove_attribute_ns(root, "http://example.org/ns", "width").unwrap();
    assert!(!arena.has_attribute(root, "width"));
    arena.remove_attribute_ns(root, "", "p:width").unwrap();
}

fn sample_tree(arena: &mut NodeArena) -> (RefNode, Vec<RefNode>) {
    // <root><a><b/>text<r><c/></r></a><!--note--><b><a/></b></root>
    let doc = new_document(arena);
    let root = arena.document_element(doc).unwrap();
    let a1 = arena.create_element(doc, "a").unwrap();
    let b1 = arena.create_element(doc, "b").unwrap();
    let text = arena.create_text_node(doc, "text");
    let reference = arena.create_entity_reference(doc, "r").unwrap();
    let c = arena.create_element(doc, "c").unwrap();
    let note = arena.create_comment(doc, "note");
    let b2 = arena.create_element(doc, "b").unwrap();
    let a2 = arena.create_element_ns(doc, "http://example.org/other", "a").unwrap();
    arena.append_child(root, a1).unwrap();
    arena.append_child(a1, b1).unwrap();
    arena.append_child(a1, text).unwrap();
    arena.append_child(a1, reference).unwrap();
    arena.append_child(reference, c).unwrap();
    arena.append_child(root, note).unwrap();
    arena.append_child(root, b2).unwrap();
    arena.append_child(b2, a2).unwrap();
    (root, vec![a1, b1, text, reference, c, note, b2, a2])
}

#[test]
fn the_wildcard_finds_every_element_in_document_order() {
    let mut arena = NodeArena::new();
    let (root, n) = sample_tree(&mut arena);
    assert_eq!(
        Element::get_elements_by_tag_name(&arena, root, "*"),
        vec![root, n[0], n[1], n[4], n[6], n[7]]
    );
    assert_eq!(
        Element::get_elements_by_tag_name(&arena, n[0], "*"),
        vec![n[0], n[1], n[4]]
    );
}

#[test]
fn a_name_finds_the_elements_of_that_name() {
    let mut arena = NodeArena::new();
    let (root, n) = sample_tree(&mut arena);
    assert_eq!(Element::get_elements_by_tag_name(&arena, root, "a"), vec![n[0], n[7]]);
    assert_eq!(Element::get_elements_by_tag_name(&arena, root, "b"), vec![n[1], n[6]]);
    assert_eq!(Element::get_elements_by_tag_name(&arena, root, "root"), vec![root]);
    assert_eq!(Element::get_elements_by_tag_name(&arena, root, "c"), vec![n[4]]);
    assert_eq!(Element::get_elements_by_tag_name(&arena, root, "text"), vec![]);
    assert_eq!(Element::get_elements_by_tag_name(&arena, n[6], "b"), vec![n[6]]);
}

#[test]
fn a_search_from_a_node_that_is_no_element_finds_nothing() {
    let mut arena = NodeArena::new();
    let (_root, n) = sample_tree(&mut arena);
    assert_eq!(Element::get_elements_by_tag_name(&arena, n[3], "*"), vec![]);
    assert_eq!(Element::get_elements_by_tag_name(&arena, n[2], "*"), vec![]);
    assert_eq!(Element::get_elements_by_tag_name_ns(&arena, n[5], "*", "*"), vec![]);
}

#[test]
fn a_namespace_search_goes_by_namespace_and_local_name() {
    let mut arena = NodeArena::new();
    let (root, n) = sample_tree(&mut arena);
    assert_eq!(
        Element::get_elements_by_tag_name_ns(&arena, root, "http://example.org/other", "a"),
        vec![n[7]]
    );
    assert_eq!(
        Element::get_elements_by_tag_name_ns(&arena, root, "http://example.org/", "*"),
        vec![root]
    );
    assert_eq!(
        Element::get_elements_by_tag_name_ns(&arena, root, "*", "a"),
        vec![n[0], n[7]]
    );
    assert_eq!(
        Element::get_elements_by_tag_name_ns(&arena, root, "*", "*"),
        vec![root, n[0], n[1], n[4], n[6], n[7]]
    );
    assert_eq!(
        Element::get_elements_by_tag_name_ns(&arena, root, "http://example.org/none", "a"),
        vec![]
    );
}

#[test]
fn searches_can_be_made_by_query() {
    let mut arena = NodeArena::new();
    let (root, n) = sample_tree(&mut arena);
    let query = Query::Tag("b".to_string());
    assert!(arena.hit(n[1], &query));
    assert!(!arena.hit(n[0], &query));
    assert!(!arena.hit(n[2], &Query::Tag("*".to_string())));
    assert_eq!(arena.find(root, &query), vec![n[1], n[6]]);
    let mut out = vec![root];
    arena.collect(n[6], &Query::Namespaced("*".to_string(), "*".to_string()), &mut out);
    assert_eq!(out, vec![root, n[6], n[7]]);
    let mut all = Vec::new();
    arena.gather(root, &mut all);
    assert_eq!(all, vec![root, n[0], n[1], n[2], n[3], n[4], n[5], n[6], n[7]]);
}
