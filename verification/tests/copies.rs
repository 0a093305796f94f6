use xml_dom::arena::NodeArena;
use xml_dom::dom_impl::get_implementation;
use xml_dom::node::{NodeType, RefNode};
use xml_dom::traits::{CharacterData, Document, Element, Node};

fn new_document(arena: &mut NodeArena) -> RefNode {
    get_implementation()
        .create_document(arena, "http://example.org/", "root", None)
        .unwrap()
}

fn sample(arena: &mut NodeArena) -> (RefNode, RefNode) {
    let doc = new_document(arena);
    let root = arena.document_element(doc).unwrap();
    arena.set_attribute(root, "id", "main").unwrap();
    arena.set_attribute(root, "xmlns:p", "uri").unwrap();
    let a = arena.create_element(doc, "a").unwrap();
    let text = arena.create_text_node(doc, "hello");
    let note = arena.create_comment(doc, "note");
    arena.append_child(root, a).unwrap();
    arena.append_child(a, text).unwrap();
    arena.append_child(root, note).unwrap();
    (doc, root)
}

#[test]
fn a_shallow_copy_has_attributes_but_no_children() {
    let mut arena = NodeArena::new();
    let (doc, root) = sample(&mut arena);
    let text_of_root = arena.to_string(root);
    let copy = arena.clone_node(root, false).unwrap();
    assert!(copy != root);
    assert_eq!(arena.node_type(copy), NodeType::Element);
    assert_eq!(arena.name(copy).to_string(), "root");
    assert_eq!(arena.name(copy).namespace_uri(), Some("http://example.org/".to_string()));
    assert_eq!(arena.parent_node(copy), None);
    assert_eq!(arena.owner_document(copy), Some(doc));
    assert_eq!(arena.child_nodes(copy), vec![]);
    assert_eq!(arena.get_attribute(copy, "id"), Some("main".to_string()));
    assert_eq!(arena.lookup_namespace_uri(copy, Some("p")), Some("uri".to_string()));
    assert_eq!(arena.to_string(copy), "<root id=\"main\" xmlns:p=\"uri\"></root>");
    assert_eq!(arena.to_string(root), text_of_root);
    let source = arena.get_attribute_node(root, "id").unwrap();
    let copied = arena.get_attribute_node(copy, "id").unwrap();
    assert!(source != copied);
}

#[test]
fn a_deep_copy_has_copies_of_the_children() {
    let mut arena = NodeArena::new();
    let (_doc, root) = sample(&mut arena);
    let text_of_root = arena.to_string(root);
    assert_eq!(
        text_of_root,
        "<root id=\"main\" xmlns:p=\"uri\"><a>hello</a><!--note--></root>"
    );
    let count = arena.len();
    let copy = arena.clone_node(root, true).unwrap();
    assert_eq!(arena.len(), count + 6);
    assert_eq!(arena.to_string(copy), text_of_root);
    assert_eq!(arena.to_string(root), text_of_root);
    assert_eq!(arena.parent_node(copy), None);
    let kids = arena.child_nodes(copy);
    assert_eq!(kids.len(), 2);
    assert_eq!(arena.parent_node(kids[0]), Some(copy));
    assert_eq!(arena.parent_node(kids[1]), Some(copy));
    assert!(!arena.child_nodes(root).contains(&kids[0]));
    let inner = arena.child_nodes(kids[0]);
    assert_eq!(inner.len(), 1);
    assert_eq!(CharacterData::data(&arena, inner[0]), Some("hello".to_string()));
    assert_eq!(arena.parent_node(inner[0]), Some(kids[0]));
}

#[test]
fn a_copy_is_independent_of_the_source() {
    let mut arena = NodeArena::new();
    let (doc, root) = sample(&mut arena);
    let copy = arena.clone_node(root, true).unwrap();
    arena.set_attribute(copy, "id", "other").unwrap();
    let extra = arena.create_element(doc, "extra").unwrap();
    arena.append_child(copy, extra).unwrap();
    assert_eq!(arena.get_attribute(root, "id"), Some("main".to_string()));
    assert_eq!(arena.child_nodes(root).len(), 2);
    assert_eq!(arena.child_nodes(copy).len(), 3);
}

#[test]
fn a_copy_of_text_has_the_same_data() {
    let mut arena = NodeArena::new();
    let doc = new_document(&mut arena);
    let text = arena.create_text_node(doc, "hello");
    let copy = arena.clone_node(text, false).unwrap();
    assert_eq!(arena.node_type(copy), NodeType::Text);
    assert_eq!(CharacterData::data(&arena, copy), Some("hello".to_string()));
    arena.append(copy, "!").unwrap();
    assert_eq!(CharacterData::data(&arena, text), Some("hello".to_string()));
}

#[test]
fn a_copy_of_a_child_has_no_parent() {
    let mut arena = NodeArena::new();
    let (_doc, root) = sample(&mut arena);
    let a = arena.child_nodes(root)[0];
    let copy = arena.clone_node(a, true).unwrap();
    assert_eq!(arena.parent_node(copy), None);
    assert_eq!(arena.to_string(copy), "<a>hello</a>");
    assert_eq!(arena.child_nodes(root).len(), 2);
}

#[test]
fn documents_and_document_types_are_not_copied() {
    let mut arena = NodeArena::new();
    let implementation = get_implementation();
    let doc = new_document(&mut arena);
    let doc_type = implementation.create_document_type(&mut arena, "d", None, None).unwrap();
    let count = arena.len();
    assert_eq!(arena.clone_node(doc, true), None);
    assert_eq!(arena.clone_node(doc_type, false), None);
    assert_eq!(arena.len(), count);
}

#[test]
fn normalize_merges_adjacent_text() {
    let mut arena = NodeArena::new();
    let doc = new_document(&mut arena);
    let root = arena.document_element(doc).unwrap();
    let a = arena.create_text_node(doc, "a");
    let b = arena.create_text_node(doc, "b");
    let c = arena.create_text_node(doc, "c");
    arena.append_child(root, a).unwrap();
    arena.append_child(root, b).unwrap();
    arena.append_child(root, c).unwrap();
    arena.normalize(root);
    assert_eq!(arena.child_nodes(root), vec![a]);
    assert_eq!(CharacterData::data(&arena, a), Some("abc".to_string()));
    assert_eq!(arena.parent_node(b), None);
    assert_eq!(arena.parent_node(c), None);
    assert_eq!(arena.to_string(root), "<root>abc</root>");
}

#[test]
fn normalize_removes_empty_text() {
    let mut arena = NodeArena::new();
    let doc = new_document(&mut arena);
    let root = arena.document_element(doc).unwrap();
    let empty = arena.create_text_node(doc, "");
    let e = arena.create_element(doc, "e").unwrap();
    let none = arena.create_text_node(doc, "x");
    CharacterData::unset_data(&mut arena, none).unwrap();
    let t = arena.create_text_node(doc, "t");
    let last = arena.create_text_node(doc, "");
    arena.append_child(root, empty).unwrap();
    arena.append_child(root, e).unwrap();
    arena.append_child(root, none).unwrap();
    arena.append_child(root, t).unwrap();
    arena.append_child(root, last).unwrap();
    arena.normalize(root);
    assert_eq!(arena.child_nodes(root), vec![e, t]);
    assert_eq!(CharacterData::data(&arena, t), Some("t".to_string()));
    assert_eq!(arena.parent_node(empty), None);
    assert_eq!(arena.parent_node(last), None);
}

#[test]
fn normalize_keeps_text_apart_that_structure_separates() {
    let mut arena = NodeArena::new();
    let doc = new_document(&mut arena);
    let root = arena.document_element(doc).unwrap();
    let a = arena.create_text_node(doc, "a");
    let e = arena.create_element(doc, "e").unwrap();
    let b = arena.create_text_node(doc, "b");
    let section = arena.create_cdata_section(doc, "c").unwrap();
    let d = arena.create_text_node(doc, "d");
    for n in [a, e, b, section, d] {
        arena.append_child(root, n).unwrap();
    }
    arena.normalize(root);
    assert_eq!(arena.child_nodes(root), vec![a, e, b, section, d]);
}

#[test]
fn normalize_reaches_the_whole_tree() {
    let mut arena = NodeArena::new();
    let doc = new_document(&mut arena);
    let root = arena.document_element(doc).unwrap();
    let outer = arena.create_element(doc, "outer").unwrap();
    let inner = arena.create_element(doc, "inner").unwrap();
    let a = arena.create_text_node(doc, "a");
    let b = arena.create_text_node(doc, "b");
    let c = arena.create_text_node(doc, "");
    let d = arena.create_text_node(doc, "d");
    arena.append_child(root, outer).unwrap();
    arena.append_child(outer, a).unwrap();
    arena.append_child(outer, inner).unwrap();
    arena.append_child(inner, b).unwrap();
    arena.append_child(inner, c).unwrap();
    arena.append_child(inner, d).unwrap();
    arena.normalize(root);
    assert_eq!(arena.child_nodes(outer), vec![a, inner]);
    assert_eq!(arena.child_nodes(inner), vec![b]);
    assert_eq!(CharacterData::data(&arena, b), Some("bd".to_string()));
    assert_eq!(arena.to_string(root), "<root><outer>a<inner>bd</inner></outer></root>");
}

#[test]
fn merge_texts_works_on_one_node_only() {
    let mut arena = NodeArena::new();
    let doc = new_document(&mut arena);
    let root = arena.document_element(doc).unwrap();
    let inner = arena.create_element(doc, "inner").unwrap();
    let a = arena.create_text_node(doc, "a");
    let b = arena.create_text_node(doc, "b");
    let c = arena.create_text_node(doc, "c");
    let d = arena.create_text_node(doc, "d");
    arena.append_child(root, a).unwrap();
    arena.append_child(root, b).unwrap();
    arena.append_child(root, inner).unwrap();
    arena.append_child(inner, c).unwrap();
    arena.append_child(inner, d).unwrap();
    arena.merge_texts(root);
    assert_eq!(arena.child_nodes(root), vec![a, inner]);
    assert_eq!(arena.child_nodes(inner), vec![c, d]);
}

#[test]
fn normalize_changes_nothing_of_what_is_written() {
    let mut arena = NodeArena::new();
    let doc = new_document(&mut arena);
    let root = arena.document_element(doc).unwrap();
    arena.set_attribute(root, "id", "main").unwrap();
    let outer = arena.create_element(doc, "outer").unwrap();
    let section = arena.create_cdata_section(doc, "raw").unwrap();
    arena.append_child(root, outer).unwrap();
    for data in ["", "one", "", " two", ""] {
        let t = arena.create_text_node(doc, data);
        arena.append_child(outer, t).unwrap();
    }
    arena.append_child(outer, section).unwrap();
    for data in ["three", ""] {
        let t = arena.create_text_node(doc, data);
        arena.append_child(outer, t).unwrap();
    }
    let before = arena.to_string(root);
    assert_eq!(
        before,
        "<root id=\"main\"><outer>one two<![CDATA[ raw ]]>three</outer></root>"
    );
    arena.normalize(root);
    assert_eq!(arena.to_string(root), before);
    assert_eq!(arena.child_nodes(outer).len(), 3);
    arena.normalize(root);
    assert_eq!(arena.to_string(root), before);
    assert_eq!(arena.child_nodes(outer).len(), 3);
}

#[test]
fn normalize_of_a_text_node_changes_nothing() {
    let mut arena = NodeArena::new();
    let doc = new_document(&mut arena);
    let root = arena.document_element(doc).unwrap();
    let a = arena.create_text_node(doc, "a");
    let b = arena.create_text_node(doc, "b");
    arena.append_child(root, a).unwrap();
    arena.append_child(root, b).unwrap();
    arena.normalize(a);
    assert_eq!(arena.child_nodes(root), vec![a, b]);
    assert_eq!(CharacterData::data(&arena, a), Some("a".to_string()));
}
