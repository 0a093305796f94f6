use xml_dom::bytes::{byte_len, is_cut, slice_bytes};
use xml_dom::copy::copy_bindings;
use xml_dom::name::Name;
use xml_dom::node::{Extension, NamespaceBinding, NodeType, RefNode, WeakRefNode};
use xml_dom::node_impl::{clone_handles, NodeImpl};
use xml_dom::text::{clone_opt_string, index_of_char, own_opt_str, slice_chars, str_eq};

fn owner() -> WeakRefNode {
    RefNode { index: 0 }.downgrade()
}

#[test]
fn strings_are_compared_searched_and_sliced_by_characters() {
    assert!(str_eq("abc", "abc"));
    assert!(!str_eq("abc", "abd"));
    assert!(str_eq("", ""));
    assert_eq!(index_of_char("a:b:c", ':'), 1);
    assert_eq!(index_of_char("abc", ':'), 3);
    assert_eq!(index_of_char("\u{e9}\u{e9}:x", ':'), 2);
    assert_eq!(index_of_char("", ':'), 0);
    assert_eq!(slice_chars("hello", 1, 3), "el");
    assert_eq!(slice_chars("h\u{e9}llo", 1, 3), "\u{e9}l");
    assert_eq!(slice_chars("hello", 5, 5), "");
    assert_eq!(slice_chars("hello", 0, 5), "hello");
}

#[test]
fn optional_strings_are_copied() {
    assert_eq!(clone_opt_string(&None), None);
    assert_eq!(clone_opt_string(&Some("x".to_string())), Some("x".to_string()));
    assert_eq!(own_opt_str(None), None);
    assert_eq!(own_opt_str(Some("y")), Some("y".to_string()));
}

#[test]
fn lists_of_handles_and_bindings_are_copied() {
    let list = vec![RefNode { index: 4 }, RefNode { index: 2 }];
    assert_eq!(clone_handles(&list), list);
    assert_eq!(clone_handles(&Vec::new()), Vec::new());
    let bindings = vec![NamespaceBinding::new(Some("p"), "one"), NamespaceBinding::new(None, "two")];
    let copies = copy_bindings(&bindings);
    assert_eq!(copies.len(), 2);
    assert!(copies[0].binds(Some("p")));
    assert_eq!(copies[0].uri(), "one");
    assert!(copies[1].binds(None));
    assert_eq!(copies[1].uri(), "two");
}

#[test]
fn records_are_made_detached() {
    let element = NodeImpl::new_element(owner(), Name::parse("e").unwrap());
    assert_eq!(element.node_type(), NodeType::Element);
    assert_eq!(element.name().to_string(), "e");
    assert_eq!(*element.value(), None);
    assert_eq!(element.parent_node(), None);
    assert_eq!(element.owner_document(), Some(owner()));
    assert!(element.child_nodes().is_empty());
    assert!(matches!(element.extension(), Extension::Element { .. }));

    let attribute = NodeImpl::new_attribute(owner(), Name::parse("a").unwrap(), Some("v"));
    assert_eq!(attribute.node_type(), NodeType::Attribute);
    assert_eq!(*attribute.value(), Some("v".to_string()));
    let bare = NodeImpl::new_attribute(owner(), Name::parse("a").unwrap(), None);
    assert_eq!(*bare.value(), None);

    let text = NodeImpl::new_text(owner(), "t");
    assert_eq!(text.node_type(), NodeType::Text);
    assert_eq!(text.name().to_string(), "#text");
    assert_eq!(*text.value(), Some("t".to_string()));

    let section = NodeImpl::new_cdata(owner(), "c");
    assert_eq!(section.node_type(), NodeType::CData);
    assert_eq!(section.name().to_string(), "#cdata-section");

    let comment = NodeImpl::new_comment(owner(), "m");
    assert_eq!(comment.node_type(), NodeType::Comment);
    assert_eq!(comment.name().to_string(), "#comment");

    let instruction =
        NodeImpl::new_processing_instruction(owner(), Name::parse("go").unwrap(), Some("now"));
    assert_eq!(instruction.node_type(), NodeType::ProcessingInstruction);
    assert_eq!(*instruction.value(), Some("now".to_string()));

    let fragment = NodeImpl::new_document_fragment(owner());
    assert_eq!(fragment.node_type(), NodeType::DocumentFragment);
    assert_eq!(fragment.name().to_string(), "#document-fragment");

    let reference = NodeImpl::new_entity_reference(owner(), Name::parse("amp").unwrap());
    assert_eq!(reference.node_type(), NodeType::EntityReference);

    let document = NodeImpl::new_document(Some(RefNode { index: 9 }));
    assert_eq!(document.node_type(), NodeType::Document);
    assert_eq!(document.name().to_string(), "#document");
    assert_eq!(document.owner_document(), None);
    assert!(matches!(
        document.extension(),
        Extension::Document { i_document_element: None, i_document_type: Some(RefNode { index: 9 }) }
    ));

    let doc_type = NodeImpl::new_document_type(None, Name::parse("d").unwrap(), Some("p"), None);
    assert_eq!(doc_type.node_type(), NodeType::DocumentType);
    assert_eq!(doc_type.owner_document(), None);

    let entity = NodeImpl::new_entity(None, Name::parse("e").unwrap(), None, Some("s"), None);
    assert_eq!(entity.node_type(), NodeType::Entity);
    let notation = NodeImpl::new_notation(Some(owner()), Name::parse("n").unwrap(), None, None);
    assert_eq!(notation.node_type(), NodeType::Notation);
    assert_eq!(notation.owner_document(), Some(owner()));
}

#[test]
fn records_are_changed_field_by_field() {
    let a = RefNode { index: 1 };
    let b = RefNode { index: 2 };
    let c = RefNode { index: 3 };
    let mut element = NodeImpl::new_element(owner(), Name::parse("e").unwrap());
    element.set_value(Some("v".to_string()));
    assert_eq!(*element.value(), Some("v".to_string()));
    element.set_value(None);
    assert_eq!(*element.value(), None);
    element.set_parent_node(Some(a.downgrade()));
    assert_eq!(element.parent_node(), Some(a.downgrade()));
    element.set_owner_document(None);
    assert_eq!(element.owner_document(), None);
    element.insert_child(0, b);
    element.insert_child(0, a);
    element.insert_child(2, c);
    assert_eq!(*element.child_nodes(), vec![a, b, c]);
    assert_eq!(element.remove_child(1), b);
    assert_eq!(*element.child_nodes(), vec![a, c]);

    element.push_attribute(a);
    element.push_attribute(b);
    element.set_attribute_at(0, c);
    element.remove_attribute_at(1);
    element.push_binding(NamespaceBinding::new(Some("p"), "one"));
    element.set_binding_at(0, NamespaceBinding::new(Some("q"), "two"));
    match element.extension() {
        Extension::Element { i_attributes, i_namespaces } => {
            assert_eq!(*i_attributes, vec![c]);
            assert_eq!(i_namespaces.len(), 1);
            assert!(i_namespaces[0].binds(Some("q")));
            assert_eq!(i_namespaces[0].uri(), "two");
        }
        _ => panic!("an element has the extension of an element"),
    }
    element.set_document_element(Some(a));
    element.put_entity(0, a);
    assert!(matches!(element.extension(), Extension::Element { .. }));
}

#[test]
fn documents_and_document_types_keep_their_handles() {
    let a = RefNode { index: 1 };
    let b = RefNode { index: 2 };
    let mut document = NodeImpl::new_document(None);
    document.set_document_element(Some(a));
    assert!(matches!(
        document.extension(),
        Extension::Document { i_document_element: Some(RefNode { index: 1 }), i_document_type: None }
    ));
    document.push_attribute(a);
    document.push_binding(NamespaceBinding::new(None, "x"));
    assert!(matches!(document.extension(), Extension::Document { .. }));

    let mut doc_type = NodeImpl::new_document_type(None, Name::parse("d").unwrap(), None, None);
    doc_type.put_entity(0, a);
    doc_type.put_entity(1, b);
    doc_type.put_entity(0, b);
    doc_type.put_notation(0, a);
    match doc_type.extension() {
        Extension::DocumentType { i_entities, i_notations, .. } => {
            assert_eq!(*i_entities, vec![b, b]);
            assert_eq!(*i_notations, vec![a]);
        }
        _ => panic!("a document type has the extension of a document type"),
    }
}

#[test]
fn strings_are_measured_and_cut_by_bytes() {
    assert_eq!(byte_len(""), 0);
    assert_eq!(byte_len("abc"), 3);
    assert_eq!(byte_len("\u{e9}a"), 3);
    assert_eq!(byte_len("\u{1f600}"), 4);
    assert!(is_cut("\u{e9}a", 0));
    assert!(!is_cut("\u{e9}a", 1));
    assert!(is_cut("\u{e9}a", 2));
    assert!(is_cut("\u{e9}a", 3));
    assert!(!is_cut("\u{e9}a", 4));
    assert!(is_cut("", 0));
    assert_eq!(slice_bytes("\u{e9}a", 0, 2), "\u{e9}");
    assert_eq!(slice_bytes("\u{e9}a", 2, 3), "a");
    assert_eq!(slice_bytes("\u{e9}a", 3, 3), "");
    assert_eq!(slice_bytes("hello", 1, 4), "ell");
}
