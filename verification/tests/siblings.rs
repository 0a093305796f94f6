use xml_dom::arena::NodeArena;
use xml_dom::dom_impl::get_implementation;
use xml_dom::node::RefNode;
use xml_dom::traits::{Document, Node};

fn make_document_node(arena: &mut NodeArena) -> RefNode {
    get_implementation()
        .create_document(arena, "http://example.org/", "root", None)
        .unwrap()
}

fn make_node(arena: &mut NodeArena, document: RefNode, name: &str) -> RefNode {
    let element = arena.create_element(document, name).unwrap();
    let document_element = arena.document_element(document).unwrap();
    let result = arena.append_child(document_element, element);
    assert!(result.is_ok());
    element
}

#[test]
fn test_next_sibling() {
    //
    // Setup the tree
    //
    let mut arena = NodeArena::new();
    let document = make_document_node(&mut arena);
    let root_node = make_node(&mut arena, document, "element");
    for index in 1..6 {
        let child_node = make_node(&mut arena, document, &format!("child-{}", index));
        let _ignore = arena.append_child(root_node, child_node);
    }

    assert_eq!(arena.child_nodes(root_node).len(), 5);

    //
    // Ask for siblings
    //
    let mid_node = arena.child_nodes(root_node)[2];
    assert_eq!(arena.name(mid_node).to_string(), "child-3".to_string());

    let next_node = arena.next_sibling(mid_node).unwrap();
    assert_eq!(arena.name(next_node).to_string(), "child-4".to_string());

    let last_node = arena.next_sibling(next_node).unwrap();
    assert_eq!(arena.name(last_node).to_string(), "child-5".to_string());

    let no_node = arena.next_sibling(last_node);
    assert!(no_node.is_none());
}

#[test]
fn test_previous_sibling() {
    let mut arena = NodeArena::new();
    let document = make_document_node(&mut arena);
    //
    // Setup the tree
    //
    let root_node = make_node(&mut arena, document, "element");
    for index in 1..6 {
        let child_node = make_node(&mut arena, document, &format!("child-{}", index));
        let _ignore = arena.append_child(root_node, child_node);
    }

    assert_eq!(arena.child_nodes(root_node).len(), 5);

    //
    // Ask for siblings
    //
    let mid_node = arena.child_nodes(root_node)[2];
    assert_eq!(arena.name(mid_node).to_string(), "child-3".to_string());

    let previous_node = arena.previous_sibling(mid_node).unwrap();
    assert_eq!(arena.name(previous_node).to_string(), "child-2".to_string());

    let first_node = arena.previous_sibling(previous_node).unwrap();
    assert_eq!(arena.name(first_node).to_string(), "child-1".to_string());

    let no_node = arena.previous_sibling(first_node);
    assert!(no_node.is_none());
}
