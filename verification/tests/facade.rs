use xml_dom::{get_implementation, Document, Element, Error, Name, Node, NodeArena, NodeType};

#[test]
fn the_crate_root_offers_the_whole_interface() {
    let mut arena = NodeArena::new();
    let doc = get_implementation()
        .create_document(&mut arena, "http://example.org/", "root", None)
        .unwrap();
    let root = arena.document_element(doc).unwrap();
    arena.set_attribute(root, "a", "1").unwrap();
    assert_eq!(arena.node_type(root), NodeType::Element);
    assert_eq!(arena.to_string(doc), "<root a=\"1\"></root>");
    assert_eq!(Name::parse("").unwrap_err(), Error::Syntax);
    let fresh = NodeArena::default();
    assert_eq!(fresh.len(), 0);
}
