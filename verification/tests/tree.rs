use xml_dom::arena::NodeArena;
use xml_dom::dom_impl::get_implementation;
use xml_dom::error::Error;
use xml_dom::node::{NodeType, RefNode};
use xml_dom::traits::{Document, Node};
use xml_dom::tree::{index_in, is_child_allowed, kind_allowed};

fn new_document(arena: &mut NodeArena) -> RefNode {
    get_implementation()
        .create_document(arena, "http://example.org/", "root", None)
        .unwrap()
}

fn element(arena: &mut NodeArena, doc: RefNode, name: &str) -> RefNode {
    arena.create_element(doc, name).unwrap()
}

fn one_of_each(arena: &mut NodeArena, doc: RefNode) -> Vec<RefNode> {
    let implementation = get_implementation();
    vec![
        arena.create_element(doc, "e").unwrap(),
        arena.create_attribute(doc, "a").unwrap(),
        arena.create_text_node(doc, "t"),
        arena.create_cdata_section(doc, "c").unwrap(),
        arena.create_entity_reference(doc, "r").unwrap(),
        arena.create_processing_instruction(doc, "p", None).unwrap(),
        arena.create_comment(doc, "m"),
        new_document(arena),
        implementation.create_document_type(arena, "dt", None, None).unwrap(),
        arena.create_document_fragment(doc).unwrap(),
    ]
}

const ALL_KINDS: [NodeType; 12] = [
    NodeType::Element,
    NodeType::Attribute,
    NodeType::Text,
    NodeType::CData,
    NodeType::EntityReference,
    NodeType::Entity,
    NodeType::ProcessingInstruction,
    NodeType::Comment,
    NodeType::Document,
    NodeType::DocumentType,
    NodeType::DocumentFragment,
    NodeType::Notation,
];

fn allowed_by_the_table(parent: NodeType, child: NodeType) -> bool {
    match parent {
        NodeType::Document => matches!(
            child,
            NodeType::Element
                | NodeType::Comment
                | NodeType::ProcessingInstruction
                | NodeType::DocumentType
        ),
        NodeType::DocumentFragment
        | NodeType::Element
        | NodeType::EntityReference
        | NodeType::Entity => matches!(
            child,
            NodeType::Element
                | NodeType::Text
                | NodeType::Comment
                | NodeType::ProcessingInstruction
                | NodeType::CData
                | NodeType::EntityReference
        ),
        NodeType::Attribute => matches!(child, NodeType::Text | NodeType::EntityReference),
        NodeType::Text
        | NodeType::CData
        | NodeType::ProcessingInstruction
        | NodeType::Comment
        | NodeType::DocumentType
        | NodeType::Notation => false,
    }
}

#[test]
fn kinds_are_admitted_as_the_table_says() {
    for parent in ALL_KINDS {
        for child in ALL_KINDS {
            assert_eq!(
                kind_allowed(parent, child),
                allowed_by_the_table(parent, child),
                "{:?} under {:?}",
                child,
                parent
            );
        }
    }
}

#[test]
fn is_child_allowed_goes_by_the_kinds_of_the_nodes() {
    let mut arena = NodeArena::new();
    let doc = new_document(&mut arena);
    let nodes = one_of_each(&mut arena, doc);
    for &parent in &nodes {
        for &child in &nodes {
            assert_eq!(
                is_child_allowed(&arena, parent, child),
                allowed_by_the_table(arena.node_type(parent), arena.node_type(child))
            );
        }
    }
}

#[test]
fn append_child_refuses_kinds_that_the_parent_does_not_admit() {
    let mut arena = NodeArena::new();
    let doc = new_document(&mut arena);
    let nodes = one_of_each(&mut arena, doc);
    for &parent in &nodes {
        for &child in &nodes {
            if !allowed_by_the_table(arena.node_type(parent), arena.node_type(child)) {
                let children = arena.child_nodes(parent);
                let parent_of_child = arena.parent_node(child);
                let owner_of_child = arena.owner_document(child);
                assert_eq!(
                    arena.append_child(parent, child).unwrap_err(),
                    Error::HierarchyRequest
                );
                assert_eq!(arena.child_nodes(parent), children);
                assert_eq!(arena.parent_node(child), parent_of_child);
                assert_eq!(arena.owner_document(child), owner_of_child);
            }
        }
    }
}

#[test]
fn append_child_into_text_fails() {
    let mut arena = NodeArena::new();
    let doc = new_document(&mut arena);
    let text = arena.create_text_node(doc, "t");
    let child = element(&mut arena, doc, "e");
    assert_eq!(arena.append_child(text, child).unwrap_err(), Error::HierarchyRequest);
    assert!(!arena.has_child_nodes(text));
    assert_eq!(arena.parent_node(child), None);
}

#[test]
fn append_child_sets_parent_and_owner_document() {
    let mut arena = NodeArena::new();
    let doc = new_document(&mut arena);
    let root = arena.document_element(doc).unwrap();
    let child = element(&mut arena, doc, "child");
    assert_eq!(arena.parent_node(child), None);
    assert_eq!(arena.append_child(root, child).unwrap(), child);
    assert_eq!(arena.parent_node(child), Some(root));
    assert_eq!(arena.owner_document(child), arena.owner_document(root));
    assert_eq!(arena.owner_document(child), Some(doc));
    assert_eq!(arena.child_nodes(root), vec![child]);
    assert!(arena.has_child_nodes(root));
}

#[test]
fn append_child_to_a_document_gives_the_owner_of_the_document() {
    let mut arena = NodeArena::new();
    let doc = new_document(&mut arena);
    let comment = arena.create_comment(doc, "top");
    assert_eq!(arena.owner_document(comment), Some(doc));
    arena.append_child(doc, comment).unwrap();
    assert_eq!(arena.parent_node(comment), Some(doc));
    assert_eq!(arena.owner_document(comment), arena.owner_document(doc));
    assert_eq!(arena.owner_document(comment), None);
}

#[test]
fn append_child_across_documents_fails() {
    let mut arena = NodeArena::new();
    let one = new_document(&mut arena);
    let two = new_document(&mut arena);
    let root_one = arena.document_element(one).unwrap();
    let root_two = arena.document_element(two).unwrap();
    assert_eq!(arena.append_child(root_one, root_two).unwrap_err(), Error::WrongDocument);
    let stranger = element(&mut arena, two, "stranger");
    assert_eq!(arena.append_child(root_one, stranger).unwrap_err(), Error::WrongDocument);
    assert_eq!(arena.child_nodes(root_one), vec![]);
    assert_eq!(arena.parent_node(stranger), None);
    assert_eq!(arena.owner_document(stranger), Some(two));
    let comment = arena.create_comment(two, "note");
    assert_eq!(arena.append_child(one, comment).unwrap_err(), Error::WrongDocument);
}

#[test]
fn a_node_without_owner_can_be_appended_anywhere() {
    let mut arena = NodeArena::new();
    let one = new_document(&mut arena);
    let two = new_document(&mut arena);
    let comment = arena.create_comment(one, "note");
    arena.append_child(one, comment).unwrap();
    assert_eq!(arena.owner_document(comment), None);
    let root_two = arena.document_element(two).unwrap();
    arena.append_child(root_two, comment).unwrap();
    assert_eq!(arena.parent_node(comment), Some(root_two));
    assert_eq!(arena.owner_document(comment), Some(two));
    assert_eq!(arena.child_nodes(one), vec![]);
}

#[test]
fn append_child_refuses_to_close_a_cycle() {
    let mut arena = NodeArena::new();
    let doc = new_document(&mut arena);
    let root = arena.document_element(doc).unwrap();
    let a = element(&mut arena, doc, "a");
    let b = element(&mut arena, doc, "b");
    arena.append_child(root, a).unwrap();
    arena.append_child(a, b).unwrap();
    assert_eq!(arena.append_child(b, a).unwrap_err(), Error::HierarchyRequest);
    assert_eq!(arena.append_child(b, root).unwrap_err(), Error::HierarchyRequest);
    assert_eq!(arena.append_child(a, a).unwrap_err(), Error::HierarchyRequest);
    assert_eq!(arena.child_nodes(root), vec![a]);
    assert_eq!(arena.child_nodes(a), vec![b]);
    assert_eq!(arena.child_nodes(b), vec![]);
    assert!(arena.is_inclusive_ancestor(root, b));
    assert!(arena.is_inclusive_ancestor(b, b));
    assert!(!arena.is_inclusive_ancestor(b, a));
}

#[test]
fn append_child_moves_a_node_from_its_old_parent() {
    let mut arena = NodeArena::new();
    let doc = new_document(&mut arena);
    let root = arena.document_element(doc).unwrap();
    let a = element(&mut arena, doc, "a");
    let b = element(&mut arena, doc, "b");
    let c = element(&mut arena, doc, "c");
    arena.append_child(root, a).unwrap();
    arena.append_child(root, b).unwrap();
    arena.append_child(root, c).unwrap();
    arena.append_child(b, a).unwrap();
    assert_eq!(arena.child_nodes(root), vec![b, c]);
    assert_eq!(arena.child_nodes(b), vec![a]);
    assert_eq!(arena.parent_node(a), Some(b));
}

#[test]
fn append_child_of_a_child_moves_it_to_the_end() {
    let mut arena = NodeArena::new();
    let doc = new_document(&mut arena);
    let root = arena.document_element(doc).unwrap();
    let a = element(&mut arena, doc, "a");
    let b = element(&mut arena, doc, "b");
    arena.append_child(root, a).unwrap();
    arena.append_child(root, b).unwrap();
    arena.append_child(root, a).unwrap();
    assert_eq!(arena.child_nodes(root), vec![b, a]);
}

#[test]
fn a_document_takes_no_second_element() {
    let mut arena = NodeArena::new();
    let doc = new_document(&mut arena);
    let second = element(&mut arena, doc, "second");
    assert_eq!(arena.append_child(doc, second).unwrap_err(), Error::HierarchyRequest);
    let root = arena.document_element(doc).unwrap();
    assert_eq!(arena.append_child(doc, root).unwrap_err(), Error::HierarchyRequest);
    assert_eq!(arena.child_nodes(doc), vec![]);
    assert!(arena.is_crowded(doc, second, None));
    assert!(!arena.is_crowded(root, second, None));
}

#[test]
fn a_document_takes_one_document_type() {
    let mut arena = NodeArena::new();
    let implementation = get_implementation();
    let doc = new_document(&mut arena);
    let first = implementation.create_document_type(&mut arena, "html", None, None).unwrap();
    let second = implementation.create_document_type(&mut arena, "svg", None, None).unwrap();
    assert!(!arena.is_crowded(doc, first, None));
    arena.append_child(doc, first).unwrap();
    assert_eq!(arena.append_child(doc, second).unwrap_err(), Error::HierarchyRequest);
    assert!(arena.is_crowded(doc, second, None));
    assert!(!arena.is_crowded(doc, second, Some(first)));
    assert_eq!(arena.replace_child(doc, second, first).unwrap(), first);
    assert_eq!(arena.child_nodes(doc), vec![second]);
    assert_eq!(arena.parent_node(first), None);
}

#[test]
fn a_document_with_a_document_type_takes_no_other() {
    let mut arena = NodeArena::new();
    let implementation = get_implementation();
    let doc_type = implementation.create_document_type(&mut arena, "html", None, None).unwrap();
    let doc = implementation
        .create_document(&mut arena, "http://example.org/", "root", Some(doc_type))
        .unwrap();
    let other = implementation.create_document_type(&mut arena, "svg", None, None).unwrap();
    assert_eq!(arena.append_child(doc, other).unwrap_err(), Error::HierarchyRequest);
}

#[test]
fn insert_before_places_the_child_before_the_reference() {
    let mut arena = NodeArena::new();
    let doc = new_document(&mut arena);
    let root = arena.document_element(doc).unwrap();
    let a = element(&mut arena, doc, "a");
    let b = element(&mut arena, doc, "b");
    let c = element(&mut arena, doc, "c");
    arena.append_child(root, a).unwrap();
    arena.append_child(root, c).unwrap();
    assert_eq!(arena.insert_before(root, b, Some(c)).unwrap(), b);
    assert_eq!(arena.child_nodes(root), vec![a, b, c]);
    assert_eq!(arena.parent_node(b), Some(root));
    assert_eq!(arena.owner_document(b), Some(doc));
    assert_eq!(arena.first_child(root), Some(a));
    assert_eq!(arena.last_child(root), Some(c));
}

#[test]
fn insert_before_without_reference_appends() {
    let mut arena = NodeArena::new();
    let doc = new_document(&mut arena);
    let root = arena.document_element(doc).unwrap();
    let a = element(&mut arena, doc, "a");
    let b = element(&mut arena, doc, "b");
    arena.insert_before(root, a, None).unwrap();
    arena.insert_before(root, b, None).unwrap();
    assert_eq!(arena.child_nodes(root), vec![a, b]);
}

#[test]
fn insert_before_a_stranger_appends() {
    let mut arena = NodeArena::new();
    let doc = new_document(&mut arena);
    let root = arena.document_element(doc).unwrap();
    let a = element(&mut arena, doc, "a");
    let b = element(&mut arena, doc, "b");
    let stranger = element(&mut arena, doc, "stranger");
    arena.append_child(root, a).unwrap();
    arena.insert_before(root, b, Some(stranger)).unwrap();
    assert_eq!(arena.child_nodes(root), vec![a, b]);
}

#[test]
fn insert_before_moves_an_earlier_sibling() {
    let mut arena = NodeArena::new();
    let doc = new_document(&mut arena);
    let root = arena.document_element(doc).unwrap();
    let a = element(&mut arena, doc, "a");
    let b = element(&mut arena, doc, "b");
    let c = element(&mut arena, doc, "c");
    arena.append_child(root, a).unwrap();
    arena.append_child(root, b).unwrap();
    arena.append_child(root, c).unwrap();
    arena.insert_before(root, a, Some(c)).unwrap();
    assert_eq!(arena.child_nodes(root), vec![b, a, c]);
}

#[test]
fn insert_before_makes_the_same_checks_as_append_child() {
    let mut arena = NodeArena::new();
    let one = new_document(&mut arena);
    let two = new_document(&mut arena);
    let root = arena.document_element(one).unwrap();
    let a = element(&mut arena, one, "a");
    arena.append_child(root, a).unwrap();
    let attribute = arena.create_attribute(one, "x").unwrap();
    assert_eq!(
        arena.insert_before(root, attribute, Some(a)).unwrap_err(),
        Error::HierarchyRequest
    );
    let stranger = element(&mut arena, two, "s");
    assert_eq!(arena.insert_before(root, stranger, Some(a)).unwrap_err(), Error::WrongDocument);
    assert_eq!(arena.insert_before(a, root, None).unwrap_err(), Error::HierarchyRequest);
    assert_eq!(arena.child_nodes(root), vec![a]);
}

#[test]
fn remove_child_takes_the_child_out() {
    let mut arena = NodeArena::new();
    let doc = new_document(&mut arena);
    let root = arena.document_element(doc).unwrap();
    let a = element(&mut arena, doc, "a");
    let b = element(&mut arena, doc, "b");
    let c = element(&mut arena, doc, "c");
    arena.append_child(root, a).unwrap();
    arena.append_child(root, b).unwrap();
    arena.append_child(root, c).unwrap();
    assert_eq!(arena.remove_child(root, b).unwrap(), b);
    assert_eq!(arena.child_nodes(root), vec![a, c]);
    assert_eq!(arena.parent_node(b), None);
    assert_eq!(arena.owner_document(b), Some(doc));
    assert_eq!(arena.next_sibling(a), Some(c));
    assert_eq!(arena.next_sibling(b), None);
}

#[test]
fn remove_child_fails_for_a_node_that_is_no_child() {
    let mut arena = NodeArena::new();
    let doc = new_document(&mut arena);
    let root = arena.document_element(doc).unwrap();
    let a = element(&mut arena, doc, "a");
    let b = element(&mut arena, doc, "b");
    arena.append_child(root, a).unwrap();
    arena.append_child(a, b).unwrap();
    assert_eq!(arena.remove_child(root, b).unwrap_err(), Error::NotFound);
    assert_eq!(arena.remove_child(root, root).unwrap_err(), Error::NotFound);
    assert_eq!(arena.remove_child(doc, root).unwrap_err(), Error::NotFound);
    assert_eq!(arena.child_nodes(root), vec![a]);
    assert_eq!(arena.parent_node(b), Some(a));
}

#[test]
fn replace_child_puts_the_new_child_in_the_place_of_the_old() {
    let mut arena = NodeArena::new();
    let doc = new_document(&mut arena);
    let root = arena.document_element(doc).unwrap();
    let a = element(&mut arena, doc, "a");
    let b = element(&mut arena, doc, "b");
    let c = element(&mut arena, doc, "c");
    let n = element(&mut arena, doc, "n");
    arena.append_child(root, a).unwrap();
    arena.append_child(root, b).unwrap();
    arena.append_child(root, c).unwrap();
    assert_eq!(arena.replace_child(root, n, b).unwrap(), b);
    assert_eq!(arena.child_nodes(root), vec![a, n, c]);
    assert_eq!(arena.parent_node(n), Some(root));
    assert_eq!(arena.parent_node(b), None);
}

#[test]
fn replace_child_by_a_sibling_moves_the_sibling() {
    let mut arena = NodeArena::new();
    let doc = new_document(&mut arena);
    let root = arena.document_element(doc).unwrap();
    let a = element(&mut arena, doc, "a");
    let b = element(&mut arena, doc, "b");
    let c = element(&mut arena, doc, "c");
    arena.append_child(root, a).unwrap();
    arena.append_child(root, b).unwrap();
    arena.append_child(root, c).unwrap();
    arena.replace_child(root, a, c).unwrap();
    assert_eq!(arena.child_nodes(root), vec![b, a]);
    assert_eq!(arena.parent_node(c), None);
}

#[test]
fn replace_child_by_itself_changes_nothing() {
    let mut arena = NodeArena::new();
    let doc = new_document(&mut arena);
    let root = arena.document_element(doc).unwrap();
    let a = element(&mut arena, doc, "a");
    let b = element(&mut arena, doc, "b");
    arena.append_child(root, a).unwrap();
    arena.append_child(root, b).unwrap();
    assert_eq!(arena.replace_child(root, a, a).unwrap(), a);
    assert_eq!(arena.child_nodes(root), vec![a, b]);
    assert_eq!(arena.parent_node(a), Some(root));
}

#[test]
fn replace_child_fails_as_an_insertion_would_or_for_a_stranger() {
    let mut arena = NodeArena::new();
    let one = new_document(&mut arena);
    let two = new_document(&mut arena);
    let root = arena.document_element(one).unwrap();
    let a = element(&mut arena, one, "a");
    let n = element(&mut arena, one, "n");
    let stranger = element(&mut arena, one, "stranger");
    arena.append_child(root, a).unwrap();
    assert_eq!(arena.replace_child(root, n, stranger).unwrap_err(), Error::NotFound);
    let attribute = arena.create_attribute(one, "x").unwrap();
    assert_eq!(arena.replace_child(root, attribute, a).unwrap_err(), Error::HierarchyRequest);
    let foreign = element(&mut arena, two, "f");
    assert_eq!(arena.replace_child(root, foreign, a).unwrap_err(), Error::WrongDocument);
    assert_eq!(arena.child_nodes(root), vec![a]);
    assert_eq!(arena.parent_node(n), None);
}

#[test]
fn siblings_follow_the_order_of_the_children() {
    let mut arena = NodeArena::new();
    let doc = new_document(&mut arena);
    let root = arena.document_element(doc).unwrap();
    let mut c = Vec::new();
    for i in 1..6 {
        let child = element(&mut arena, doc, &format!("c{}", i));
        arena.append_child(root, child).unwrap();
        c.push(child);
    }
    assert_eq!(arena.next_sibling(c[2]), Some(c[3]));
    assert_eq!(arena.previous_sibling(c[2]), Some(c[1]));
    assert_eq!(arena.previous_sibling(c[0]), None);
    assert_eq!(arena.next_sibling(c[4]), None);
    assert_eq!(arena.first_child(root), Some(c[0]));
    assert_eq!(arena.last_child(root), Some(c[4]));
    assert_eq!(arena.next_sibling(root), None);
    assert_eq!(arena.previous_sibling(root), None);
    assert_eq!(arena.first_child(c[0]), None);
    assert_eq!(arena.last_child(c[0]), None);
}

#[test]
fn node_values_can_be_set_and_unset() {
    let mut arena = NodeArena::new();
    let doc = new_document(&mut arena);
    let root = arena.document_element(doc).unwrap();
    assert_eq!(arena.node_value(root), None);
    arena.set_node_value(root, "v").unwrap();
    assert_eq!(arena.node_value(root), Some("v".to_string()));
    arena.unset_node_value(root).unwrap();
    assert_eq!(arena.node_value(root), None);
    assert_eq!(arena.name(root).to_string(), "root");
    assert_eq!(arena.node_type(root), NodeType::Element);
}

#[test]
fn handles_are_weak_and_strong() {
    let mut arena = NodeArena::new();
    let doc = new_document(&mut arena);
    assert!(arena.contains(doc));
    let weak = doc.downgrade();
    assert_eq!(arena.upgrade(weak), Some(doc));
    let other = NodeArena::new();
    assert_eq!(other.upgrade(weak), None);
    assert!(!other.contains(doc));
    assert_eq!(other.len(), 0);
    assert_eq!(arena.len(), 2);
}

#[test]
fn index_in_finds_the_first_place() {
    let a = RefNode { index: 3 };
    let b = RefNode { index: 5 };
    let c = RefNode { index: 7 };
    let list = vec![a, b, a];
    assert_eq!(index_in(&list, a), 0);
    assert_eq!(index_in(&list, b), 1);
    assert_eq!(index_in(&list, c), 3);
    assert_eq!(index_in(&Vec::new(), a), 0);
}

#[test]
fn insertion_errors_are_told_before_the_insertion() {
    let mut arena = NodeArena::new();
    let one = new_document(&mut arena);
    let two = new_document(&mut arena);
    let root = arena.document_element(one).unwrap();
    let a = element(&mut arena, one, "a");
    let t = arena.create_text_node(one, "t");
    let f = element(&mut arena, two, "f");
    assert_eq!(arena.insertion_error(root, a, None), None);
    assert_eq!(arena.insertion_error(t, a, None), Some(Error::HierarchyRequest));
    assert_eq!(arena.insertion_error(root, f, None), Some(Error::WrongDocument));
    assert_eq!(arena.insertion_error(t, f, None), Some(Error::HierarchyRequest));
}

#[test]
fn a_child_in_the_tree_of_another_document_is_refused() {
    let mut arena = NodeArena::new();
    let one = new_document(&mut arena);
    let two = new_document(&mut arena);
    let root_one = arena.document_element(one).unwrap();
    let root_two = arena.document_element(two).unwrap();
    let inner = element(&mut arena, two, "inner");
    let leaf = arena.create_text_node(two, "leaf");
    arena.append_child(root_two, inner).unwrap();
    arena.append_child(inner, leaf).unwrap();
    let target = element(&mut arena, one, "target");
    arena.append_child(root_one, target).unwrap();
    assert_eq!(arena.append_child(target, inner).unwrap_err(), Error::WrongDocument);
    assert_eq!(arena.append_child(target, leaf).unwrap_err(), Error::WrongDocument);
    assert_eq!(arena.insert_before(root_one, inner, Some(target)).unwrap_err(), Error::WrongDocument);
    assert_eq!(arena.parent_node(inner), Some(root_two));
    assert_eq!(arena.child_nodes(target), vec![]);
}

#[test]
fn children_have_the_owner_of_their_parent() {
    let mut arena = NodeArena::new();
    let doc = new_document(&mut arena);
    let root = arena.document_element(doc).unwrap();
    let a = element(&mut arena, doc, "a");
    let t = arena.create_text_node(doc, "t");
    let c = arena.create_comment(doc, "c");
    arena.append_child(root, a).unwrap();
    arena.append_child(a, t).unwrap();
    arena.append_child(doc, c).unwrap();
    for n in [a, t, c] {
        let parent = arena.parent_node(n).unwrap();
        assert_eq!(arena.owner_document(n), arena.owner_document(parent));
    }
    arena.append_child(a, c).unwrap();
    assert_eq!(arena.owner_document(c), Some(doc));
    assert!(arena.document_element(doc).is_some());
    assert_eq!(arena.owner_document(doc), None);
}
