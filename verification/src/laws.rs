//! What holds of the operations on the shape of the tree, whatever the tree.

use vstd::prelude::*;
use crate::error::Error;
use crate::forest::{
    child_kind_allowed, lemma_position_from, lemma_position_of_item, lemma_without, position,
    without, Forest,
};
use crate::node::{NodeType, RefNode};

verus! {

/// A parent whose kind does not admit the kind of a node refuses that node as a child, and
/// the refusal is one of the hierarchy.
pub proof fn lemma_unfit_child_is_refused(f: Forest, parent: RefNode, child: RefNode)
    requires
        f.wf(),
        f.contains(parent),
        f.contains(child),
        !child_kind_allowed(f.kind(parent), f.kind(child)),
    ensures
        f.insertion_error(parent, child, None) == Some(Error::HierarchyRequest),
{
}

/// An attribute, a document, a document fragment, an entity and a notation have no parent.
pub proof fn lemma_kinds_without_parent(f: Forest, n: RefNode)
    requires
        f.wf(),
        f.contains(n),
        f.kind(n) == NodeType::Attribute || f.kind(n) == NodeType::Document || f.kind(n)
            == NodeType::DocumentFragment || f.kind(n) == NodeType::Entity || f.kind(n)
            == NodeType::Notation,
    ensures
        f.node(n).parent is None,
{
    assert(f.node_wf(n));
}

/// Every child is of a kind that the kind of its parent admits, and no node is listed
/// twice among the children of a node.
pub proof fn lemma_children_are_admitted(f: Forest, parent: RefNode, k: int)
    requires
        f.wf(),
        f.contains(parent),
        0 <= k < f.node(parent).children.len(),
    ensures
        f.contains(f.node(parent).children[k]),
        child_kind_allowed(f.kind(parent), f.kind(f.node(parent).children[k])),
        f.node(parent).children.no_duplicates(),
{
    assert(f.node_wf(parent));
    assert(f.node_wf(f.node(parent).children[k]));
}

/// A node that one document owns is refused as a child of a node that another document
/// owns, as being of the wrong document, wherever the kind of the parent admits its kind.
pub proof fn lemma_foreign_child_is_refused(f: Forest, parent: RefNode, child: RefNode)
    requires
        f.wf(),
        f.contains(parent),
        f.contains(child),
        child_kind_allowed(f.kind(parent), f.kind(child)),
        f.node(parent).owner_document is Some,
        f.node(child).owner_document is Some,
        f.node(child).owner_document != f.node(parent).owner_document,
    ensures
        f.insertion_error(parent, child, None) == Some(Error::WrongDocument),
{
    assert(f.node_wf(parent));
    if f.is_inclusive_ancestor(child, parent) {
        f.lemma_ancestor_owner(child, parent);
    }
}

/// A child has the owner document of its parent, and so has every node above it; no
/// document owns a document, and every document has its element.
pub proof fn lemma_owners(f: Forest, n: RefNode)
    requires
        f.wf(),
        f.contains(n),
    ensures
        f.node(n).parent matches Some(p) ==> f.node(p).owner_document == f.node(n).owner_document,
        forall|a: RefNode|
            f.is_inclusive_ancestor(a, n) ==> f.node(a).owner_document == f.node(n).owner_document,
        f.kind(n) == NodeType::Document ==> f.node(n).owner_document is None && f.slot(
            n,
            NodeType::Element,
        ) is Some,
{
    assert(f.node_wf(n));
    assert forall|a: RefNode| f.is_inclusive_ancestor(a, n) implies f.node(a).owner_document
        == f.node(n).owner_document by {
        f.lemma_ancestor_owner(a, n);
    }
}

/// The roots of two documents do not mix: an element without a parent that one document
/// owns is refused, as being of the wrong document, as a child of an element without a
/// parent that another document owns.
pub proof fn lemma_roots_of_two_documents(f: Forest, parent: RefNode, child: RefNode)
    requires
        f.wf(),
        f.contains(parent),
        f.contains(child),
        f.kind(parent) == NodeType::Element,
        f.kind(child) == NodeType::Element,
        f.node(parent).parent is None,
        f.node(parent).owner_document is Some,
        f.node(child).owner_document is Some,
        f.node(child).owner_document != f.node(parent).owner_document,
    ensures
        f.insertion_error(parent, child, None) == Some(Error::WrongDocument),
{
}

/// A node that has been appended is the last child of the node it was appended to, has
/// that node as its parent, and has the owner document of its parent.
pub proof fn lemma_appended_child(f: Forest, parent: RefNode, child: RefNode)
    requires
        f.wf(),
        f.contains(parent),
        f.contains(child),
        f.insertion_error(parent, child, None) is None,
    ensures
        f.append_child(parent, child).wf(),
        f.append_child(parent, child).node(child).parent == Some(parent),
        f.append_child(parent, child).node(child).owner_document == f.append_child(
            parent,
            child,
        ).node(parent).owner_document,
        f.append_child(parent, child).last_child(parent) == Some(child),
        f.append_child(parent, child).node(parent).children.len() >= 1,
{
    f.lemma_insertion_fits(parent, child, None);
    f.lemma_insert_child(parent, child, None);
}

/// Appending a node that has no parent adds it behind the children that were there.
pub proof fn lemma_appended_detached_child(f: Forest, parent: RefNode, child: RefNode)
    requires
        f.wf(),
        f.contains(parent),
        f.contains(child),
        f.node(child).parent is None,
        f.insertion_error(parent, child, None) is None,
    ensures
        f.append_child(parent, child).node(parent).children == f.node(parent).children.push(child),
{
    f.lemma_insertion_fits(parent, child, None);
    f.lemma_insert_child(parent, child, None);
    let kids = f.node(parent).children;
    assert(kids.insert(kids.len() as int, child) =~= kids.push(child));
}

/// A node that has been inserted before a child of a node has that child as its next
/// sibling.
pub proof fn lemma_inserted_before(f: Forest, parent: RefNode, child: RefNode, anchor: RefNode)
    requires
        f.wf(),
        f.contains(parent),
        f.contains(child),
        f.insertion_error(parent, child, None) is None,
        f.node(parent).children.contains(anchor),
        anchor != child,
    ensures
        f.insert_child(parent, child, Some(anchor)).wf(),
        f.insert_child(parent, child, Some(anchor)).node(child).parent == Some(parent),
        f.insert_child(parent, child, Some(anchor)).next_sibling(child) == Some(anchor),
{
    let g = f.insert_child(parent, child, Some(anchor));
    f.lemma_insertion_fits(parent, child, None);
    f.lemma_insert_child(parent, child, Some(anchor));
    assert(f.node_wf(parent));
    let kids = f.node(parent).children;
    let rest = without(kids, child);
    lemma_without(kids, child);
    lemma_position_from(rest, anchor, 0);
    let at = position(rest, anchor);
    assert(rest.contains(anchor));
    assert(at < rest.len()) by {
        if at == rest.len() {
            let j = choose|j: int| 0 <= j < rest.len() && rest[j] == anchor;
            assert(rest[j] != anchor);
        }
    }
    let grown = g.node(parent).children;
    assert(grown[at] == child);
    assert(grown[at + 1] == anchor);
    lemma_siblings(g, parent, at);
}

/// A child that has been removed from a node has no parent and is no child of the node;
/// the other children of the node are left in their order.
pub proof fn lemma_removed_child(f: Forest, parent: RefNode, k: int)
    requires
        f.wf(),
        f.contains(parent),
        0 <= k < f.node(parent).children.len(),
    ensures
        f.detach(f.node(parent).children[k]).wf(),
        f.detach(f.node(parent).children[k]).node(f.node(parent).children[k]).parent is None,
        f.detach(f.node(parent).children[k]).node(parent).children == f.node(
            parent,
        ).children.remove(k),
        !f.detach(f.node(parent).children[k]).node(parent).children.contains(
            f.node(parent).children[k],
        ),
{
    let c = f.node(parent).children[k];
    assert(f.node_wf(parent));
    f.lemma_detach(c);
    lemma_position_of_item(f.node(parent).children, k);
}

/// The child that stands at `k` among the children of a node has the child at `k + 1` as
/// its next sibling and the child at `k - 1` as its previous one, and none where the
/// children end.
pub proof fn lemma_siblings(f: Forest, parent: RefNode, k: int)
    requires
        f.wf(),
        f.contains(parent),
        0 <= k < f.node(parent).children.len(),
    ensures
        f.node(f.node(parent).children[k]).parent == Some(parent),
        f.next_sibling(f.node(parent).children[k]) == if k + 1 < f.node(parent).children.len() {
            Some(f.node(parent).children[k + 1])
        } else {
            None
        },
        f.previous_sibling(f.node(parent).children[k]) == if k > 0 {
            Some(f.node(parent).children[k - 1])
        } else {
            None
        },
{
    assert(f.node_wf(parent));
    lemma_position_of_item(f.node(parent).children, k);
}

} // verus!
