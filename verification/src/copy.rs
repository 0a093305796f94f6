//! Copies of nodes: what a copy of a node is, and the making of it.

use vstd::prelude::*;
use crate::arena::NodeArena;
use crate::copy_laws::same_but_parent;
use crate::forest::Forest;
use crate::node::{Extension, ExtensionView, NamespaceBinding, NodeType, NodeView, RefNode};
use crate::node_impl::NodeImpl;

verus! {

/// Whether a node of kind `kind` can be copied: any node but a document and the nodes of a
/// document type.
pub open spec fn is_clonable(kind: NodeType) -> bool {
    !(kind is Document || kind is DocumentType || kind is Entity || kind is Notation)
}

impl Forest {
    /// Whether this forest has every node of `orig` as it is there, beside nodes of its own.
    pub open spec fn extends(self, orig: Forest) -> bool {
        &&& orig.nodes.len() <= self.nodes.len()
        &&& forall|x: RefNode| orig.contains(x) ==> #[trigger] self.node(x) == orig.node(x)
    }

    /// Whether `g` has every node of this forest but `dst` as it is here.
    pub open spec fn same_but_at(self, g: Forest, dst: RefNode) -> bool {
        forall|x: RefNode| self.contains(x) && x != dst ==> #[trigger] g.node(x) == self.node(x)
    }

    /// Whether `dst` has in `g` the kind, name, value, parent and owner document that it
    /// has here.
    pub open spec fn same_core(self, g: Forest, dst: RefNode) -> bool {
        &&& g.node(dst).node_type == self.node(dst).node_type
        &&& g.node(dst).name == self.node(dst).name
        &&& g.node(dst).value == self.node(dst).value
        &&& g.node(dst).parent == self.node(dst).parent
        &&& g.node(dst).owner_document == self.node(dst).owner_document
    }

    /// The copy of the node `v` as it is first made: of the kind, name, value and owner
    /// document of `v`, with the namespace bindings of `v` if it is an element, and with
    /// no parent, no children and no attributes.
    pub open spec fn bare_copy(v: NodeView) -> NodeView {
        NodeView::detached(
            v.node_type,
            v.name,
            v.value,
            v.owner_document,
            if v.node_type == NodeType::Element {
                ExtensionView::Element { attributes: Seq::empty(), namespaces: v.namespaces() }
            } else {
                ExtensionView::Empty
            },
        )
    }

    /// The forest with a new attribute of the name, value and owner document of `a`, which
    /// stands behind the attributes of the element `dst`.
    pub open spec fn with_attribute_copy(self, a: NodeView, dst: RefNode) -> Forest {
        let f = self.with_new(
            NodeView::detached(
                NodeType::Attribute,
                a.name,
                a.value,
                a.owner_document,
                ExtensionView::Empty,
            ),
        );
        f.with_extension(
            dst,
            ExtensionView::Element {
                attributes: f.node(dst).attributes().push(self.next()),
                namespaces: f.node(dst).namespaces(),
            },
        )
    }

    /// The forest with copies of the attributes of `orig` that stand at `from` and behind
    /// it in `attributes`, given to `dst` in their order.
    pub open spec fn with_attribute_copies(
        self,
        orig: Forest,
        attributes: Seq<RefNode>,
        from: int,
        dst: RefNode,
    ) -> Forest
        decreases attributes.len() - from,
    {
        if from < 0 || from >= attributes.len() {
            self
        } else {
            self.with_attribute_copy(orig.node(attributes[from]), dst).with_attribute_copies(
                orig,
                attributes,
                from + 1,
                dst,
            )
        }
    }

    /// The forest with a copy of the node `n` of `orig`, whose handle is `self.next()`.
    ///
    /// The copy has the kind, name, value and owner document of `n`, no parent, and, if
    /// `n` is an element, copies of its attributes and its namespace bindings. A deep copy
    /// has deep copies of the children of `n` as its children, in their order; a copy that
    /// is not deep has no children.
    pub open spec fn with_copy(self, orig: Forest, n: RefNode, deep: bool) -> Forest
        decreases orig.height(n), orig.node(n).children.len() + 1,
        when orig.wf() && orig.contains(n)
    {
        let v = orig.node(n);
        let f = self.with_new(Self::bare_copy(v)).with_attribute_copies(
            orig,
            v.attributes(),
            0,
            self.next(),
        );
        if deep {
            f.with_child_copies(orig, n, 0, self.next())
        } else {
            f
        }
    }

    /// The forest with deep copies of the children of `n` in `orig` that stand at `from`
    /// and behind it, placed behind the children of `dst` in their order.
    pub open spec fn with_child_copies(self, orig: Forest, n: RefNode, from: int, dst: RefNode)
        -> Forest
        decreases orig.height(n), orig.node(n).children.len() - from,
        when orig.wf() && orig.contains(n) && 0 <= from
    {
        if from >= orig.node(n).children.len() {
            self
        } else {
            let c = orig.node(n).children[from];
            proof {
                orig.lemma_child_height(n, from);
            }
            let f = self.with_copy(orig, c, true);
            f.link(
                dst,
                self.next(),
                f.node(dst).children.len() as int,
                orig.node(c).owner_document,
            ).with_child_copies(orig, n, from + 1, dst)
        }
    }
}

impl NodeArena {
    /// Gives the element `dst`, which was made after `orig` was taken, copies of the
    /// attributes of `n`.
    #[verifier::rlimit(40)]
    fn copy_attributes(&mut self, n: RefNode, dst: RefNode, Ghost(orig): Ghost<Forest>)
        requires
            old(self)@.wf(),
            orig.wf(),
            orig.contains(n),
            old(self)@.extends(orig),
            old(self)@.contains(dst),
            !orig.contains(dst),
            old(self)@.node(dst).attributes().len() == 0,
            old(self)@.kind(dst) == orig.kind(n),
        ensures
            final(self)@.wf(),
            final(self)@ == old(self)@.with_attribute_copies(
                orig,
                orig.node(n).attributes(),
                0,
                dst,
            ),
            final(self)@.nodes.len() >= old(self)@.nodes.len(),
            old(self)@.same_but_at(final(self)@, dst),
            old(self)@.same_core(final(self)@, dst),
            final(self)@.node(dst).children == old(self)@.node(dst).children,
            final(self)@.node(dst).namespaces() == old(self)@.node(dst).namespaces(),
            orig.attributes_copied(n, final(self)@, dst),
    {
        proof {
            assert(orig.node_wf(n));
        }
        let count = match self.record(n).extension() {
            Extension::Element { i_attributes, .. } => i_attributes.len(),
            _ => 0,
        };
        let ghost attributes = orig.node(n).attributes();
        let ghost target = self@.with_attribute_copies(orig, attributes, 0, dst);
        let mut i: usize = 0;
        while i < count
            invariant
                self@.wf(),
                orig.wf(),
                orig.contains(n),
                self@.extends(orig),
                self@.contains(dst),
                !orig.contains(dst),
                attributes == orig.node(n).attributes(),
                count == attributes.len(),
                self@.kind(dst) == orig.kind(n),
                0 <= i <= count,
                self@.nodes.len() >= old(self)@.nodes.len(),
                self@.node(dst).attributes().len() == i,
                orig.attributes_copied_to(n, self@, dst, i as int),
                self@.with_attribute_copies(orig, attributes, i as int, dst) == target,
                old(self)@.same_but_at(self@, dst),
                old(self)@.same_core(self@, dst),
                self@.node(dst).children == old(self)@.node(dst).children,
                self@.node(dst).namespaces() == old(self)@.node(dst).namespaces(),
            decreases count - i,
        {
            let ghost before = self@;
            proof {
                assert(orig.node_wf(n));
                assert(self@.node_wf(dst));
                assert(self@.node(n) == orig.node(n));
                assert(orig.contains(attributes[i as int]));
                assert(orig.node_wf(attributes[i as int]));
            }
            let source = match self.record(n).extension() {
                Extension::Element { i_attributes, .. } => i_attributes[i],
                _ => n,
            };
            assert(source == attributes[i as int]);
            assert(self@.node(source) == orig.node(source));
            let record = self.record(source);
            let twin = NodeImpl::new(
                NodeType::Attribute,
                record.name().clone(),
                crate::text::clone_opt_string(record.value()),
                record.owner_document(),
                Extension::Empty,
            );
            let copy = self.create(twin);
            let ghost mid = self@;
            proof {
                let grown = mid.node(dst).attributes().push(copy);
                let ext = ExtensionView::Element {
                    attributes: grown,
                    namespaces: mid.node(dst).namespaces(),
                };
                let g = mid.with_extension(dst, ext);
                assert(mid.node_wf(dst));
                assert forall|k: int| 0 <= k < i + 1 implies orig.attribute_copied(
                    attributes[k],
                    g,
                    #[trigger] grown[k],
                    dst,
                ) by {
                    if k < i {
                        let a = before.node(dst).attributes()[k];
                        assert(orig.attribute_copied(attributes[k], before, a, dst));
                        assert(mid.node(a) == before.node(a));
                    }
                }
                assert forall|a: int, b: int| 0 <= a < b < grown.len() implies !g.node(
                    #[trigger] grown[a],
                ).name.same_key(g.node(#[trigger] grown[b]).name) by {
                    assert(orig.attribute_copied(attributes[a], g, grown[a], dst));
                    assert(orig.attribute_copied(attributes[b], g, grown[b], dst));
                }
                assert(g.extension_wf(dst));
                mid.lemma_with_extension(dst, ext);
            }
            self.push_attribute_of(dst, copy);
            proof {
                assert forall|x: RefNode| before.contains(x) && x != dst implies (
                #[trigger] self@.node(x)) == before.node(x) by {
                    assert(mid.node(x) == before.node(x));
                }
                assert forall|x: RefNode| old(self)@.contains(x) && x != dst implies (
                #[trigger] self@.node(x)) == old(self)@.node(x) by {
                    assert(before.node(x) == old(self)@.node(x));
                }
            }
            i = i + 1;
        }
    }

    /// Makes a copy of the node `n`, which is as it was when `orig` was taken.
    #[verifier::rlimit(40)]
    fn copy_node(&mut self, n: RefNode, deep: bool, Ghost(orig): Ghost<Forest>) -> (twin: RefNode)
        requires
            old(self)@.wf(),
            orig.wf(),
            orig.contains(n),
            old(self)@.extends(orig),
            is_clonable(orig.kind(n)),
        ensures
            final(self)@.wf(),
            final(self)@ == old(self)@.with_copy(orig, n, deep),
            final(self)@.extends(old(self)@),
            twin == old(self)@.next(),
            final(self)@.contains(twin),
            !old(self)@.contains(twin),
            final(self)@.node(twin).parent is None,
            orig.is_copy(n, final(self)@, twin, deep),
        decreases orig.height(n), 1nat,
    {
        proof {
            assert(orig.node_wf(n));
            assert(self@.node(n) == orig.node(n));
        }
        let record = self.record(n);
        let kind = record.node_type();
        let extension = match record.extension() {
            Extension::Element { i_namespaces, .. } => Extension::Element {
                i_attributes: Vec::new(),
                i_namespaces: copy_bindings(i_namespaces),
            },
            _ => Extension::Empty,
        };
        let bare = NodeImpl::new(
            kind,
            record.name().clone(),
            crate::text::clone_opt_string(record.value()),
            record.owner_document(),
            extension,
        );
        assert(bare@ == Forest::bare_copy(orig.node(n)));
        let twin = self.create(bare);
        self.copy_attributes(n, twin, Ghost(orig));
        if deep {
            let ghost mid = self@;
            self.copy_children(n, twin, Ghost(orig));
            proof {
                let from = orig.node(n).attributes();
                assert forall|k: int| 0 <= k < from.len() implies orig.attribute_copied(
                    from[k],
                    self@,
                    #[trigger] self@.node(twin).attributes()[k],
                    twin,
                ) by {
                    let a = mid.node(twin).attributes()[k];
                    assert(orig.attribute_copied(from[k], mid, a, twin));
                    assert(self@.node(a) == mid.node(a));
                }
            }
        }
        twin
    }

    /// Gives `dst`, which was made after `orig` was taken and has no parent, deep copies
    /// of the children of `n` as its children.
    #[verifier::rlimit(40)]
    fn copy_children(&mut self, n: RefNode, dst: RefNode, Ghost(orig): Ghost<Forest>)
        requires
            old(self)@.wf(),
            orig.wf(),
            orig.contains(n),
            old(self)@.extends(orig),
            is_clonable(orig.kind(n)),
            old(self)@.contains(dst),
            !orig.contains(dst),
            old(self)@.kind(dst) == orig.kind(n),
            old(self)@.node(dst).parent is None,
            old(self)@.node(dst).children.len() == 0,
            old(self)@.node(dst).owner_document == orig.node(n).owner_document,
        ensures
            final(self)@.wf(),
            final(self)@ == old(self)@.with_child_copies(orig, n, 0, dst),
            final(self)@.nodes.len() >= old(self)@.nodes.len(),
            old(self)@.same_but_at(final(self)@, dst),
            old(self)@.same_core(final(self)@, dst),
            final(self)@.node(dst).extension == old(self)@.node(dst).extension,
            final(self)@.node(dst).children.len() == orig.node(n).children.len(),
            orig.children_copied(n, final(self)@, dst, 0),
        decreases orig.height(n), 0nat,
    {
        proof {
            assert(orig.node_wf(n));
            assert(self@.node(n) == orig.node(n));
        }
        let count = self.record(n).child_nodes().len();
        let ghost target = self@.with_child_copies(orig, n, 0, dst);
        let mut k: usize = 0;
        while k < count
            invariant
                self@.wf(),
                orig.wf(),
                orig.contains(n),
                self@.extends(orig),
                is_clonable(orig.kind(n)),
                self@.contains(dst),
                !orig.contains(dst),
                old(self)@.contains(dst),
                self@.kind(dst) == orig.kind(n),
                self@.node(dst).parent is None,
                count == orig.node(n).children.len(),
                0 <= k <= count,
                self@.nodes.len() >= old(self)@.nodes.len(),
                self@.with_child_copies(orig, n, k as int, dst) == target,
                old(self)@.same_but_at(self@, dst),
                old(self)@.same_core(self@, dst),
                self@.node(dst).extension == old(self)@.node(dst).extension,
                self@.node(dst).owner_document == orig.node(n).owner_document,
                self@.node(dst).children.len() == k,
                forall|j: int|
                    0 <= j < k ==> (#[trigger] self@.node(dst).children[j]).index > dst.index
                        && orig.is_copy(
                        orig.node(n).children[j],
                        self@,
                        self@.node(dst).children[j],
                        true,
                    ),
            decreases count - k,
        {
            let ghost before = self@;
            proof {
                assert(orig.node_wf(n));
                assert(self@.node(n) == orig.node(n));
                orig.lemma_child_height(n, k as int);
                assert(orig.node_wf(orig.node(n).children[k as int]));
            }
            let c = self.record(n).child_nodes()[k];
            let copy = self.copy_node(c, true, Ghost(orig));
            let ghost mid = self@;
            let owner = self.record(copy).owner_document();
            let at = self.record(dst).child_nodes().len();
            proof {
                assert(mid.node(dst) == before.node(dst));
                assert(mid.is_inclusive_ancestor(copy, dst) == (copy == dst));
                assert(mid.node_wf(copy));
                assert(orig.node(c).parent == Some(n));
                assert(mid.node(copy).owner_document == orig.node(c).owner_document);
                assert(orig.node_wf(c));
                mid.lemma_link(dst, copy, at as int, mid.node(copy).owner_document);
            }
            self.insert_child_of(dst, at, copy);
            self.set_parent_of(copy, Some(dst.downgrade()));
            self.set_owner_of(copy, owner);
            assert(self@.nodes =~= mid.link(
                dst,
                copy,
                at as int,
                orig.node(c).owner_document,
            ).nodes);
            proof {
                let after = self@;
                assert forall|j: int| 0 <= j < k + 1 implies (#[trigger] after.node(
                    dst,
                ).children[j]).index > dst.index && orig.is_copy(
                    orig.node(n).children[j],
                    after,
                    after.node(dst).children[j],
                    true,
                ) by {
                    if j < k {
                        let kid = before.node(dst).children[j];
                        assert(after.node(dst).children[j] == kid);
                        assert(before.node_wf(dst));
                        assert(before.contains(kid));
                        assert forall|x: RefNode|
                            before.contains(x) && x.index >= kid.index implies after.contains(x)
                            && same_but_parent(before.node(x), #[trigger] after.node(x)) by {
                            assert(mid.node(x) == before.node(x));
                        }
                        orig.lemma_child_height(n, j);
                        let c_j = orig.node(n).children[j];
                        orig.lemma_is_copy_frame(c_j, before, after, kid, true);
                    } else {
                        assert(after.node(dst).children[j] == copy);
                        assert forall|x: RefNode|
                            mid.contains(x) && x.index >= copy.index implies after.contains(x)
                            && same_but_parent(mid.node(x), #[trigger] after.node(x)) by {}
                        orig.lemma_is_copy_frame(c, mid, after, copy, true);
                    }
                }
                assert forall|x: RefNode| old(self)@.contains(x) && x != dst implies (
                #[trigger] after.node(x)) == old(self)@.node(x) by {
                    assert(before.node(x) == old(self)@.node(x));
                    assert(mid.node(x) == before.node(x));
                }
            }
            k = k + 1;
        }
        proof {
            orig.lemma_children_copied(n, self@, dst, 0);
        }
    }

    /// Makes a copy of the node `node`, deep or not, and hands it out; a node that cannot
    /// be copied is left alone, and nothing is handed out.
    pub(crate) fn copy(&mut self, node: RefNode, deep: bool) -> (r: Option<RefNode>)
        requires
            old(self)@.wf(),
            old(self)@.contains(node),
        ensures
            final(self)@.wf(),
            r is Some <==> is_clonable(old(self)@.kind(node)),
            r matches Some(c) ==> {
                &&& c == old(self)@.next()
                &&& final(self)@ == old(self)@.with_copy(old(self)@, node, deep)
                &&& final(self)@.extends(old(self)@)
                &&& final(self)@.contains(c)
                &&& final(self)@.node(c).parent is None
                &&& old(self)@.is_copy(node, final(self)@, c, deep)
            },
            r is None ==> final(self)@ == old(self)@,
    {
        let kind = self.record(node).node_type();
        match kind {
            NodeType::Document | NodeType::DocumentType | NodeType::Entity | NodeType::Notation => {
                None
            },
            _ => Some(self.copy_node(node, deep, Ghost(self@))),
        }
    }
}

/// A copy of a list of namespace bindings.
pub fn copy_bindings(bindings: &Vec<NamespaceBinding>) -> (r: Vec<NamespaceBinding>)
    ensures
        crate::node::bindings_view(r@) == crate::node::bindings_view(bindings@),
{
    let mut r: Vec<NamespaceBinding> = Vec::new();
    let mut i: usize = 0;
    while i < bindings.len()
        invariant
            0 <= i <= bindings.len(),
            r@.len() == i,
            forall|k: int| 0 <= k < i ==> (#[trigger] r@[k])@ == bindings@[k]@,
        decreases bindings.len() - i,
    {
        r.push(bindings[i].duplicate());
        i = i + 1;
    }
    assert(crate::node::bindings_view(r@) =~= crate::node::bindings_view(bindings@));
    r
}

} // verus!
