//! The attributes of elements and the namespaces that elements declare.

use vstd::prelude::*;
use crate::first::{first_from, lemma_first_agrees, lemma_first_found, lemma_first_from};
use crate::arena::NodeArena;
use crate::error::Error;
use crate::forest::Forest;
use crate::name::{Name, NameView};
use crate::node::{Extension, ExtensionView, NamespaceBinding, NodeType, NodeView, RefNode};
use crate::node_impl::{put, NodeImpl};
use crate::search::Query;
use crate::text::{clone_opt_string, str_view};
use crate::traits::Element;
use crate::tree::index_in;

verus! {

/// A binding of a prefix, or of the default namespace, to a namespace.
pub type Binding = (Option<Seq<char>>, Seq<char>);

/// The test that holds of the bindings of `prefix`.
pub open spec fn binds(prefix: Option<Seq<char>>) -> spec_fn(Binding) -> bool {
    |b: Binding| b.0 == prefix
}

/// The first index at or after `from` at which `prefix` is bound in `bindings`, or their
/// number if it is bound nowhere.
pub open spec fn binding_position(bindings: Seq<Binding>, prefix: Option<Seq<char>>, from: int)
    -> int {
    first_from(bindings, binds(prefix), from)
}

/// The bindings with `prefix` bound to `uri`, in the place of the binding it had if it
/// had one.
pub open spec fn bound(bindings: Seq<Binding>, prefix: Option<Seq<char>>, uri: Seq<char>) -> Seq<
    Binding,
> {
    let at = binding_position(bindings, prefix, 0);
    if at < bindings.len() {
        bindings.update(at, (prefix, uri))
    } else {
        bindings.push((prefix, uri))
    }
}

/// The namespace that `prefix` is bound to in `bindings`, if it is bound.
pub open spec fn resolved(bindings: Seq<Binding>, prefix: Option<Seq<char>>) -> Option<Seq<char>> {
    let at = binding_position(bindings, prefix, 0);
    if at < bindings.len() {
        Some(bindings[at].1)
    } else {
        None
    }
}

/// `binding_position` stays within the bindings, lands on a binding of the prefix when
/// it lands inside, and passes none.
pub proof fn lemma_binding_position(bindings: Seq<Binding>, prefix: Option<Seq<char>>, from: int)
    requires
        0 <= from <= bindings.len(),
    ensures
        from <= binding_position(bindings, prefix, from) <= bindings.len(),
        binding_position(bindings, prefix, from) < bindings.len() ==> bindings[binding_position(
            bindings,
            prefix,
            from,
        )].0 == prefix,
        forall|j: int|
            from <= j < binding_position(bindings, prefix, from) ==> bindings[j].0 != prefix,
{
    lemma_first_from(bindings, binds(prefix), from);
}

/// Where a prefix is found does not depend on what lies behind the place.
pub proof fn lemma_binding_position_found(
    bindings: Seq<Binding>,
    prefix: Option<Seq<char>>,
    from: int,
    at: int,
)
    requires
        0 <= from <= at < bindings.len(),
        bindings[at].0 == prefix,
        forall|j: int| from <= j < at ==> bindings[j].0 != prefix,
    ensures
        binding_position(bindings, prefix, from) == at,
{
    lemma_first_found(bindings, binds(prefix), from, at);
}

/// A prefix that has been bound resolves to what it was bound to, and every other prefix
/// resolves as before.
pub proof fn lemma_bound_resolves(
    bindings: Seq<Binding>,
    prefix: Option<Seq<char>>,
    uri: Seq<char>,
    other: Option<Seq<char>>,
)
    ensures
        resolved(bound(bindings, prefix, uri), prefix) == Some(uri),
        other != prefix ==> resolved(bound(bindings, prefix, uri), other) == resolved(
            bindings,
            other,
        ),
{
    let after = bound(bindings, prefix, uri);
    lemma_binding_position(bindings, prefix, 0);
    let at = binding_position(bindings, prefix, 0);
    assert(after[at].0 == prefix);
    lemma_binding_position_found(after, prefix, 0, at);
    if other != prefix {
        lemma_binding_position(bindings, other, 0);
        lemma_binding_position(after, other, 0);
        let was = binding_position(bindings, other, 0);
        let is = binding_position(after, other, 0);
        if was < bindings.len() {
            assert(after[was].0 == other);
            lemma_binding_position_found(after, other, 0, was);
        } else if is < after.len() {
            assert(is < bindings.len());
            assert(bindings[is].0 == other);
        }
    }
}

impl Forest {
    /// The test that holds of the nodes whose name has the key of `key`.
    pub open spec fn has_key(self, key: NameView) -> spec_fn(RefNode) -> bool {
        |a: RefNode| self.node(a).name.same_key(key)
    }

    /// The first index at or after `from` at which an attribute with the key of `key`
    /// stands in `attributes`, or their number if none does.
    pub open spec fn key_position(self, attributes: Seq<RefNode>, key: NameView, from: int) -> int {
        first_from(attributes, self.has_key(key), from)
    }

    /// The attribute of `element` with the key of `name`, if `name` is a name and the
    /// element has such an attribute.
    pub open spec fn attribute_named(self, element: RefNode, name: Result<NameView, Error>)
        -> Option<RefNode> {
        match name {
            Err(_) => None,
            Ok(key) => {
                let attributes = self.node(element).attributes();
                let at = self.key_position(attributes, key, 0);
                if at < attributes.len() {
                    Some(attributes[at])
                } else {
                    None
                }
            },
        }
    }

    /// The value of the attribute of `element` with the key of `name`, if there is one.
    pub open spec fn attribute_value(self, element: RefNode, name: Result<NameView, Error>)
        -> Option<Seq<char>> {
        match self.attribute_named(element, name) {
            None => None,
            Some(a) => self.node(a).value,
        }
    }

    /// The namespace that `prefix` is bound to on `element`, if it is bound there.
    pub open spec fn namespace_of(self, element: RefNode, prefix: Option<Seq<char>>) -> Option<
        Seq<char>,
    > {
        resolved(self.node(element).namespaces(), prefix)
    }

    /// The forest in which `prefix` is bound to `uri` on the element `element`.
    pub open spec fn with_binding(self, element: RefNode, prefix: Option<Seq<char>>, uri: Seq<char>)
        -> Forest {
        self.with_extension(
            element,
            ExtensionView::Element {
                attributes: self.node(element).attributes(),
                namespaces: bound(self.node(element).namespaces(), prefix, uri),
            },
        )
    }

    /// Why `attribute` cannot be given to `element`, if it cannot: one of them is not what
    /// it is taken for, or the attribute declares a namespace and has no value to name it.
    pub open spec fn attribute_error(self, element: RefNode, attribute: RefNode) -> Option<Error> {
        if self.kind(element) != NodeType::Element || self.kind(attribute) != NodeType::Attribute {
            Some(Error::InvalidState)
        } else if self.node(attribute).name.is_namespace_declaration() && self.node(
            attribute,
        ).value is None {
            Some(Error::Namespace)
        } else {
            None
        }
    }

    /// The forest in which `element` has the attribute `attribute`, in the place of the
    /// attribute of the same key if it had one and behind its attributes otherwise, and in
    /// which the prefix is bound on the element that the attribute declares, if it
    /// declares one.
    pub open spec fn set_attribute_node(self, element: RefNode, attribute: RefNode) -> Forest {
        let v = self.node(element);
        let key = self.node(attribute).name;
        let attributes = v.attributes();
        let at = self.key_position(attributes, key, 0);
        let stored = put(attributes, at, attribute);
        let namespaces = if key.is_namespace_declaration() {
            bound(v.namespaces(), key.declared_prefix(), self.node(attribute).value->0)
        } else {
            v.namespaces()
        };
        self.with_extension(element, ExtensionView::Element { attributes: stored, namespaces })
    }

    /// Why `element` cannot be given a new attribute named `name`, if it cannot: `name` is
    /// no name, or `element` is no element.
    pub open spec fn new_attribute_error(self, element: RefNode, name: Result<NameView, Error>)
        -> Option<Error> {
        match name {
            Err(e) => Some(e),
            Ok(_) => if self.kind(element) != NodeType::Element {
                Some(Error::InvalidState)
            } else {
                None
            },
        }
    }

    /// The forest with a new attribute named `name`, with the value `value` and the owner
    /// document of `element`, that has been given to `element`.
    pub open spec fn with_new_attribute(self, element: RefNode, name: NameView, value: Seq<char>)
        -> Forest {
        self.with_new(
            NodeView::detached(
                NodeType::Attribute,
                name,
                Some(value),
                self.node(element).owner_document,
                ExtensionView::Empty,
            ),
        ).set_attribute_node(element, self.next())
    }

    /// The forest in which `element` has no attribute with the key of `name`.
    pub open spec fn without_attribute(self, element: RefNode, name: Result<NameView, Error>)
        -> Forest {
        match name {
            Err(_) => self,
            Ok(key) => {
                let v = self.node(element);
                let at = self.key_position(v.attributes(), key, 0);
                if at < v.attributes().len() {
                    self.with_extension(
                        element,
                        ExtensionView::Element {
                            attributes: v.attributes().remove(at),
                            namespaces: v.namespaces(),
                        },
                    )
                } else {
                    self
                }
            },
        }
    }

    /// The forest in which `attribute` is no attribute of `element`.
    pub open spec fn without_attribute_node(self, element: RefNode, attribute: RefNode) -> Forest {
        let v = self.node(element);
        let at = crate::forest::position(v.attributes(), attribute);
        if at < v.attributes().len() {
            self.with_extension(
                element,
                ExtensionView::Element {
                    attributes: v.attributes().remove(at),
                    namespaces: v.namespaces(),
                },
            )
        } else {
            self
        }
    }

    /// `key_position` stays within the attributes, lands on an attribute of the key when
    /// it lands inside, and passes none.
    pub proof fn lemma_key_position(self, attributes: Seq<RefNode>, key: NameView, from: int)
        requires
            0 <= from <= attributes.len(),
        ensures
            from <= self.key_position(attributes, key, from) <= attributes.len(),
            self.key_position(attributes, key, from) < attributes.len() ==> self.node(
                attributes[self.key_position(attributes, key, from)],
            ).name.same_key(key),
            forall|j: int|
                from <= j < self.key_position(attributes, key, from) ==> !self.node(
                    attributes[j],
                ).name.same_key(key),
    {
        lemma_first_from(attributes, self.has_key(key), from);
    }

    /// Giving an element an attribute keeps the forest well formed.
    #[verifier::rlimit(40)]
    pub proof fn lemma_set_attribute_node(self, element: RefNode, attribute: RefNode)
        requires
            self.wf(),
            self.contains(element),
            self.contains(attribute),
            self.kind(element) == NodeType::Element,
            self.kind(attribute) == NodeType::Attribute,
        ensures
            self.set_attribute_node(element, attribute).wf(),
    {
        let v = self.node(element);
        let key = self.node(attribute).name;
        let attributes = v.attributes();
        let at = self.key_position(attributes, key, 0);
        self.lemma_key_position(attributes, key, 0);
        assert(self.node_wf(element));
        let g = self.set_attribute_node(element, attribute);
        let stored = g.node(element).attributes();
        assert(stored == put(attributes, at, attribute));
        self.lemma_put_keeps_keys(g, attributes, attribute);
        self.lemma_put_keeps_kind(attributes, at, attribute, NodeType::Attribute);
        assert forall|k: int| 0 <= k < stored.len() implies g.contains(#[trigger] stored[k])
            && g.kind(stored[k]) == NodeType::Attribute by {
            assert(self.contains(stored[k]) && self.kind(stored[k]) == NodeType::Attribute);
        }
        self.lemma_with_extension(element, g.node(element).extension);
    }

    /// Taking the attribute that stands at `at` from an element keeps the forest well
    /// formed.
    #[verifier::rlimit(40)]
    pub proof fn lemma_remove_attribute(self, element: RefNode, at: int)
        requires
            self.wf(),
            self.contains(element),
            0 <= at < self.node(element).attributes().len(),
        ensures
            self.with_extension(
                element,
                ExtensionView::Element {
                    attributes: self.node(element).attributes().remove(at),
                    namespaces: self.node(element).namespaces(),
                },
            ).wf(),
    {
        let v = self.node(element);
        let attributes = v.attributes();
        assert(self.node_wf(element));
        let ext = ExtensionView::Element {
            attributes: attributes.remove(at),
            namespaces: v.namespaces(),
        };
        let g = self.with_extension(element, ext);
        let left = attributes.remove(at);
        assert forall|i: int, j: int| 0 <= i < j < left.len() implies !g.node(
            #[trigger] left[i],
        ).name.same_key(g.node(#[trigger] left[j]).name) by {
            let a = if i < at { i } else { i + 1 };
            let b = if j < at { j } else { j + 1 };
            assert(left[i] == attributes[a] && left[j] == attributes[b]);
        }
        assert forall|k: int| 0 <= k < left.len() implies g.contains(#[trigger] left[k]) && g.kind(
            left[k],
        ) == NodeType::Attribute by {
            let a = if k < at { k } else { k + 1 };
            assert(left[k] == attributes[a]);
        }
        self.lemma_with_extension(element, ext);
    }
}

/// An attribute that declares a namespace binds its prefix on the element it is given to:
/// from then on the prefix resolves to the value of the attribute there.
pub proof fn lemma_declaration_binds(f: Forest, element: RefNode, attribute: RefNode)
    requires
        f.wf(),
        f.contains(element),
        f.contains(attribute),
        f.attribute_error(element, attribute) is None,
        f.node(attribute).name.is_namespace_declaration(),
    ensures
        f.set_attribute_node(element, attribute).namespace_of(
            element,
            f.node(attribute).name.declared_prefix(),
        ) == f.node(attribute).value,
{
    assert(f.node_wf(element));
    lemma_bound_resolves(
        f.node(element).namespaces(),
        f.node(attribute).name.declared_prefix(),
        f.node(attribute).value->0,
        None,
    );
}

/// An attribute that has been given to an element is the attribute of its name there.
pub proof fn lemma_attribute_is_found(f: Forest, element: RefNode, attribute: RefNode)
    requires
        f.wf(),
        f.contains(element),
        f.contains(attribute),
        f.attribute_error(element, attribute) is None,
        element != attribute,
    ensures
        f.set_attribute_node(element, attribute).attribute_named(
            element,
            Ok(f.node(attribute).name),
        ) == Some(attribute),
{
    let g = f.set_attribute_node(element, attribute);
    let key = f.node(attribute).name;
    let attributes = f.node(element).attributes();
    let stored = g.node(element).attributes();
    assert(f.node_wf(element));
    f.lemma_key_position(attributes, key, 0);
    let at = f.key_position(attributes, key, 0);
    assert(stored[at] == attribute);
    assert forall|j: int| 0 <= j < at implies !g.node(stored[j]).name.same_key(key) by {
        assert(stored[j] == attributes[j]);
        assert(g.node(stored[j]).name == f.node(attributes[j]).name);
    }
    g.lemma_key_position_found(stored, key, 0, at);
}

impl Forest {
    /// Where a key is found does not depend on what lies behind the place.
    pub proof fn lemma_key_position_found(
        self,
        attributes: Seq<RefNode>,
        key: NameView,
        from: int,
        at: int,
    )
        requires
            0 <= from <= at < attributes.len(),
            self.node(attributes[at]).name.same_key(key),
            forall|j: int| from <= j < at ==> !self.node(attributes[j]).name.same_key(key),
        ensures
            self.key_position(attributes, key, from) == at,
    {
        lemma_first_found(attributes, self.has_key(key), from, at);
    }
}

impl NodeArena {
    /// The attribute of `element` with the key of `key`, if it has one.
    pub fn attribute_by_key(&self, element: RefNode, key: &Name) -> (r: Option<RefNode>)
        requires
            self@.wf(),
            self@.contains(element),
        ensures
            r == self@.attribute_named(element, Ok(key@)),
            self@.contains_opt(r),
    {
        let at = self.attribute_index(element, key);
        proof {
            assert(self@.node_wf(element));
        }
        match self.record(element).extension() {
            Extension::Element { i_attributes, .. } => {
                if at < i_attributes.len() {
                    Some(i_attributes[at])
                } else {
                    None
                }
            },
            _ => None,
        }
    }

    /// The value of the attribute of `element` with the key of `key`, if there is one.
    pub fn attribute_value_by_key(&self, element: RefNode, key: &Name) -> (r: Option<String>)
        requires
            self@.wf(),
            self@.contains(element),
        ensures
            crate::text::opt_view(r) == self@.attribute_value(element, Ok(key@)),
    {
        match self.attribute_by_key(element, key) {
            None => None,
            Some(a) => clone_opt_string(self.record(a).value()),
        }
    }

    /// Takes the attribute with the key of `key` from `element`, if it has one.
    pub fn remove_attribute_by_key(&mut self, element: RefNode, key: &Name)
        requires
            old(self)@.wf(),
            old(self)@.contains(element),
        ensures
            final(self)@.wf(),
            final(self)@ == old(self)@.without_attribute(element, Ok(key@)),
    {
        let at = self.attribute_index(element, key);
        let count = match self.record(element).extension() {
            Extension::Element { i_attributes, .. } => i_attributes.len(),
            _ => 0,
        };
        if at < count {
            proof {
                self@.lemma_remove_attribute(element, at as int);
            }
            self.remove_attribute_of(element, at);
        }
    }

    /// Binds `prefix`, or the default namespace where no prefix is given, to `uri` on the
    /// element `element`, in the place of the binding that it had if it had one.
    pub fn bind_namespace(&mut self, element: RefNode, prefix: Option<&str>, uri: &str) -> (r:
        Result<(), Error>)
        requires
            old(self)@.wf(),
            old(self)@.contains(element),
        ensures
            final(self)@.wf(),
            r is Ok <==> old(self)@.kind(element) == NodeType::Element,
            r is Ok ==> final(self)@ == old(self)@.with_binding(element, str_view(prefix), uri@),
            r matches Err(e) ==> e == Error::InvalidState && final(self)@ == old(self)@,
    {
        if self.record(element).node_type() != NodeType::Element {
            return Err(Error::InvalidState);
        }
        proof {
            assert(self@.node_wf(element));
            let g = self@.with_binding(element, str_view(prefix), uri@);
            assert(g.extension_wf(element));
            self@.lemma_with_extension(element, g.node(element).extension);
        }
        let at = self.binding_index(element, prefix);
        let count = match self.record(element).extension() {
            Extension::Element { i_namespaces, .. } => i_namespaces.len(),
            _ => 0,
        };
        let binding = NamespaceBinding::new(prefix, uri);
        if at < count {
            self.set_binding_of(element, at, binding);
        } else {
            self.push_binding_of(element, binding);
        }
        Ok(())
    }

    /// The first index at which `prefix` is bound among the bindings of `element`, or
    /// their number if it is bound nowhere.
    pub fn binding_index(&self, element: RefNode, prefix: Option<&str>) -> (r: usize)
        requires
            self@.contains(element),
        ensures
            r == binding_position(self@.node(element).namespaces(), str_view(prefix), 0),
            r <= self@.node(element).namespaces().len(),
    {
        let ghost wanted = str_view(prefix);
        proof {
            lemma_binding_position(self@.node(element).namespaces(), wanted, 0);
        }
        match self.record(element).extension() {
            Extension::Element { i_namespaces, .. } => {
                let ghost bindings = self@.node(element).namespaces();
                let mut i: usize = 0;
                while i < i_namespaces.len()
                    invariant
                        bindings == crate::node::bindings_view(i_namespaces@),
                        bindings == self@.node(element).namespaces(),
                        wanted == str_view(prefix),
                        0 <= i <= i_namespaces.len(),
                        binding_position(bindings, wanted, 0) == binding_position(
                            bindings,
                            wanted,
                            i as int,
                        ),
                    decreases i_namespaces.len() - i,
                {
                    if i_namespaces[i].binds(prefix) {
                        return i;
                    }
                    i = i + 1;
                }
                i
            },
            _ => 0,
        }
    }

    /// Gives `element` the attribute `attribute`, which nothing forbids.
    #[verifier::rlimit(40)]
    pub(crate) fn store_attribute(&mut self, element: RefNode, attribute: RefNode)
        requires
            old(self)@.wf(),
            old(self)@.contains(element),
            old(self)@.contains(attribute),
            old(self)@.attribute_error(element, attribute) is None,
        ensures
            final(self)@.wf(),
            final(self)@ == old(self)@.set_attribute_node(element, attribute),
    {
        proof {
            self@.lemma_set_attribute_node(element, attribute);
            assert(self@.node_wf(element));
        }
        let name = self.record(attribute).name().clone();
        if name.is_namespace_declaration() {
            let uri = match self.record(attribute).value() {
                Some(v) => v.clone(),
                None => String::new(),
            };
            let _ = match name.prefix() {
                None => self.bind_namespace(element, None, uri.as_str()),
                Some(_) => {
                    let declared = name.local_name();
                    self.bind_namespace(element, Some(declared.as_str()), uri.as_str())
                },
            };
        } else {
            assert(old(self)@.nodes =~= old(self)@.with_extension(
                element,
                old(self)@.node(element).extension,
            ).nodes);
        }
        let ghost mid = self@;
        assert(self@.node(element).attributes() == old(self)@.node(element).attributes());
        assert(forall|n: RefNode|
            old(self)@.contains(n) ==> (#[trigger] mid.node(n)).name == old(self)@.node(n).name);
        proof {
            old(self)@.lemma_same_keys(mid, old(self)@.node(element).attributes(), name@, 0);
        }
        let at = self.attribute_index(element, &name);
        let count = match self.record(element).extension() {
            Extension::Element { i_attributes, .. } => i_attributes.len(),
            _ => 0,
        };
        if at < count {
            self.set_attribute_of(element, at, attribute);
        } else {
            self.push_attribute_of(element, attribute);
        }
        assert(self@.nodes =~= old(self)@.set_attribute_node(element, attribute).nodes);
    }

    /// The first index at which an attribute with the key of `key` stands among the
    /// attributes of `element`, or their number if none does.
    pub fn attribute_index(&self, element: RefNode, key: &Name) -> (r: usize)
        requires
            self@.wf(),
            self@.contains(element),
        ensures
            r == self@.key_position(self@.node(element).attributes(), key@, 0),
            r <= self@.node(element).attributes().len(),
    {
        proof {
            assert(self@.node_wf(element));
        }
        match self.record(element).extension() {
            Extension::Element { i_attributes, .. } => self.key_index(i_attributes, key),
            _ => 0,
        }
    }
}

impl Forest {
    /// Where a key is found among attributes depends on the names of the nodes only.
    pub proof fn lemma_same_keys(self, g: Forest, attributes: Seq<RefNode>, key: NameView, from: int)
        requires
            0 <= from,
            forall|k: int|
                0 <= k < attributes.len() ==> self.contains(#[trigger] attributes[k]),
            forall|n: RefNode| self.contains(n) ==> (#[trigger] g.node(n)).name == self.node(n).name,
        ensures
            g.key_position(attributes, key, from) == self.key_position(attributes, key, from),
    {
        assert forall|j: int| 0 <= j < attributes.len() implies self.has_key(key)(
            #[trigger] attributes[j],
        ) == g.has_key(key)(attributes[j]) by {
            assert(self.contains(attributes[j]));
        }
        lemma_first_agrees(attributes, self.has_key(key), g.has_key(key), from);
    }
}

impl Element for NodeArena {
    fn get_attribute(&self, element: RefNode, name: &str) -> (r: Option<String>) {
        match Name::parse(name) {
            Err(_) => None,
            Ok(key) => self.attribute_value_by_key(element, &key),
        }
    }

    fn set_attribute(&mut self, element: RefNode, name: &str, value: &str) -> (r: Result<(), Error>) {
        match Name::parse(name) {
            Err(e) => Err(e),
            Ok(key) => self.add_attribute(element, key, value),
        }
    }

    fn remove_attribute(&mut self, element: RefNode, name: &str) -> (r: Result<(), Error>) {
        match Name::parse(name) {
            Err(_) => {},
            Ok(key) => {
                self.remove_attribute_by_key(element, &key);
            },
        }
        Ok(())
    }

    fn get_attribute_node(&self, element: RefNode, name: &str) -> (r: Option<RefNode>) {
        match Name::parse(name) {
            Err(_) => None,
            Ok(key) => self.attribute_by_key(element, &key),
        }
    }

    fn set_attribute_node(&mut self, element: RefNode, new_attribute: RefNode) -> (r: Result<
        RefNode,
        Error,
    >) {
        if self.record(element).node_type() != NodeType::Element || self.record(
            new_attribute,
        ).node_type() != NodeType::Attribute {
            return Err(Error::InvalidState);
        }
        if self.record(new_attribute).name().is_namespace_declaration() && self.record(
            new_attribute,
        ).value().is_none() {
            return Err(Error::Namespace);
        }
        self.store_attribute(element, new_attribute);
        Ok(new_attribute)
    }

    fn remove_attribute_node(&mut self, element: RefNode, old_attribute: RefNode) -> (r: Result<
        RefNode,
        Error,
    >) {
        proof {
            assert(self@.node_wf(element));
        }
        let at = match self.record(element).extension() {
            Extension::Element { i_attributes, .. } => {
                let at = index_in(i_attributes, old_attribute);
                if at == i_attributes.len() {
                    return Err(Error::NotFound);
                }
                at
            },
            _ => {
                return Err(Error::InvalidState);
            },
        };
        proof {
            self@.lemma_remove_attribute(element, at as int);
        }
        self.remove_attribute_of(element, at);
        Ok(old_attribute)
    }

    fn get_elements_by_tag_name(&self, element: RefNode, tag_name: &str) -> (r: Vec<RefNode>) {
        self.find(element, &Query::Tag(tag_name.to_owned()))
    }

    fn get_attribute_ns(&self, element: RefNode, namespace_uri: &str, local_name: &str) -> (r:
        Option<String>) {
        match Name::from_namespace(namespace_uri, local_name) {
            Err(_) => None,
            Ok(key) => self.attribute_value_by_key(element, &key),
        }
    }

    fn set_attribute_ns(
        &mut self,
        element: RefNode,
        namespace_uri: &str,
        qualified_name: &str,
        value: &str,
    ) -> (r: Result<(), Error>) {
        match Name::from_namespace(namespace_uri, qualified_name) {
            Err(e) => Err(e),
            Ok(key) => self.add_attribute(element, key, value),
        }
    }

    fn remove_attribute_ns(&mut self, element: RefNode, namespace_uri: &str, local_name: &str) -> (r:
        Result<(), Error>) {
        match Name::from_namespace(namespace_uri, local_name) {
            Err(_) => {},
            Ok(key) => {
                self.remove_attribute_by_key(element, &key);
            },
        }
        Ok(())
    }

    fn get_attribute_node_ns(&self, element: RefNode, namespace_uri: &str, local_name: &str) -> (r:
        Option<RefNode>) {
        match Name::from_namespace(namespace_uri, local_name) {
            Err(_) => None,
            Ok(key) => self.attribute_by_key(element, &key),
        }
    }

    fn set_attribute_node_ns(&mut self, element: RefNode, new_attribute: RefNode) -> (r: Result<
        RefNode,
        Error,
    >) {
        self.set_attribute_node(element, new_attribute)
    }

    fn get_elements_by_tag_name_ns(&self, element: RefNode, namespace_uri: &str, local_name: &str)
        -> (r: Vec<RefNode>) {
        self.find(element, &Query::Namespaced(namespace_uri.to_owned(), local_name.to_owned()))
    }

    fn has_attribute(&self, element: RefNode, name: &str) -> (r: bool) {
        match Name::parse(name) {
            Err(_) => false,
            Ok(key) => self.attribute_by_key(element, &key).is_some(),
        }
    }

    fn has_attribute_ns(&self, element: RefNode, namespace_uri: &str, local_name: &str) -> (r: bool) {
        match Name::from_namespace(namespace_uri, local_name) {
            Err(_) => false,
            Ok(key) => self.attribute_by_key(element, &key).is_some(),
        }
    }

    fn lookup_namespace_uri(&self, element: RefNode, prefix: Option<&str>) -> (r: Option<String>) {
        let at = self.binding_index(element, prefix);
        match self.record(element).extension() {
            Extension::Element { i_namespaces, .. } => {
                if at < i_namespaces.len() {
                    Some(i_namespaces[at].uri())
                } else {
                    None
                }
            },
            _ => None,
        }
    }
}

impl NodeArena {
    /// Makes an attribute named `key` with the value `value` and gives it to `element`.
    pub(crate) fn add_attribute(&mut self, element: RefNode, key: Name, value: &str) -> (r: Result<
        (),
        Error,
    >)
        requires
            old(self)@.wf(),
            old(self)@.contains(element),
        ensures
            final(self)@.wf(),
            r is Ok <==> old(self)@.kind(element) == NodeType::Element,
            r is Ok ==> final(self)@ == old(self)@.with_new_attribute(element, key@, value@),
            r matches Err(e) ==> e == Error::InvalidState && final(self)@ == old(self)@,
    {
        if self.record(element).node_type() != NodeType::Element {
            return Err(Error::InvalidState);
        }
        proof {
            assert(self@.node_wf(element));
        }
        let owner = self.record(element).owner_document();
        let node = NodeImpl::new(
            NodeType::Attribute,
            key,
            Some(value.to_owned()),
            owner,
            Extension::Empty,
        );
        let attribute = self.create(node);
        self.store_attribute(element, attribute);
        Ok(())
    }
}

} // verus!
