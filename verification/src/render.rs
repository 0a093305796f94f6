//! The text of a node: how a node and what is below it is written in markup.

use vstd::prelude::*;
use crate::arena::NodeArena;
use crate::forest::Forest;
use crate::node::{Extension, ExtensionView, NodeType, RefNode};
use crate::text::opt_view;

verus! {

/// `text`, or the empty sequence where there is none.
pub open spec fn or_empty(text: Option<Seq<char>>) -> Seq<char> {
    match text {
        Some(t) => t,
        None => Seq::empty(),
    }
}

/// The identifier `id` between quotation marks, behind `label`; nothing where there is no
/// identifier.
pub open spec fn quoted(label: Seq<char>, id: Option<Seq<char>>) -> Seq<char> {
    match id {
        Some(id) => label + id + "\""@,
        None => Seq::empty(),
    }
}

/// Adds the identifier `id` to `out`, between quotation marks and behind `label`, if there
/// is one.
fn write_quoted(label: &str, id: &Option<String>, out: &mut String)
    ensures
        final(out)@ == old(out)@ + quoted(label@, opt_view(*id)),
{
    match id {
        Some(id) => {
            out.append(label);
            out.append(id.as_str());
            out.append("\"");
            assert(out@ =~= old(out)@ + quoted(label@, Some(id@)));
        },
        None => {
            assert(out@ =~= old(out)@ + Seq::<char>::empty());
        },
    }
}

impl Forest {
    /// 1 for a document and 0 for any other node: a document is written before what it
    /// holds, and holds no document.
    pub open spec fn tier(self, n: RefNode) -> nat {
        if self.kind(n) == NodeType::Document {
            1
        } else {
            0
        }
    }

    /// The text of the attribute `a`: its name, and its value between quotation marks.
    pub open spec fn attribute_text(self, a: RefNode) -> Seq<char> {
        self.node(a).name.qualified() + "=\""@ + or_empty(self.node(a).value) + "\""@
    }

    /// The texts of the attributes that stand at `from` and behind it, each after a space.
    pub open spec fn attributes_text(self, attributes: Seq<RefNode>, from: int) -> Seq<char>
        decreases attributes.len() - from,
    {
        if from < 0 || from >= attributes.len() {
            Seq::empty()
        } else {
            " "@ + self.attribute_text(attributes[from]) + self.attributes_text(
                attributes,
                from + 1,
            )
        }
    }

    /// The text of the document type `n`: its name, and the identifiers that it has.
    pub open spec fn doctype_text(self, n: RefNode) -> Seq<char> {
        let ids = match self.node(n).extension {
            ExtensionView::DocumentType { public_id, system_id, .. } => (public_id, system_id),
            _ => (None, None),
        };
        "<!DOCTYPE"@ + " "@ + self.node(n).name.qualified() + quoted(" PUBLIC \""@, ids.0) + quoted(
            " SYSTEM \""@,
            ids.1,
        ) + ">"@
    }

    /// The text of the node `n`.
    ///
    /// An element is written as its start tag with its attributes, the texts of its
    /// children, and its end tag; an attribute as its name and its value; text as it is;
    /// a section of character data, a comment and a processing instruction between their
    /// marks; a document as its document type, its children and its element. A node of
    /// another kind has no text, nor has character data that is not there.
    pub open spec fn text(self, n: RefNode) -> Seq<char>
        decreases self.tier(n), self.height(n), self.node(n).children.len() + 1,
        when self.wf() && self.contains(n)
    {
        let v = self.node(n);
        match v.node_type {
            NodeType::Element => "<"@ + v.name.qualified() + self.attributes_text(
                v.attributes(),
                0,
            ) + ">"@ + self.children_text(n, 0) + "</"@ + v.name.qualified() + ">"@,
            NodeType::Attribute => self.attribute_text(n),
            NodeType::Text => or_empty(v.value),
            NodeType::CData => match v.value {
                None => Seq::empty(),
                Some(data) => "<![CDATA["@ + " "@ + data + " "@ + "]]>"@,
            },
            NodeType::ProcessingInstruction => match v.value {
                None => "<?"@ + v.name.qualified() + "?>"@,
                Some(data) => "<?"@ + v.name.qualified() + " "@ + data + "?>"@,
            },
            NodeType::Comment => match v.value {
                None => Seq::empty(),
                Some(data) => "<!--"@ + data + "-->"@,
            },
            NodeType::Document => {
                let doc_type = match self.slot(n, NodeType::DocumentType) {
                    None => Seq::empty(),
                    Some(t) => {
                        proof {
                            assert(self.node_wf(n));
                        }
                        self.text(t)
                    },
                };
                let element = match self.slot(n, NodeType::Element) {
                    None => Seq::empty(),
                    Some(e) => {
                        proof {
                            assert(self.node_wf(n));
                        }
                        self.text(e)
                    },
                };
                doc_type + self.children_text(n, 0) + element
            },
            NodeType::DocumentType => self.doctype_text(n),
            _ => Seq::empty(),
        }
    }

    /// The texts of the children of `n` that stand at `from` and behind it, one after the
    /// other.
    pub open spec fn children_text(self, n: RefNode, from: int) -> Seq<char>
        decreases self.tier(n), self.height(n), self.node(n).children.len() - from,
        when self.wf() && self.contains(n) && 0 <= from
    {
        if from >= self.node(n).children.len() {
            Seq::empty()
        } else {
            proof {
                self.lemma_child_tier(n, from);
            }
            self.text(self.node(n).children[from]) + self.children_text(n, from + 1)
        }
    }

    /// A child is lower than its parent, and is no document.
    pub proof fn lemma_child_tier(self, n: RefNode, k: int)
        requires
            self.wf(),
            self.contains(n),
            0 <= k < self.node(n).children.len(),
        ensures
            self.contains(self.node(n).children[k]),
            self.height(self.node(n).children[k]) < self.height(n),
            self.tier(self.node(n).children[k]) == 0,
    {
        self.lemma_child_height(n, k);
        assert(self.node_wf(n));
        assert(self.node_wf(self.node(n).children[k]));
    }
}

impl NodeArena {
    /// Adds the text of the attribute `a` to `out`.
    fn write_attribute(&self, a: RefNode, out: &mut String)
        requires
            self@.contains(a),
        ensures
            final(out)@ == old(out)@ + self@.attribute_text(a),
    {
        let record = self.record(a);
        let name = record.name().to_string();
        out.append(name.as_str());
        out.append("=\"");
        match record.value() {
            Some(value) => out.append(value.as_str()),
            None => {},
        }
        out.append("\"");
        assert(out@ =~= old(out)@ + self@.attribute_text(a));
    }

    /// Adds the text of the document type `n` to `out`.
    #[verifier::rlimit(40)]
    fn write_doctype(&self, n: RefNode, out: &mut String)
        requires
            self@.contains(n),
        ensures
            final(out)@ == old(out)@ + self@.doctype_text(n),
    {
        let record = self.record(n);
        let name = record.name().to_string();
        out.append("<!DOCTYPE");
        out.append(" ");
        out.append(name.as_str());
        let ghost head = out@;
        assert(head =~= old(out)@ + ("<!DOCTYPE"@ + " "@ + self@.node(n).name.qualified()));
        match record.extension() {
            Extension::DocumentType { i_public_id, i_system_id, .. } => {
                write_quoted(" PUBLIC \"", i_public_id, out);
                write_quoted(" SYSTEM \"", i_system_id, out);
            },
            _ => {
                assert(out@ =~= head + quoted(" PUBLIC \""@, None) + quoted(" SYSTEM \""@, None));
            },
        }
        out.append(">");
        assert(out@ =~= old(out)@ + self@.doctype_text(n));
    }

    /// Adds the texts of the attributes of the element `n` to `out`, each after a space.
    #[verifier::rlimit(40)]
    fn write_attributes(&self, n: RefNode, out: &mut String)
        requires
            self@.wf(),
            self@.contains(n),
        ensures
            final(out)@ == old(out)@ + self@.attributes_text(self@.node(n).attributes(), 0),
    {
        let ghost start = out@;
        proof {
            assert(self@.node_wf(n));
        }
        match self.record(n).extension() {
            Extension::Element { i_attributes, .. } => {
                let mut i: usize = 0;
                while i < i_attributes.len()
                    invariant
                        self@.wf(),
                        self@.contains(n),
                        i_attributes@ == self@.node(n).attributes(),
                        self@.node(n).extension is Element,
                        0 <= i <= i_attributes.len(),
                        out@ + self@.attributes_text(i_attributes@, i as int) == start
                            + self@.attributes_text(i_attributes@, 0),
                    decreases i_attributes.len() - i,
                {
                    let ghost so_far = out@;
                    proof {
                        assert(self@.node_wf(n));
                        assert(self@.contains(i_attributes@[i as int]));
                    }
                    out.append(" ");
                    self.write_attribute(i_attributes[i], out);
                    assert(out@ + self@.attributes_text(i_attributes@, i + 1) =~= so_far
                        + self@.attributes_text(i_attributes@, i as int));
                    i = i + 1;
                }
                assert(out@ =~= start + self@.attributes_text(i_attributes@, 0));
            },
            _ => {
                assert(out@ =~= start + self@.attributes_text(Seq::empty(), 0));
            },
        }
    }

    /// Adds the text of `n`, which is neither an element nor a document, to `out`.
    #[verifier::rlimit(40)]
    fn write_leaf(&self, n: RefNode, out: &mut String)
        requires
            self@.wf(),
            self@.contains(n),
            self@.kind(n) != NodeType::Element,
            self@.kind(n) != NodeType::Document,
        ensures
            final(out)@ == old(out)@ + self@.text(n),
    {
        let record = self.record(n);
        let ghost before = out@;
        match record.node_type() {
            NodeType::Attribute => {
                self.write_attribute(n, out);
            },
            NodeType::Text => {
                match record.value() {
                    Some(data) => out.append(data.as_str()),
                    None => {},
                }
                assert(out@ =~= before + self@.text(n));
            },
            NodeType::CData => {
                match record.value() {
                    Some(data) => {
                        out.append("<![CDATA[");
                        out.append(" ");
                        out.append(data.as_str());
                        out.append(" ");
                        out.append("]]>");
                    },
                    None => {},
                }
                assert(out@ =~= before + self@.text(n));
            },
            NodeType::ProcessingInstruction => {
                let name = record.name().to_string();
                out.append("<?");
                out.append(name.as_str());
                match record.value() {
                    Some(data) => {
                        out.append(" ");
                        out.append(data.as_str());
                    },
                    None => {},
                }
                out.append("?>");
                assert(out@ =~= before + self@.text(n));
            },
            NodeType::Comment => {
                match record.value() {
                    Some(data) => {
                        out.append("<!--");
                        out.append(data.as_str());
                        out.append("-->");
                    },
                    None => {},
                }
                assert(out@ =~= before + self@.text(n));
            },
            NodeType::DocumentType => {
                self.write_doctype(n, out);
            },
            _ => {
                assert(out@ =~= before + self@.text(n));
            },
        }
    }

    /// Adds the text of the element `n` to `out`.
    #[verifier::rlimit(40)]
    fn write_element(&self, n: RefNode, out: &mut String)
        requires
            self@.wf(),
            self@.contains(n),
            self@.kind(n) == NodeType::Element,
        ensures
            final(out)@ == old(out)@ + self@.text(n),
        decreases self@.tier(n), self@.height(n), 1nat,
    {
        let ghost before = out@;
        let name = self.record(n).name().to_string();
        out.append("<");
        out.append(name.as_str());
        self.write_attributes(n, out);
        out.append(">");
        self.write_children(n, out);
        out.append("</");
        out.append(name.as_str());
        out.append(">");
        assert(out@ =~= before + self@.text(n));
    }

    /// Adds the text of the document `n` to `out`.
    fn write_document(&self, n: RefNode, out: &mut String)
        requires
            self@.wf(),
            self@.contains(n),
            self@.kind(n) == NodeType::Document,
        ensures
            final(out)@ == old(out)@ + self@.text(n),
        decreases self@.tier(n), self@.height(n), 1nat,
    {
        let ghost before = out@;
        proof {
            assert(self@.node_wf(n));
        }
        match self.record(n).extension() {
            Extension::Document { i_document_element, i_document_type } => {
                match i_document_type {
                    Some(t) => self.write(*t, out),
                    None => {},
                }
                self.write_children(n, out);
                match i_document_element {
                    Some(e) => self.write(*e, out),
                    None => {},
                }
            },
            _ => {},
        }
        assert(out@ =~= before + self@.text(n));
    }

    /// Adds the text of the node `n` to `out`.
    pub fn write(&self, n: RefNode, out: &mut String)
        requires
            self@.wf(),
            self@.contains(n),
        ensures
            final(out)@ == old(out)@ + self@.text(n),
        decreases self@.tier(n), self@.height(n), 2nat,
    {
        match self.record(n).node_type() {
            NodeType::Element => self.write_element(n, out),
            NodeType::Document => self.write_document(n, out),
            _ => self.write_leaf(n, out),
        }
    }

    /// Adds the texts of the children of `n` to `out`, one after the other.
    pub fn write_children(&self, n: RefNode, out: &mut String)
        requires
            self@.wf(),
            self@.contains(n),
        ensures
            final(out)@ == old(out)@ + self@.children_text(n, 0),
        decreases self@.tier(n), self@.height(n), 0nat,
    {
        let kids = self.record(n).child_nodes();
        let ghost before = out@;
        let mut k: usize = 0;
        while k < kids.len()
            invariant
                self@.wf(),
                self@.contains(n),
                kids@ == self@.node(n).children,
                0 <= k <= kids.len(),
                out@ + self@.children_text(n, k as int) == before + self@.children_text(n, 0),
            decreases kids.len() - k,
        {
            let ghost so_far = out@;
            proof {
                self@.lemma_child_tier(n, k as int);
            }
            self.write(kids[k], out);
            assert(out@ + self@.children_text(n, k + 1) =~= so_far + self@.children_text(
                n,
                k as int,
            ));
            k = k + 1;
        }
        assert(out@ =~= before + self@.children_text(n, 0));
    }

    /// The text of the node `n`: the node and what is below it as written in markup.
    pub fn to_string(&self, n: RefNode) -> (r: String)
        requires
            self@.wf(),
            self@.contains(n),
        ensures
            r@ == self@.text(n),
    {
        let mut out = String::new();
        self.write(n, &mut out);
        assert(out@ =~= self@.text(n));
        out
    }
}

} // verus!
