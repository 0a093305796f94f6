//! Character data: what its operations compute on data, which they measure in the bytes of
//! its UTF-8 form, and the operations themselves.

use vstd::prelude::*;
use vstd::utf8::encode_utf8;
use crate::arena::NodeArena;
use crate::error::Error;
use crate::forest::{lemma_position_from, position, Forest};
use crate::node::{ExtensionView, NodeType, NodeView, RefNode};
use crate::node_impl::NodeImpl;
use crate::bytes::{
    byte_len, byte_range, can_cut, is_cut, lemma_byte_range, lemma_cut_parts, lemma_encode_concat,
    lemma_ends, slice_bytes,
};
use crate::traits::{Attribute, CDataSection, CharacterData, Comment, ProcessingInstruction, Text};
use crate::tree::index_in;

verus! {

/// The number of bytes of `value`; 0 where there is none.
pub open spec fn data_length(value: Option<Seq<char>>) -> nat {
    match value {
        None => 0,
        Some(s) => encode_utf8(s).len(),
    }
}

/// Where a range of `count` bytes that begins at `offset` ends in data of `len` bytes: at
/// its own end, or at the end of the data if that comes first.
pub open spec fn range_end(len: int, offset: int, count: int) -> int {
    if offset + count >= len {
        len
    } else {
        offset + count
    }
}

/// Whether the range of `count` bytes that begins at `offset` can be taken from the data
/// `s`: it begins within the data, and the data can be cut where it begins and where it
/// ends.
pub open spec fn range_fits(s: Seq<char>, offset: int, count: int) -> bool {
    let b = encode_utf8(s);
    &&& offset < b.len()
    &&& can_cut(b, offset)
    &&& can_cut(b, range_end(b.len() as int, offset, count))
}

/// The `count` bytes of `value` that begin at `offset`, or as many as there are. A `count`
/// of 0 gives the empty sequence whatever the offset; otherwise the range must fit.
pub open spec fn substring_of(value: Option<Seq<char>>, offset: int, count: int) -> Result<
    Seq<char>,
    Error,
> {
    if count == 0 {
        Ok(Seq::empty())
    } else {
        match value {
            None => Err(Error::IndexSize),
            Some(s) => if range_fits(s, offset, count) {
                Ok(byte_range(s, offset, range_end(encode_utf8(s).len() as int, offset, count)))
            } else {
                Err(Error::IndexSize)
            },
        }
    }
}

/// `value` with `data` in the place of the `count` bytes that begin at `offset`, or of as
/// many as there are. Where there is no value, only the empty range at 0 can be replaced;
/// otherwise the range must fit.
pub open spec fn replaced(value: Option<Seq<char>>, offset: int, count: int, data: Seq<char>)
    -> Result<Seq<char>, Error> {
    match value {
        None => if offset + count == 0 {
            Ok(data)
        } else {
            Err(Error::IndexSize)
        },
        Some(s) => if range_fits(s, offset, count) {
            let len = encode_utf8(s).len() as int;
            Ok(byte_range(s, 0, offset) + data + byte_range(s, range_end(len, offset, count), len))
        } else {
            Err(Error::IndexSize)
        },
    }
}

/// `value` with `data` behind it. Empty `data` changes nothing.
pub open spec fn appended(value: Option<Seq<char>>, data: Seq<char>) -> Option<Seq<char>> {
    if data.len() == 0 {
        value
    } else {
        match value {
            None => Some(data),
            Some(s) => Some(s + data),
        }
    }
}

/// `value` with `data` before the byte at `offset`. Empty `data` changes nothing,
/// whatever the offset.
pub open spec fn inserted(value: Option<Seq<char>>, offset: int, data: Seq<char>) -> Result<
    Option<Seq<char>>,
    Error,
> {
    if data.len() == 0 {
        Ok(value)
    } else {
        match replaced(value, offset, 0, data) {
            Ok(s) => Ok(Some(s)),
            Err(e) => Err(e),
        }
    }
}

/// `value` without the `count` bytes that begin at `offset`. A `count` of 0 changes
/// nothing, whatever the offset.
pub open spec fn deleted(value: Option<Seq<char>>, offset: int, count: int) -> Result<
    Option<Seq<char>>,
    Error,
> {
    if count == 0 {
        Ok(value)
    } else {
        match replaced(value, offset, count, Seq::empty()) {
            Ok(s) => Ok(Some(s)),
            Err(e) => Err(e),
        }
    }
}

/// Replacing all the data of a node gives it the new data, provided that the node has no
/// data at all or data that is not empty.
pub proof fn lemma_replace_all(value: Option<Seq<char>>, data: Seq<char>)
    requires
        value is Some ==> data_length(value) > 0,
    ensures
        replaced(value, 0, data_length(value) as int, data) == Ok::<Seq<char>, Error>(data),
{
    match value {
        None => {},
        Some(s) => {
            lemma_ends(s);
            let len = encode_utf8(s).len() as int;
            assert(byte_range(s, 0, 0) + data + byte_range(s, len, len) =~= data);
        },
    }
}

/// A substring of no bytes is empty wherever it is taken, even beyond the data.
pub proof fn lemma_empty_substring(value: Option<Seq<char>>, offset: int)
    ensures
        substring_of(value, offset, 0) == Ok::<Seq<char>, Error>(Seq::empty()),
{
}

/// A substring that is given holds the bytes of the range: those from the offset to the
/// end of the range, which are `count` bytes or fewer.
pub proof fn lemma_substring_bytes(s: Seq<char>, offset: int, count: int)
    requires
        0 <= offset,
        0 < count,
        range_fits(s, offset, count),
    ensures
        substring_of(Some(s), offset, count) is Ok,
        encode_utf8(substring_of(Some(s), offset, count)->Ok_0) == encode_utf8(s).subrange(
            offset,
            range_end(encode_utf8(s).len() as int, offset, count),
        ),
        data_length(Some(substring_of(Some(s), offset, count)->Ok_0)) == range_end(
            encode_utf8(s).len() as int,
            offset,
            count,
        ) - offset,
        data_length(Some(substring_of(Some(s), offset, count)->Ok_0)) <= count,
{
    let len = encode_utf8(s).len() as int;
    lemma_byte_range(s, offset, range_end(len, offset, count));
}

/// Data in which a range has been replaced holds the bytes before the range, the bytes of
/// the new data, and the bytes behind the range; its length is the old length, less the
/// length of the range, and the length of the new data.
pub proof fn lemma_replaced_bytes(s: Seq<char>, offset: int, count: int, data: Seq<char>)
    requires
        0 <= offset,
        0 <= count,
        range_fits(s, offset, count),
    ensures
        replaced(Some(s), offset, count, data) is Ok,
        encode_utf8(replaced(Some(s), offset, count, data)->Ok_0) == encode_utf8(s).subrange(
            0,
            offset,
        ) + encode_utf8(data) + encode_utf8(s).subrange(
            range_end(encode_utf8(s).len() as int, offset, count),
            encode_utf8(s).len() as int,
        ),
        data_length(Some(replaced(Some(s), offset, count, data)->Ok_0)) == data_length(Some(s)) - (
        range_end(encode_utf8(s).len() as int, offset, count) - offset) + data_length(Some(data)),
{
    let len = encode_utf8(s).len() as int;
    let end = range_end(len, offset, count);
    lemma_ends(s);
    lemma_byte_range(s, 0, offset);
    lemma_byte_range(s, end, len);
    let head = byte_range(s, 0, offset);
    let tail = byte_range(s, end, len);
    lemma_encode_concat(head, data);
    lemma_encode_concat(head + data, tail);
}

/// Data to which data has been appended is longer by the length of what was appended.
pub proof fn lemma_appended_length(value: Option<Seq<char>>, data: Seq<char>)
    ensures
        data_length(appended(value, data)) == data_length(value) + data_length(Some(data)),
{
    match value {
        None => {
            if data.len() == 0 {
                assert(encode_utf8(data) =~= Seq::<u8>::empty());
            }
        },
        Some(s) => {
            lemma_encode_concat(s, data);
            if data.len() == 0 {
                assert(encode_utf8(data) =~= Seq::<u8>::empty());
            }
        },
    }
}

impl Forest {
    /// Why the node `n` cannot be broken in two at `offset`, if it cannot: it is neither
    /// text nor a section of character data, or `offset` lies within one of its characters.
    pub open spec fn split_error(self, n: RefNode, offset: int) -> Option<Error> {
        let v = self.node(n);
        if v.node_type != NodeType::Text && v.node_type != NodeType::CData {
            Some(Error::Syntax)
        } else if offset < data_length(v.value) && !can_cut(encode_utf8(v.value->0), offset) {
            Some(Error::IndexSize)
        } else {
            None
        }
    }

    /// The forest after the text node `n` has been broken in two at `offset`: `n` keeps
    /// the bytes before `offset`, and a new node of its kind and name, with its owner
    /// document, holds the rest. The new node stands just behind `n` among the children of
    /// the parent of `n`, if it has one. An `offset` at or beyond the end of the data
    /// leaves `n` as it is and the new node empty.
    pub open spec fn split_text(self, n: RefNode, offset: int) -> Forest {
        let v = self.node(n);
        let within = offset < data_length(v.value);
        let head = if within {
            Some(byte_range(v.value->0, 0, offset))
        } else {
            v.value
        };
        let tail = if within {
            byte_range(v.value->0, offset, encode_utf8(v.value->0).len() as int)
        } else {
            Seq::empty()
        };
        let twin = NodeView::detached(
            v.node_type,
            v.name,
            Some(tail),
            v.owner_document,
            ExtensionView::Empty,
        );
        let g = self.with_value(n, head).with_new(twin);
        match v.parent {
            None => g,
            Some(p) => g.link(
                p,
                self.next(),
                position(self.node(p).children, n) + 1,
                v.owner_document,
            ),
        }
    }

    /// Breaking a text node in two keeps the forest well formed.
    #[verifier::rlimit(40)]
    pub proof fn lemma_split_text(self, n: RefNode, offset: int)
        requires
            self.wf(),
            self.contains(n),
            self.nodes.len() < usize::MAX,
            0 <= offset,
            self.kind(n) == NodeType::Text || self.kind(n) == NodeType::CData,
        ensures
            self.split_text(n, offset).wf(),
            self.node(n).parent matches Some(p) ==> position(self.node(p).children, n)
                < self.node(p).children.len(),
    {
        let v = self.node(n);
        let within = offset < data_length(v.value);
        let head = if within {
            Some(byte_range(v.value->0, 0, offset))
        } else {
            v.value
        };
        let tail = if within {
            byte_range(v.value->0, offset, encode_utf8(v.value->0).len() as int)
        } else {
            Seq::empty()
        };
        let twin = NodeView::detached(
            v.node_type,
            v.name,
            Some(tail),
            v.owner_document,
            ExtensionView::Empty,
        );
        assert(self.node_wf(n));
        self.lemma_with_value(n, head);
        let g0 = self.with_value(n, head);
        g0.lemma_with_new(twin);
        let g = g0.with_new(twin);
        let x = self.next();
        match v.parent {
            None => {},
            Some(p) => {
                assert(self.node_wf(p));
                lemma_position_from(self.node(p).children, n, 0);
                let at = position(self.node(p).children, n);
                assert(g.node(p).children == self.node(p).children);
                assert(g.kind(p) == self.kind(p));
                g.lemma_childless_is_no_ancestor(x, p);
                g.lemma_link(p, x, at + 1, v.owner_document);
            },
        }
    }
}

/// A text node that is broken within its data keeps the bytes before the offset and hands
/// the rest to the new node, which is of its kind, has its owner document and its parent,
/// and is its next sibling where it has a parent. The two together hold the data that the
/// node held, and the node is as long as the offset says.
#[verifier::rlimit(40)]
pub proof fn lemma_split_parts(f: Forest, n: RefNode, offset: int)
    requires
        f.wf(),
        f.contains(n),
        f.nodes.len() < usize::MAX,
        f.split_error(n, offset) is None,
        0 <= offset < data_length(f.node(n).value),
    ensures
        f.split_text(n, offset).wf(),
        f.split_text(n, offset).node(n).value is Some,
        f.split_text(n, offset).node(f.next()).value is Some,
        f.split_text(n, offset).node(n).value->0 + f.split_text(n, offset).node(f.next()).value->0
            == f.node(n).value->0,
        data_length(f.split_text(n, offset).node(n).value) == offset,
        f.split_text(n, offset).kind(f.next()) == f.kind(n),
        f.split_text(n, offset).node(f.next()).owner_document == f.node(n).owner_document,
        f.split_text(n, offset).node(f.next()).parent == f.node(n).parent,
        f.node(n).parent is Some ==> f.split_text(n, offset).next_sibling(n) == Some(f.next()),
{
    let g = f.split_text(n, offset);
    let v = f.node(n).value->0;
    let twin = f.next();
    f.lemma_split_text(n, offset);
    assert(f.node_wf(n));
    lemma_cut_parts(v, offset);
    match f.node(n).parent {
        None => {},
        Some(p) => {
            assert(f.node_wf(p));
            let kids = f.node(p).children;
            lemma_position_from(kids, n, 0);
            let at = position(kids, n);
            let grown = g.node(p).children;
            assert(grown == kids.insert(at + 1, twin));
            assert(grown[at] == n);
            assert(grown[at + 1] == twin);
            lemma_position_from(grown, n, 0);
            if position(grown, n) < at {
                assert(grown[position(grown, n)] == kids[position(grown, n)]);
            }
        },
    }
}

/// A text node that is broken at or beyond the end of its data keeps its data, and the
/// new node is empty.
pub proof fn lemma_split_beyond(f: Forest, n: RefNode, offset: int)
    requires
        f.wf(),
        f.contains(n),
        f.nodes.len() < usize::MAX,
        f.split_error(n, offset) is None,
        offset >= data_length(f.node(n).value),
    ensures
        f.split_text(n, offset).wf(),
        f.split_text(n, offset).node(n).value == f.node(n).value,
        f.split_text(n, offset).node(f.next()).value == Some(Seq::<char>::empty()),
{
    f.lemma_split_text(n, offset);
    assert(f.node_wf(n));
}

impl CharacterData for NodeArena {
    fn substring(&self, node: RefNode, offset: usize, count: usize) -> (r: Result<String, Error>) {
        if count == 0 {
            return Ok(String::new());
        }
        match self.record(node).value() {
            None => Err(Error::IndexSize),
            Some(s) => {
                let len = byte_len(s.as_str());
                if offset >= len {
                    return Err(Error::IndexSize);
                }
                let end = if count >= len - offset {
                    len
                } else {
                    offset + count
                };
                if !is_cut(s.as_str(), offset) || !is_cut(s.as_str(), end) {
                    return Err(Error::IndexSize);
                }
                Ok(slice_bytes(s.as_str(), offset, end))
            },
        }
    }

    fn append(&mut self, node: RefNode, data: &str) -> (r: Result<(), Error>) {
        proof {
            self@.lemma_with_value(node, appended(self@.node(node).value, data@));
        }
        if data.is_empty() {
            assert(self@.nodes =~= self@.with_value(node, self@.node(node).value).nodes);
            return Ok(());
        }
        let joined = match self.record(node).value() {
            None => data.to_owned(),
            Some(s) => {
                let mut t = s.clone();
                t.append(data);
                t
            },
        };
        self.set_value_of(node, Some(joined));
        Ok(())
    }

    fn insert(&mut self, node: RefNode, offset: usize, data: &str) -> (r: Result<(), Error>) {
        if data.is_empty() {
            assert(self@.nodes =~= self@.with_value(node, self@.node(node).value).nodes);
            return Ok(());
        }
        self.replace(node, offset, 0, data)
    }

    fn delete(&mut self, node: RefNode, offset: usize, count: usize) -> (r: Result<(), Error>) {
        if count == 0 {
            assert(self@.nodes =~= self@.with_value(node, self@.node(node).value).nodes);
            return Ok(());
        }
        proof {
            reveal_strlit("");
            assert(""@ =~= Seq::<char>::empty());
        }
        self.replace(node, offset, count, "")
    }

    #[verifier::rlimit(40)]

    fn replace(&mut self, node: RefNode, offset: usize, count: usize, data: &str) -> (r: Result<
        (),
        Error,
    >) {
        let spliced = match self.record(node).value() {
            None => {
                if offset == 0 && count == 0 {
                    data.to_owned()
                } else {
                    return Err(Error::IndexSize);
                }
            },
            Some(s) => {
                let len = byte_len(s.as_str());
                if offset >= len {
                    return Err(Error::IndexSize);
                }
                let end = if count >= len - offset {
                    len
                } else {
                    offset + count
                };
                if !is_cut(s.as_str(), offset) || !is_cut(s.as_str(), end) {
                    return Err(Error::IndexSize);
                }
                proof {
                    lemma_ends(s@);
                }
                let mut t = slice_bytes(s.as_str(), 0, offset);
                t.append(data);
                let tail = slice_bytes(s.as_str(), end, len);
                t.append(tail.as_str());
                t
            },
        };
        proof {
            self@.lemma_with_value(node, Some(spliced@));
        }
        self.set_value_of(node, Some(spliced));
        Ok(())
    }
}

impl Comment for NodeArena {

}

impl Text for NodeArena {
    #[verifier::rlimit(40)]
    fn split(&mut self, node: RefNode, offset: usize) -> (r: Result<RefNode, Error>) {
        let kind = self.record(node).node_type();
        if kind != NodeType::Text && kind != NodeType::CData {
            return Err(Error::Syntax);
        }
        let head: Option<String>;
        let tail: String;
        match self.record(node).value() {
            None => {
                head = None;
                tail = String::new();
            },
            Some(s) => {
                let len = byte_len(s.as_str());
                if offset < len {
                    if !is_cut(s.as_str(), offset) {
                        return Err(Error::IndexSize);
                    }
                    proof {
                        lemma_ends(s@);
                    }
                    head = Some(slice_bytes(s.as_str(), 0, offset));
                    tail = slice_bytes(s.as_str(), offset, len);
                } else {
                    head = Some(s.clone());
                    tail = String::new();
                }
            },
        }
        let owner = self.record(node).owner_document();
        let parent = self.record(node).parent_node();
        let name = self.record(node).name().clone();
        let twin = NodeImpl::new(kind, name, Some(tail), owner, crate::node::Extension::Empty);
        self.set_value_of(node, head);
        let twin_node = self.add(twin);
        proof {
            old(self)@.lemma_split_text(node, offset as int);
            assert(old(self)@.node_wf(node));
        }
        match parent {
            None => {},
            Some(w) => {
                let p = RefNode { index: w.index };
                assert(self@.node(p).children == old(self)@.node(p).children);
                let kids = self.record(p).child_nodes();
                let count = kids.len();
                let at = index_in(kids, node);
                self.insert_child_of(p, at + 1, twin_node);
                self.set_parent_of(twin_node, Some(p.downgrade()));
                self.set_owner_of(twin_node, owner);
                assert(self@.nodes =~= old(self)@.split_text(node, offset as int).nodes);
            },
        }
        Ok(twin_node)
    }
}

impl CDataSection for NodeArena {

}

impl ProcessingInstruction for NodeArena {

}

impl Attribute for NodeArena {

}

} // verus!
