//! An in-memory document tree with the operations of the DOM Core interfaces.
//!
//! The nodes of all documents live in a [`NodeArena`], and a [`RefNode`] is a handle to
//! one of them. The arena offers the interfaces of the tree as traits: [`Node`] for what
//! every node offers, and [`Document`], [`Element`], [`CharacterData`] and the others for
//! what the nodes of one kind offer. Each operation names the node it works on by its
//! handle. Documents are made by the [`Implementation`].
//!
//! Every operation has a contract over the mathematical value of the arena, a
//! [`forest::Forest`]: a sequence of node values that is well formed when it is a forest
//! in which every child is of a kind that its parent admits. What an operation computes is
//! a function on forests; what holds of these functions whatever the forest is proved
//! beside them.
//!
//! Character data is measured in bytes: every offset, count and length is a number of
//! bytes of the UTF-8 form of the data, and data is cut only between characters.

pub mod error;
pub mod first;
pub mod text;
pub mod bytes;
pub mod name;
pub mod node;
pub mod node_impl;
pub mod forest;
pub mod structure;
pub mod arena;
pub mod chardata;
pub mod traits;
pub mod tree;
pub mod laws;
pub mod matching;
pub mod search;
pub mod dom_impl;
pub mod document;
pub mod element;
pub mod render;
pub mod copy;
pub mod copy_laws;
pub mod normalize;
pub mod normal_text;

pub use arena::NodeArena;
pub use dom_impl::{get_implementation, Implementation};
pub use error::Error;
pub use name::Name;
pub use node::{NodeType, RefNode, WeakRefNode};
pub use node_impl::NodeImpl;
pub use traits::{
    Attribute, CDataSection, CharacterData, Comment, Document, DocumentFragment, DocumentType,
    Element, Entity, EntityReference, Node, Notation, ProcessingInstruction, Text,
};
