//! A format-preserving parser for node-based documents: every character of
//! the source is kept in the tree that `KdlDocument::parse` builds, and a
//! failure is reported with the line and column at which parsing stopped.

pub mod lexical;
pub mod position;
pub mod model;
pub mod text;
pub mod comment;
pub mod value;
pub mod parser;
pub mod document;

pub use crate::document::{KdlError, KdlErrorKind};
pub use crate::model::{
    KdlComment, KdlDocument, KdlEntity, KdlNode, KdlNodeEntity, KdlProperty, KdlString, KdlType,
    KdlValue,
};
