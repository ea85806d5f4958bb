//! The entry point: a whole text to a document, or to the place where
//! parsing stopped.

use vstd::prelude::*;
use vstd::slice::slice_subrange;
use crate::comment::{pair_at, has_pair};
use crate::model::{KdlDocument, document_raw};
use crate::parser::{entities_end, entities_at, entities};
use crate::position::{line_of, column_of, calculate_line_column};
use crate::text::{chars_of, slice_text};

verus! {

/// What the parser found at the place where it stopped.
#[derive(Debug, Clone, Copy, PartialEq, Eq)]
pub enum KdlErrorKind {
    /// A multi-line comment opens there and is never closed.
    UnterminatedComment,
    /// The marker `/-` stands there with no complete node behind it.
    ExpectedNode,
    /// Nothing more specific is known.
    Other,
}

/// A failed parse: the text, and where in it no further entity stands.
#[derive(Debug, Clone, PartialEq, Eq)]
pub struct KdlError {
    /// The whole input.
    pub input: String,
    /// Number of characters before the failure.
    pub offset: usize,
    /// 1-based line of the failure.
    pub line: usize,
    /// 1-based column of the failure, in characters.
    pub column: usize,
    pub kind: KdlErrorKind,
}

/// The kind of failure at `i`, a position at which no entity stands.
pub open spec fn failure_kind(s: Seq<char>, i: int) -> KdlErrorKind {
    if pair_at(s, i, '/', '*') {
        KdlErrorKind::UnterminatedComment
    } else if pair_at(s, i, '/', '-') {
        KdlErrorKind::ExpectedNode
    } else {
        KdlErrorKind::Other
    }
}

/// `e` reports a failure of `s` at character `offset`.
pub open spec fn reports(e: KdlError, s: Seq<char>, offset: int) -> bool {
    &&& e.input@ == s
    &&& e.offset == offset
    &&& e.line == line_of(s.subrange(0, offset))
    &&& e.column == column_of(s.subrange(0, offset))
    &&& e.kind == failure_kind(s, offset)
}

/// Reads entities from the start of `input` for as long as one stands:
/// where they end, and the document they form.
pub fn document(input: &[char]) -> (r: (usize, KdlDocument))
    ensures
        r.0 == entities_end(input@, 0),
        r.0 <= input@.len(),
        entities_at(input@, 0, r.1.0),
        document_raw(r.1) == input@.subrange(0, r.0 as int),
{
    let (end, all) = entities(input, 0);
    (end, KdlDocument(all))
}

/// The report of a failure at `offset`, a position before the end of
/// `input`.
pub fn failure(input: &[char], offset: usize) -> (e: KdlError)
    requires
        offset < input@.len(),
    ensures
        reports(e, input@, offset as int),
{
    let n = input.len();
    let prefix = slice_subrange(input, 0, offset);
    let (line, column) = calculate_line_column(prefix);
    let kind = if has_pair(input, offset, '/', '*') {
        KdlErrorKind::UnterminatedComment
    } else if has_pair(input, offset, '/', '-') {
        KdlErrorKind::ExpectedNode
    } else {
        KdlErrorKind::Other
    };
    proof {
        assert(input@.subrange(0, n as int) =~= input@);
    }
    KdlError { input: slice_text(input, 0, n), offset, line, column, kind }
}

impl KdlDocument {
    /// Parses a whole text. It is a document exactly when entities cover it
    /// from its first character to its last; the document then spells the
    /// text back, entity by entity. Otherwise the error tells where the
    /// entities end.
    pub fn parse(input: &str) -> (r: Result<KdlDocument, KdlError>)
        ensures
            r is Ok <==> entities_end(input@, 0) == input@.len(),
            r is Ok ==> entities_at(input@, 0, r->Ok_0.0) && document_raw(r->Ok_0) == input@,
            r is Err ==> reports(r->Err_0, input@, entities_end(input@, 0)),
    {
        let chars = chars_of(input);
        let (end, doc) = document(chars.as_slice());
        if end == chars.len() {
            proof {
                assert(input@.subrange(0, end as int) =~= input@);
            }
            Ok(doc)
        } else {
            Err(failure(chars.as_slice(), end))
        }
    }
}

} // verus!
