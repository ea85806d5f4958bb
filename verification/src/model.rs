//! The format-preserving tree, and the source text that each part of it
//! stands for.

use vstd::prelude::*;

verus! {

/// A top-level member of a document.
#[derive(Debug, PartialEq, Eq)]
pub enum KdlEntity {
    Whitespace(String),
    Comment(KdlComment),
    Node(Option<KdlType>, KdlNode),
}

/// A member of a node's line, in source order.
#[derive(Debug, PartialEq, Eq)]
pub enum KdlNodeEntity {
    Whitespace(String),
    Comment(KdlComment),
    Value(Option<KdlType>, KdlValue),
    Property(Option<KdlType>, KdlProperty),
    Node(Option<KdlType>, KdlNode),
}

/// A comment with its verbatim text, markers and delimiters included.
#[derive(Debug, Clone, PartialEq, Eq)]
pub enum KdlComment {
    SingleLine(String),
    MultiLine(String),
    SlashDash(String),
}

/// A node: its name, the members of its line in source order, and its
/// children where it has a block. No block and an empty block differ.
#[derive(Debug, PartialEq, Eq)]
pub struct KdlNode {
    pub name: String,
    pub entities: Vec<KdlNodeEntity>,
    pub children: Option<Vec<KdlEntity>>,
}

/// A property: whether its key was written in quotes, the key without
/// them, and the value.
#[derive(Debug, Clone, PartialEq, Eq)]
pub struct KdlProperty {
    pub quoted: bool,
    pub name: String,
    pub value: KdlValue,
}

/// A value. A number keeps its text as written, sign, prefix and
/// underscores included.
#[derive(Debug, Clone, PartialEq, Eq)]
pub enum KdlValue {
    RawString(KdlString),
    String(KdlString),
    Base2(String),
    Base8(String),
    Base10(String),
    Base16(String),
    Bool(bool),
    Null,
}

/// A string with its decoded value and its verbatim source spelling.
#[derive(Debug, Clone, PartialEq, Eq)]
pub struct KdlString {
    pub value: String,
    pub original: String,
}

/// The name of a type annotation, without its parentheses.
#[derive(Debug, Clone, PartialEq, Eq)]
pub struct KdlType(pub String);

/// A parsed document: its entities in source order.
#[derive(Debug, PartialEq, Eq)]
pub struct KdlDocument(pub Vec<KdlEntity>);

/// The spelling of the keyword `true`.
pub open spec fn true_text() -> Seq<char> {
    seq!['t', 'r', 'u', 'e']
}

/// The spelling of the keyword `false`.
pub open spec fn false_text() -> Seq<char> {
    seq!['f', 'a', 'l', 's', 'e']
}

/// The spelling of the keyword `null`.
pub open spec fn null_text() -> Seq<char> {
    seq!['n', 'u', 'l', 'l']
}

/// Source text of a comment.
pub open spec fn comment_raw(c: KdlComment) -> Seq<char> {
    match c {
        KdlComment::SingleLine(t) => t@,
        KdlComment::MultiLine(t) => t@,
        KdlComment::SlashDash(t) => t@,
    }
}

/// Source text of a value.
pub open spec fn value_raw(v: KdlValue) -> Seq<char> {
    match v {
        KdlValue::RawString(t) => t.original@,
        KdlValue::String(t) => t.original@,
        KdlValue::Base2(t) => t@,
        KdlValue::Base8(t) => t@,
        KdlValue::Base10(t) => t@,
        KdlValue::Base16(t) => t@,
        KdlValue::Bool(b) => if b {
            true_text()
        } else {
            false_text()
        },
        KdlValue::Null => null_text(),
    }
}

/// Source text of an optional type annotation: the name in parentheses, or
/// nothing.
pub open spec fn type_raw(t: Option<KdlType>) -> Seq<char> {
    match t {
        Some(ty) => seq!['('] + ty.0@ + seq![')'],
        None => Seq::empty(),
    }
}

/// Source text of a property: the key, quoted if it was written so, the
/// equals sign, the annotation and the value.
pub open spec fn property_raw(t: Option<KdlType>, p: KdlProperty) -> Seq<char> {
    (if p.quoted {
        seq!['"'] + p.name@ + seq!['"']
    } else {
        p.name@
    }) + seq!['='] + type_raw(t) + value_raw(p.value)
}

/// Source text of an entity.
pub open spec fn entity_raw(e: KdlEntity) -> Seq<char>
    decreases e, 0nat,
{
    match e {
        KdlEntity::Whitespace(t) => t@,
        KdlEntity::Comment(c) => comment_raw(c),
        KdlEntity::Node(t, n) => type_raw(t) + node_raw(n),
    }
}

/// Source text of a member of a node's line.
pub open spec fn node_entity_raw(e: KdlNodeEntity) -> Seq<char>
    decreases e, 0nat,
{
    match e {
        KdlNodeEntity::Whitespace(t) => t@,
        KdlNodeEntity::Comment(c) => comment_raw(c),
        KdlNodeEntity::Value(t, v) => type_raw(t) + value_raw(v),
        KdlNodeEntity::Property(t, p) => property_raw(t, p),
        KdlNodeEntity::Node(t, n) => type_raw(t) + node_raw(n),
    }
}

/// Source text of a node: its name, its line, and its children in braces
/// where it has a block.
pub open spec fn node_raw(n: KdlNode) -> Seq<char>
    decreases n, 0nat,
{
    n.name@ + node_entities_raw(n.entities, n.entities.len() as nat) + match n.children {
        Some(c) => seq!['{'] + entities_raw(c, c.len() as nat) + seq!['}'],
        None => Seq::empty(),
    }
}

/// Source text of the first `k` entities of `v`, one after the other.
pub open spec fn entities_raw(v: Vec<KdlEntity>, k: nat) -> Seq<char>
    decreases v, k,
{
    if k == 0 || k > v.len() {
        Seq::empty()
    } else {
        entities_raw(v, (k - 1) as nat) + entity_raw(v[k - 1])
    }
}

/// Source text of the first `k` members of a node's line.
pub open spec fn node_entities_raw(v: Vec<KdlNodeEntity>, k: nat) -> Seq<char>
    decreases v, k,
{
    if k == 0 || k > v.len() {
        Seq::empty()
    } else {
        node_entities_raw(v, (k - 1) as nat) + node_entity_raw(v[k - 1])
    }
}

/// Source text of a document: that of all its entities in order.
pub open spec fn document_raw(d: KdlDocument) -> Seq<char> {
    entities_raw(d.0, d.0.len() as nat)
}

/// The text of the first `k` entities depends on those entities alone.
pub proof fn lemma_entities_raw_prefix(a: Vec<KdlEntity>, b: Vec<KdlEntity>, k: nat)
    requires
        k <= a.len(),
        k <= b.len(),
        forall|i: int| 0 <= i < k ==> a[i] == b[i],
    ensures
        entities_raw(a, k) == entities_raw(b, k),
    decreases k,
{
    if k > 0 {
        lemma_entities_raw_prefix(a, b, (k - 1) as nat);
    }
}

/// The text of the first `k` members of a line depends on those members
/// alone.
pub proof fn lemma_node_entities_raw_prefix(a: Vec<KdlNodeEntity>, b: Vec<KdlNodeEntity>, k: nat)
    requires
        k <= a.len(),
        k <= b.len(),
        forall|i: int| 0 <= i < k ==> a[i] == b[i],
    ensures
        node_entities_raw(a, k) == node_entities_raw(b, k),
    decreases k,
{
    if k > 0 {
        lemma_node_entities_raw_prefix(a, b, (k - 1) as nat);
    }
}

} // verus!
