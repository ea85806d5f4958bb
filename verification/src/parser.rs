//! The grammar of documents: entities, nodes with their lines and child
//! blocks, and the comment that disables one node.

use vstd::prelude::*;
use crate::comment::{pair_at, has_pair, plain_comment_end, plain_comment, multi_line_comment_end,
    multi_line_comment, single_line_comment_end};
use crate::lexical::{is_unicode_space, blank_len, blank_run_end, skip_blank, is_space,
    unicode_space, newline};
use crate::model::{KdlEntity, KdlNodeEntity, KdlComment, KdlNode, KdlProperty, KdlType,
    comment_raw, type_raw, entity_raw, node_entity_raw, node_raw, entities_raw, node_entities_raw,
    lemma_entities_raw_prefix, lemma_node_entities_raw_prefix};
use crate::text::slice_text;
use crate::value::{identifier_end, identifier, value_end, value_at, value};

verus! {

/// End of the type annotation at `i`: an identifier in parentheses.
pub open spec fn annotation_end(s: Seq<char>, i: int) -> Option<int> {
    if 0 <= i < s.len() && s[i] == '(' {
        match identifier_end(s, i + 1) {
            Some(e) => if e < s.len() && s[e] == ')' {
                Some(e + 1)
            } else {
                None
            },
            None => None,
        }
    } else {
        None
    }
}

/// Position behind the type annotation at `i`, or `i` where none stands.
pub open spec fn after_annotation(s: Seq<char>, i: int) -> int {
    match annotation_end(s, i) {
        Some(e) => e,
        None => i,
    }
}

/// End of the run of spaces that starts at `i`.
pub open spec fn space_run_end(s: Seq<char>, i: int) -> int
    decreases s.len() - i,
{
    if 0 <= i < s.len() && is_unicode_space(s[i]) {
        space_run_end(s, i + 1)
    } else {
        i
    }
}

/// Position of the first quote or backslash at or after `i`, or the end of
/// the text.
pub open spec fn plain_run_end(s: Seq<char>, i: int) -> int
    decreases s.len() - i,
{
    if 0 <= i < s.len() && s[i] != '"' && s[i] != '\\' {
        plain_run_end(s, i + 1)
    } else {
        i
    }
}

/// End of the quoted key at `i`: a quote, characters other than quote and
/// backslash, a quote.
pub open spec fn quoted_key_end(s: Seq<char>, i: int) -> Option<int> {
    let e = plain_run_end(s, i + 1);
    if 0 <= i < s.len() && s[i] == '"' && e < s.len() && s[e] == '"' {
        Some(e + 1)
    } else {
        None
    }
}

/// End of the key at `i`, an identifier or else a quoted key.
pub open spec fn key_end(s: Seq<char>, i: int) -> Option<int> {
    if identifier_end(s, i) is Some {
        identifier_end(s, i)
    } else {
        quoted_key_end(s, i)
    }
}

/// End of the property at `i`: a key, an equals sign directly behind it,
/// an optional type annotation and a value.
pub open spec fn property_end(s: Seq<char>, i: int) -> Option<int> {
    match key_end(s, i) {
        Some(e) => if e < s.len() && s[e] == '=' {
            value_end(s, after_annotation(s, e + 1))
        } else {
            None
        },
        None => None,
    }
}

/// End of the member of a node's line at `i`: a run of spaces, a
/// multi-line comment, a property, or a value with an optional type
/// annotation, tried in this order.
pub open spec fn node_entity_end(s: Seq<char>, i: int) -> Option<int> {
    if 0 <= i < s.len() && is_unicode_space(s[i]) {
        Some(space_run_end(s, i))
    } else if multi_line_comment_end(s, i) is Some {
        multi_line_comment_end(s, i)
    } else if property_end(s, i) is Some {
        property_end(s, i)
    } else {
        value_end(s, after_annotation(s, i))
    }
}

/// `t` and `p` are the type annotation and the property written at `i`:
/// the key is quoted exactly where no identifier stands, its name is the
/// key without the quotes, and the annotation and the value are those
/// behind the equals sign.
pub open spec fn property_at(s: Seq<char>, i: int, t: Option<KdlType>, p: KdlProperty) -> bool {
    let k = key_end(s, i).unwrap();
    let a = after_annotation(s, k + 1);
    &&& property_end(s, i) is Some
    &&& t is Some <==> annotation_end(s, k + 1) is Some
    &&& t is Some ==> t.unwrap().0@ == s.subrange(k + 2, a - 1)
    &&& p.quoted <==> identifier_end(s, i) is None
    &&& p.name@ == if identifier_end(s, i) is None {
        s.subrange(i + 1, k - 1)
    } else {
        s.subrange(i, k)
    }
    &&& value_at(s, a, p.value, property_end(s, i).unwrap())
}

/// `e` is the member of a node's line written at `i`: of the kind that the
/// grammar finds there, with the parts that stand there.
pub open spec fn node_entity_at(s: Seq<char>, i: int, e: KdlNodeEntity) -> bool {
    &&& node_entity_end(s, i) is Some
    &&& node_entity_parts(s, i, e)
}

/// The kind and the parts of the member `e`, as they stand at `i`.
pub open spec fn node_entity_parts(s: Seq<char>, i: int, e: KdlNodeEntity) -> bool {
    if 0 <= i < s.len() && is_unicode_space(s[i]) {
        e is Whitespace && e->Whitespace_0@ == s.subrange(i, space_run_end(s, i))
    } else if multi_line_comment_end(s, i) is Some {
        &&& e is Comment
        &&& e->Comment_0 is MultiLine
        &&& e->Comment_0->MultiLine_0@ == s.subrange(i, multi_line_comment_end(s, i).unwrap())
    } else if property_end(s, i) is Some {
        e is Property && property_at(s, i, e->Property_0, e->Property_1)
    } else {
        let a = after_annotation(s, i);
        &&& e is Value
        &&& e->Value_0 is Some <==> annotation_end(s, i) is Some
        &&& e->Value_0 is Some ==> e->Value_0.unwrap().0@ == s.subrange(i + 1, a - 1)
        &&& value_end(s, a) is Some
        &&& value_at(s, a, e->Value_1, value_end(s, a).unwrap())
    }
}

/// End of a node's line from `i`: members one after the other until none
/// stands. A member that takes no character would end the line as well, so
/// the line always ends.
pub open spec fn node_line_end(s: Seq<char>, i: int) -> int
    decreases s.len() - i,
{
    match node_entity_end(s, i) {
        Some(e) => if i < e <= s.len() {
            node_line_end(s, e)
        } else {
            i
        },
        None => i,
    }
}

/// End of the node at `i`: an optional type annotation, the name, the
/// line, and a block of children in braces where a complete one follows.
pub open spec fn node_end(s: Seq<char>, i: int) -> Option<int>
    decreases s.len() - i, 0int,
{
    match identifier_end(s, after_annotation(s, i)) {
        Some(p) => {
            let q = node_line_end(s, p);
            if i < p <= q < s.len() && s[q] == '{' {
                let r = entities_end(s, q + 1);
                if 0 <= r < s.len() && s[r] == '}' {
                    Some(r + 1)
                } else {
                    Some(q)
                }
            } else {
                Some(q)
            }
        },
        None => None,
    }
}

/// End of the comment at `i`: a single-line or a multi-line comment, or
/// else the marker `/-` with the one node that it disables.
pub open spec fn comment_end(s: Seq<char>, i: int) -> Option<int>
    decreases s.len() - i, 1int,
{
    if plain_comment_end(s, i) is Some {
        plain_comment_end(s, i)
    } else if pair_at(s, i, '/', '-') {
        node_end(s, i + 2)
    } else {
        None
    }
}

/// End of the entity at `i`: a run of spaces and newlines, a comment, or a
/// node, tried in this order.
pub open spec fn entity_end(s: Seq<char>, i: int) -> Option<int>
    decreases s.len() - i, 2int,
{
    if blank_len(s, i) > 0 {
        Some(blank_run_end(s, i))
    } else if comment_end(s, i) is Some {
        comment_end(s, i)
    } else {
        node_end(s, i)
    }
}

/// Where the entities that start at `i` end: one after the other until
/// none stands. An entity that takes no character would end the run as
/// well, so the run always ends.
pub open spec fn entities_end(s: Seq<char>, i: int) -> int
    decreases s.len() - i, 3int,
{
    match entity_end(s, i) {
        Some(e) => if i < e <= s.len() {
            entities_end(s, e)
        } else {
            i
        },
        None => i,
    }
}

/// `c` is the comment written at `i`: of the kind that stands there, with
/// the text up to its end.
pub open spec fn comment_at(s: Seq<char>, i: int, c: KdlComment) -> bool {
    &&& comment_end(s, i) is Some
    &&& comment_raw(c) == s.subrange(i, comment_end(s, i).unwrap())
    &&& if single_line_comment_end(s, i) is Some {
        c is SingleLine
    } else if multi_line_comment_end(s, i) is Some {
        c is MultiLine
    } else {
        c is SlashDash
    }
}

/// Where the member number `k` of the node's line that starts at `p`
/// starts.
pub open spec fn member_start(s: Seq<char>, p: int, k: nat) -> int
    decreases k,
{
    if k == 0 {
        p
    } else {
        match node_entity_end(s, member_start(s, p, (k - 1) as nat)) {
            Some(e) => e,
            None => member_start(s, p, (k - 1) as nat),
        }
    }
}

/// Where the entity number `k` of the entities that start at `p` starts.
pub open spec fn entity_start(s: Seq<char>, p: int, k: nat) -> int
    decreases k,
{
    if k == 0 {
        p
    } else {
        match entity_end(s, entity_start(s, p, (k - 1) as nat)) {
            Some(e) => e,
            None => entity_start(s, p, (k - 1) as nat),
        }
    }
}

/// `v` is the node's line written from `p`: each member is the one that
/// stands where the one before it ends, and behind the last none stands.
pub open spec fn line_at(s: Seq<char>, p: int, v: Vec<KdlNodeEntity>) -> bool {
    &&& forall|k: int|
        0 <= k < v.len() ==> node_entity_at(s, member_start(s, p, k as nat), #[trigger] v@[k])
    &&& member_start(s, p, v.len() as nat) == node_line_end(s, p)
}

/// `v` holds the entities written from `p`: each is the one that stands
/// where the one before it ends, and behind the last none stands.
pub open spec fn entities_at(s: Seq<char>, p: int, v: Vec<KdlEntity>) -> bool
    decreases v,
{
    &&& forall|k: int|
        0 <= k < v.len() ==> entity_at(
            s,
            entity_start(s, p, k as nat),
            #[trigger] v@[k],
        )
    &&& entity_start(s, p, v.len() as nat) == entities_end(s, p)
}

/// `e` is the entity written at `i`: of the kind that stands there, with
/// the parts that stand there, and spelling the text up to its end.
pub open spec fn entity_at(s: Seq<char>, i: int, e: KdlEntity) -> bool
    decreases e,
{
    &&& entity_end(s, i) is Some
    &&& i < entity_end(s, i).unwrap() <= s.len()
    &&& entity_raw(e) == s.subrange(i, entity_end(s, i).unwrap())
    &&& if blank_len(s, i) > 0 {
        e is Whitespace && e->Whitespace_0@ == s.subrange(i, blank_run_end(s, i))
    } else if comment_end(s, i) is Some {
        e is Comment && comment_at(s, i, e->Comment_0)
    } else {
        e is Node && node_at(s, i, e->Node_0, e->Node_1)
    }
}

/// `t` and `n` are the type annotation and the node written at `i`: the
/// annotation, the name, the line member by member, and children exactly
/// where a complete block follows the line, entity by entity.
pub open spec fn node_at(s: Seq<char>, i: int, t: Option<KdlType>, n: KdlNode) -> bool
    decreases n,
{
    let a = after_annotation(s, i);
    let p = identifier_end(s, a).unwrap();
    let q = node_line_end(s, p);
    &&& node_end(s, i) is Some
    &&& t is Some <==> annotation_end(s, i) is Some
    &&& t is Some ==> t.unwrap().0@ == s.subrange(i + 1, a - 1)
    &&& n.name@ == s.subrange(a, p)
    &&& line_at(s, p, n.entities)
    &&& match n.children {
        Some(c) => node_end(s, i).unwrap() > q && entities_at(s, q + 1, c),
        None => node_end(s, i).unwrap() == q,
    }
}

/// One more member read: the line so far stays right, and its text grows
/// by the member's text.
proof fn lemma_line_step(
    s: Seq<char>,
    pos: int,
    before: Vec<KdlNodeEntity>,
    after: Vec<KdlNodeEntity>,
    e: int,
    member: KdlNodeEntity,
)
    requires
        after@ == before@.push(member),
        node_entity_end(s, member_start(s, pos, before.len() as nat)) == Some(e),
        node_entity_at(s, member_start(s, pos, before.len() as nat), member),
        forall|k: int|
            0 <= k < before.len() ==> node_entity_at(s, member_start(s, pos, k as nat), #[trigger] before@[k]),
    ensures
        e == member_start(s, pos, after.len() as nat),
        forall|k: int|
            0 <= k < after.len() ==> node_entity_at(s, member_start(s, pos, k as nat), #[trigger] after@[k]),
        node_entities_raw(after, after.len() as nat) == node_entities_raw(
            before,
            before.len() as nat,
        ) + node_entity_raw(member),
{
    assert forall|k: int| 0 <= k < after.len() implies node_entity_at(s, member_start(s, pos, k as nat), #[trigger] after@[k]) by {
        if k < before.len() {
            assert(after@[k] == before@[k]);
        } else {
            assert(after@[k] == member);
        }
    }
    lemma_node_entities_raw_prefix(before, after, before.len() as nat);
}

/// One more entity read: the entities so far stay right, and their text
/// grows by the entity's text.
proof fn lemma_entities_step(
    s: Seq<char>,
    pos: int,
    before: Vec<KdlEntity>,
    after: Vec<KdlEntity>,
    e: int,
    found: KdlEntity,
)
    requires
        after@ == before@.push(found),
        entity_end(s, entity_start(s, pos, before.len() as nat)) == Some(e),
        entity_at(s, entity_start(s, pos, before.len() as nat), found),
        forall|k: int|
            0 <= k < before.len() ==> entity_at(s, entity_start(s, pos, k as nat), #[trigger] before@[k]),
    ensures
        e == entity_start(s, pos, after.len() as nat),
        forall|k: int|
            0 <= k < after.len() ==> entity_at(s, entity_start(s, pos, k as nat), #[trigger] after@[k]),
        entities_raw(after, after.len() as nat) == entities_raw(before, before.len() as nat)
            + entity_raw(found),
{
    assert forall|k: int| 0 <= k < after.len() implies entity_at(s, entity_start(s, pos, k as nat), #[trigger] after@[k]) by {
        if k < before.len() {
            assert(after@[k] == before@[k]);
        } else {
            assert(after@[k] == found);
        }
    }
    lemma_entities_raw_prefix(before, after, before.len() as nat);
}

/// The first `k` of the entities written from `p` spell the text from `p`
/// to where entity number `k` starts.
proof fn lemma_entities_raw_at(s: Seq<char>, p: int, v: Vec<KdlEntity>, k: nat)
    requires
        0 <= p <= s.len(),
        entities_at(s, p, v),
        k <= v.len(),
    ensures
        p <= entity_start(s, p, k) <= s.len(),
        entities_raw(v, k) == s.subrange(p, entity_start(s, p, k)),
    decreases k,
{
    if k == 0 {
        assert(s.subrange(p, p) =~= Seq::<char>::empty());
    } else {
        lemma_entities_raw_at(s, p, v, (k - 1) as nat);
        let i = entity_start(s, p, (k - 1) as nat);
        let e = entity_start(s, p, k);
        assert(entity_at(s, i, v@[k - 1]));
        assert(s.subrange(p, i) + s.subrange(i, e) =~= s.subrange(p, e));
    }
}

/// A document spells its source back: where the entities written from the
/// start of `s` reach its end, their texts, one after the other, are `s`.
pub proof fn lemma_round_trip(s: Seq<char>, v: Vec<KdlEntity>)
    requires
        entities_at(s, 0, v),
        entities_end(s, 0) == s.len(),
    ensures
        entities_raw(v, v.len() as nat) == s,
{
    lemma_entities_raw_at(s, 0, v, v.len() as nat);
    assert(s.subrange(0, s.len() as int) =~= s);
}

/// Reads a run of spaces and newlines at `pos`, kept as it is written.
pub fn whitespace(input: &[char], pos: usize) -> (r: Option<(usize, String)>)
    ensures
        r is Some <==> blank_len(input@, pos as int) > 0,
        r is Some ==> {
            &&& r.unwrap().0 == blank_run_end(input@, pos as int)
            &&& pos < r.unwrap().0 <= input@.len()
            &&& r.unwrap().1@ == input@.subrange(pos as int, r.unwrap().0 as int)
        },
{
    let first = match unicode_space(input, pos) {
        Some(e) => Some(e),
        None => newline(input, pos),
    };
    match first {
        Some(e) => {
            let end = skip_blank(input, e);
            Some((end, slice_text(input, pos, end)))
        },
        None => None,
    }
}

/// Reads an optional type annotation at `pos`.
pub fn annotation(input: &[char], pos: usize) -> (r: (usize, Option<KdlType>))
    ensures
        r.0 == after_annotation(input@, pos as int),
        pos <= r.0,
        r.1 is Some <==> annotation_end(input@, pos as int) is Some,
        r.1 is Some ==> r.0 <= input@.len() && r.1.unwrap().0@ == input@.subrange(
            pos + 1,
            r.0 - 1,
        ),
        r.0 <= input@.len() ==> type_raw(r.1) == input@.subrange(pos as int, r.0 as int),
{
    let n = input.len();
    if pos < n && input[pos] == '(' {
        match identifier(input, pos + 1) {
            Some(e) => {
                if e < n && input[e] == ')' {
                    let name = slice_text(input, pos + 1, e);
                    proof {
                        assert(seq!['('] + name@ + seq![')'] =~= input@.subrange(
                            pos as int,
                            e + 1,
                        ));
                    }
                    return (e + 1, Some(KdlType(name)));
                }
            },
            None => {},
        }
    }
    proof {
        if pos <= n {
            assert(input@.subrange(pos as int, pos as int) =~= Seq::<char>::empty());
        }
    }
    (pos, None)
}

/// Reads a property key at `pos`: its end, whether it is quoted, and its
/// name without the quotes.
pub fn key(input: &[char], pos: usize) -> (r: Option<(usize, bool, String)>)
    ensures
        r is Some <==> key_end(input@, pos as int) is Some,
        r is Some ==> {
            &&& r.unwrap().0 == key_end(input@, pos as int).unwrap()
            &&& pos < r.unwrap().0 <= input@.len()
            &&& r.unwrap().1 <==> identifier_end(input@, pos as int) is None
            &&& r.unwrap().1 ==> pos + 2 <= r.unwrap().0
            &&& r.unwrap().2@ == if r.unwrap().1 {
                input@.subrange(pos + 1, r.unwrap().0 - 1)
            } else {
                input@.subrange(pos as int, r.unwrap().0 as int)
            }
        },
{
    let n = input.len();
    if let Some(e) = identifier(input, pos) {
        return Some((e, false, slice_text(input, pos, e)));
    }
    if pos < n && input[pos] == '"' {
        let mut i: usize = pos + 1;
        while i < n && input[i] != '"' && input[i] != '\\'
            invariant
                n == input@.len(),
                pos < i <= n,
                plain_run_end(input@, i as int) == plain_run_end(input@, pos + 1),
            decreases n - i,
        {
            i = i + 1;
        }
        if i < n && input[i] == '"' {
            return Some((i + 1, true, slice_text(input, pos + 1, i)));
        }
    }
    None
}

/// Reads a property at `pos`.
pub fn property(input: &[char], pos: usize) -> (r: Option<(usize, KdlNodeEntity)>)
    ensures
        r is Some <==> property_end(input@, pos as int) is Some,
        r is Some ==> {
            &&& r.unwrap().0 == property_end(input@, pos as int).unwrap()
            &&& pos < r.unwrap().0 <= input@.len()
            &&& r.unwrap().1 is Property
            &&& node_entity_raw(r.unwrap().1) == input@.subrange(pos as int, r.unwrap().0 as int)
            &&& property_at(input@, pos as int, r.unwrap().1->Property_0, r.unwrap().1->Property_1)
        },
{
    let n = input.len();
    let ghost s = input@;
    match key(input, pos) {
        Some((k, quoted, name)) => {
            if k < n && input[k] == '=' {
                let (a, ty) = annotation(input, k + 1);
                match value(input, a) {
                    Some((end, v)) => {
                        proof {
                            let key_text = if quoted {
                                seq!['"'] + name@ + seq!['"']
                            } else {
                                name@
                            };
                            if quoted {
                                assert(quoted_key_end(s, pos as int) == Some(k as int));
                                assert(s[pos as int] == '"' && s[k - 1] == '"');
                            }
                            assert(key_text =~= s.subrange(pos as int, k as int));
                            assert(s.subrange(pos as int, k as int) + seq!['='] + s.subrange(
                                k + 1,
                                a as int,
                            ) + s.subrange(a as int, end as int) =~= s.subrange(
                                pos as int,
                                end as int,
                            ));
                        }
                        Some(
                            (
                                end,
                                KdlNodeEntity::Property(ty, KdlProperty { quoted, name, value: v }),
                            ),
                        )
                    },
                    None => None,
                }
            } else {
                None
            }
        },
        None => None,
    }
}

/// Reads one member of a node's line at `pos`.
pub fn node_entity(input: &[char], pos: usize) -> (r: Option<(usize, KdlNodeEntity)>)
    ensures
        r is Some <==> node_entity_end(input@, pos as int) is Some,
        r is Some ==> {
            &&& r.unwrap().0 == node_entity_end(input@, pos as int).unwrap()
            &&& pos < r.unwrap().0 <= input@.len()
            &&& node_entity_at(input@, pos as int, r.unwrap().1)
            &&& node_entity_raw(r.unwrap().1) == input@.subrange(pos as int, r.unwrap().0 as int)
        },
{
    let n = input.len();
    let ghost s = input@;
    if pos < n && is_space(input[pos]) {
        let mut i: usize = pos + 1;
        while i < n && is_space(input[i])
            invariant
                n == s.len(),
                s == input@,
                pos < i <= n,
                space_run_end(s, i as int) == space_run_end(s, pos + 1),
            decreases n - i,
        {
            i = i + 1;
        }
        return Some((i, KdlNodeEntity::Whitespace(slice_text(input, pos, i))));
    }
    if let Some(e) = multi_line_comment(input, pos) {
        let c = KdlComment::MultiLine(slice_text(input, pos, e));
        return Some((e, KdlNodeEntity::Comment(c)));
    }
    if let Some(found) = property(input, pos) {
        return Some(found);
    }
    let (a, ty) = annotation(input, pos);
    match value(input, a) {
        Some((end, v)) => {
            proof {
                assert(s.subrange(pos as int, a as int) + s.subrange(a as int, end as int)
                    =~= s.subrange(pos as int, end as int));
            }
            Some((end, KdlNodeEntity::Value(ty, v)))
        },
        None => None,
    }
}

/// Reads a node's line from `pos`: its members in source order, and where
/// the line ends.
pub fn node_line(input: &[char], pos: usize) -> (r: (usize, Vec<KdlNodeEntity>))
    requires
        pos <= input@.len(),
    ensures
        r.0 == node_line_end(input@, pos as int),
        pos <= r.0 <= input@.len(),
        node_entities_raw(r.1, r.1.len() as nat) == input@.subrange(pos as int, r.0 as int),
        line_at(input@, pos as int, r.1),
{
    let ghost s = input@;
    let mut line: Vec<KdlNodeEntity> = Vec::new();
    let mut i: usize = pos;
    proof {
        assert(s.subrange(pos as int, pos as int) =~= Seq::<char>::empty());
    }
    loop
        invariant
            s == input@,
            pos <= i <= s.len(),
            node_line_end(s, i as int) == node_line_end(s, pos as int),
            node_entities_raw(line, line.len() as nat) == s.subrange(pos as int, i as int),
            i == member_start(s, pos as int, line.len() as nat),
            forall|k: int|
                0 <= k < line.len() ==> node_entity_at(
                    s,
                    member_start(s, pos as int, k as nat),
                    #[trigger] line@[k],
                ),
        decreases s.len() - i,
    {
        match node_entity(input, i) {
            Some((e, member)) => {
                let ghost before = line;
                let ghost added = member;
                line.push(member);
                proof {
                    lemma_line_step(s, pos as int, before, line, e as int, added);
                    assert(s.subrange(pos as int, i as int) + s.subrange(i as int, e as int)
                        =~= s.subrange(pos as int, e as int));
                }
                i = e;
            },
            None => {
                return (i, line);
            },
        }
    }
}

/// The text of a node is the text it was read from: annotation, name,
/// line and block, each the part of `s` between its two positions.
proof fn lemma_node_raw(
    s: Seq<char>,
    pos: int,
    a: int,
    p: int,
    q: int,
    end: int,
    t: Option<KdlType>,
    n: KdlNode,
)
    requires
        0 <= pos <= a <= p <= q <= end <= s.len(),
        type_raw(t) == s.subrange(pos, a),
        n.name@ == s.subrange(a, p),
        node_entities_raw(n.entities, n.entities.len() as nat) == s.subrange(p, q),
        match n.children {
            Some(c) => q + 2 <= end && s[q] == '{' && s[end - 1] == '}' && entities_raw(
                c,
                c.len() as nat,
            ) == s.subrange(q + 1, end - 1),
            None => end == q,
        },
    ensures
        type_raw(t) + node_raw(n) == s.subrange(pos, end),
{
    let tail = match n.children {
        Some(c) => seq!['{'] + entities_raw(c, c.len() as nat) + seq!['}'],
        None => Seq::empty(),
    };
    assert(tail =~= s.subrange(q, end));
    assert(node_raw(n) == n.name@ + node_entities_raw(n.entities, n.entities.len() as nat) + tail);
    assert(node_raw(n) =~= s.subrange(a, end));
    assert(type_raw(t) + node_raw(n) =~= s.subrange(pos, end));
}

/// Reads a node at `pos`: its end, its type annotation, and the node.
pub fn node(input: &[char], pos: usize) -> (r: Option<(usize, Option<KdlType>, KdlNode)>)
    ensures
        r is Some <==> node_end(input@, pos as int) is Some,
        r is Some ==> {
            &&& r.unwrap().0 == node_end(input@, pos as int).unwrap()
            &&& pos < r.unwrap().0 <= input@.len()
            &&& node_at(input@, pos as int, r.unwrap().1, r.unwrap().2)
            &&& type_raw(r.unwrap().1) + node_raw(r.unwrap().2) == input@.subrange(
                pos as int,
                r.unwrap().0 as int,
            )
        },
    decreases input@.len() - pos, 0int,
{
    let n = input.len();
    let ghost s = input@;
    let (a, ty) = annotation(input, pos);
    match identifier(input, a) {
        Some(p) => {
            let name = slice_text(input, a, p);
            let (q, line) = node_line(input, p);
            let mut end: usize = q;
            let mut children: Option<Vec<KdlEntity>> = None;
            if q < n && input[q] == '{' {
                let (r, inner) = entities(input, q + 1);
                if r < n && input[r] == '}' {
                    end = r + 1;
                    children = Some(inner);
                }
            }
            let made = KdlNode { name, entities: line, children };
            proof {
                lemma_node_raw(s, pos as int, a as int, p as int, q as int, end as int, ty, made);
            }
            Some((end, ty, made))
        },
        None => None,
    }
}

/// Reads a comment at `pos`: single-line, multi-line, or the marker `/-`
/// with the one node behind it.
pub fn comment(input: &[char], pos: usize) -> (r: Option<(usize, KdlComment)>)
    ensures
        r is Some <==> comment_end(input@, pos as int) is Some,
        r is Some ==> {
            &&& r.unwrap().0 == comment_end(input@, pos as int).unwrap()
            &&& pos < r.unwrap().0 <= input@.len()
            &&& comment_at(input@, pos as int, r.unwrap().1)
            &&& comment_raw(r.unwrap().1) == input@.subrange(pos as int, r.unwrap().0 as int)
        },
    decreases input@.len() - pos, 1int,
{
    let n = input.len();
    if let Some(found) = plain_comment(input, pos) {
        return Some(found);
    }
    if has_pair(input, pos, '/', '-') {
        match node(input, pos + 2) {
            Some((end, _, _)) => Some((end, KdlComment::SlashDash(slice_text(input, pos, end)))),
            None => None,
        }
    } else {
        None
    }
}

/// Reads one entity at `pos`.
pub fn entity(input: &[char], pos: usize) -> (r: Option<(usize, KdlEntity)>)
    ensures
        r is Some <==> entity_end(input@, pos as int) is Some,
        r is Some ==> {
            &&& r.unwrap().0 == entity_end(input@, pos as int).unwrap()
            &&& pos < r.unwrap().0 <= input@.len()
            &&& entity_at(input@, pos as int, r.unwrap().1)
            &&& entity_raw(r.unwrap().1) == input@.subrange(pos as int, r.unwrap().0 as int)
        },
    decreases input@.len() - pos, 2int,
{
    if let Some((end, text)) = whitespace(input, pos) {
        return Some((end, KdlEntity::Whitespace(text)));
    }
    if let Some((end, c)) = comment(input, pos) {
        return Some((end, KdlEntity::Comment(c)));
    }
    match node(input, pos) {
        Some((end, ty, made)) => Some((end, KdlEntity::Node(ty, made))),
        None => None,
    }
}

/// Reads entities from `pos` until none stands: where they end, and the
/// entities in source order.
pub fn entities(input: &[char], pos: usize) -> (r: (usize, Vec<KdlEntity>))
    requires
        pos <= input@.len(),
    ensures
        r.0 == entities_end(input@, pos as int),
        pos <= r.0 <= input@.len(),
        entities_raw(r.1, r.1.len() as nat) == input@.subrange(pos as int, r.0 as int),
        entities_at(input@, pos as int, r.1),
    decreases input@.len() - pos, 3int,
{
    let ghost s = input@;
    let mut all: Vec<KdlEntity> = Vec::new();
    let mut i: usize = pos;
    proof {
        assert(s.subrange(pos as int, pos as int) =~= Seq::<char>::empty());
    }
    loop
        invariant
            s == input@,
            pos <= i <= s.len(),
            entities_end(s, i as int) == entities_end(s, pos as int),
            entities_raw(all, all.len() as nat) == s.subrange(pos as int, i as int),
            i == entity_start(s, pos as int, all.len() as nat),
            forall|k: int|
                0 <= k < all.len() ==> entity_at(s, entity_start(s, pos as int, k as nat), #[trigger] all@[k]),
        decreases s.len() - i,
    {
        match entity(input, i) {
            Some((e, found)) => {
                let ghost before = all;
                let ghost added = found;
                all.push(found);
                proof {
                    lemma_entities_step(s, pos as int, before, all, e as int, added);
                    assert(s.subrange(pos as int, i as int) + s.subrange(i as int, e as int)
                        =~= s.subrange(pos as int, e as int));
                }
                i = e;
            },
            None => {
                return (i, all);
            },
        }
    }
}

} // verus!
