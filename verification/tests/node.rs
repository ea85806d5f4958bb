use kdl::document::{document, failure, KdlErrorKind};
use kdl::lexical::{newline, skip_blank, unicode_space};
use kdl::model::{
    KdlComment, KdlDocument, KdlEntity, KdlNode, KdlNodeEntity, KdlProperty, KdlType, KdlValue,
};
use kdl::parser::{annotation, entities, entity, key, node, node_entity, node_line, property};
use kdl::text::chars_of;

#[test]
fn newline_takes_the_pair_first() {
    let input = chars_of("\r\n\n\rx\u{0085}");
    assert_eq!(newline(&input, 0), Some(2));
    assert_eq!(newline(&input, 1), Some(2));
    assert_eq!(newline(&input, 2), Some(3));
    assert_eq!(newline(&input, 3), Some(4));
    assert_eq!(newline(&input, 4), None);
    assert_eq!(newline(&input, 5), Some(6));
    assert_eq!(newline(&input, 6), None);
}

#[test]
fn spaces_exclude_newlines() {
    let input = chars_of(" \t\u{FEFF}\u{00A0}\u{1680}\u{2000}\u{200A}\u{202F}\u{205F}\u{3000}\n\u{200B}");
    for i in 0..10 {
        assert_eq!(unicode_space(&input, i), Some(i + 1));
    }
    assert_eq!(unicode_space(&input, 10), None);
    assert_eq!(unicode_space(&input, 11), None);
    assert_eq!(unicode_space(&input, 12), None);
    assert_eq!(skip_blank(&input, 0), 11);
    assert_eq!(skip_blank(&input, 11), 11);
}

#[test]
fn annotation_is_optional() {
    assert_eq!(
        annotation(&chars_of("(u8)1"), 0),
        (4, Some(KdlType("u8".into())))
    );
    assert_eq!(annotation(&chars_of("(u8 1"), 0), (0, None));
    assert_eq!(annotation(&chars_of("()1"), 0), (0, None));
    assert_eq!(annotation(&chars_of("x"), 0), (0, None));
}

#[test]
fn keys_plain_and_quoted() {
    assert_eq!(key(&chars_of("name=1"), 0), Some((4, false, "name".into())));
    assert_eq!(
        key(&chars_of("\"a b\"=1"), 0),
        Some((5, true, "a b".into()))
    );
    assert_eq!(key(&chars_of("\"\"=1"), 0), Some((2, true, String::new())));
    assert_eq!(key(&chars_of("\"a\\nb\"=1"), 0), None);
    assert_eq!(key(&chars_of("\"open"), 0), None);
    assert_eq!(key(&chars_of("=1"), 0), None);
}

#[test]
fn property_comes_before_value() {
    assert_eq!(
        property(&chars_of("true=false"), 0),
        Some((
            10,
            KdlNodeEntity::Property(
                None,
                KdlProperty {
                    quoted: false,
                    name: "true".into(),
                    value: KdlValue::Bool(false)
                }
            )
        ))
    );
    assert_eq!(
        node_entity(&chars_of("\"k\"=(t)0b1"), 0),
        Some((
            10,
            KdlNodeEntity::Property(
                Some(KdlType("t".into())),
                KdlProperty {
                    quoted: true,
                    name: "k".into(),
                    value: KdlValue::Base2("0b1".into())
                }
            )
        ))
    );
    assert_eq!(property(&chars_of("a = 1"), 0), None);
    assert_eq!(property(&chars_of("a=b"), 0), None);
    assert_eq!(
        node_entity(&chars_of("\"k\" =1"), 0),
        Some((
            3,
            KdlNodeEntity::Value(
                None,
                KdlValue::String(kdl::model::KdlString {
                    value: "k".into(),
                    original: "\"k\"".into()
                })
            )
        ))
    );
}

#[test]
fn line_members_in_source_order() {
    let input = chars_of(" (i)-3\t/**/null\nrest");
    assert_eq!(
        node_line(&input, 0),
        (
            15,
            vec![
                KdlNodeEntity::Whitespace(" ".into()),
                KdlNodeEntity::Value(Some(KdlType("i".into())), KdlValue::Base10("-3".into())),
                KdlNodeEntity::Whitespace("\t".into()),
                KdlNodeEntity::Comment(KdlComment::MultiLine("/**/".into())),
                KdlNodeEntity::Value(None, KdlValue::Null),
            ]
        )
    );
    assert_eq!(node_line(&input, 15), (15, vec![]));
    assert_eq!(node_entity(&input, 15), None);
}

#[test]
fn node_keeps_an_unclosed_block_out() {
    let input = chars_of("a {b");
    assert_eq!(
        node(&input, 0),
        Some((
            2,
            None,
            KdlNode {
                name: "a".into(),
                entities: vec![KdlNodeEntity::Whitespace(" ".into())],
                children: None
            }
        ))
    );
    assert_eq!(node(&chars_of("1a"), 0), None);
    assert_eq!(node(&chars_of("(t)"), 0), None);
}

#[test]
fn entity_order_of_alternatives() {
    assert_eq!(
        entity(&chars_of("/-a//b"), 0),
        Some((3, KdlEntity::Comment(KdlComment::SlashDash("/-a".into()))))
    );
    assert_eq!(
        entity(&chars_of("//-a\nb"), 0),
        Some((5, KdlEntity::Comment(KdlComment::SingleLine("//-a\n".into()))))
    );
    assert_eq!(
        entity(&chars_of("\n a"), 0),
        Some((2, KdlEntity::Whitespace("\n ".into())))
    );
    assert_eq!(entity(&chars_of("}"), 0), None);
    assert_eq!(entity(&chars_of(""), 0), None);
}

#[test]
fn entities_stop_where_none_stands() {
    let input = chars_of("a\n}b");
    let (end, found) = entities(&input, 0);
    assert_eq!(end, 2);
    assert_eq!(found.len(), 2);
    let (end, doc) = document(&input);
    assert_eq!(end, 2);
    assert_eq!(doc, KdlDocument(found));
}

#[test]
fn failure_reports_the_place() {
    let input = chars_of("a\r\n\u{00e9} /* x");
    let e = failure(&input, 5);
    assert_eq!(e.input, "a\r\n\u{00e9} /* x");
    assert_eq!((e.offset, e.line, e.column), (5, 2, 3));
    assert_eq!(e.kind, KdlErrorKind::UnterminatedComment);
}
