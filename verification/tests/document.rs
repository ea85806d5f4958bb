use kdl::document::{KdlError, KdlErrorKind};
use kdl::model::{
    KdlComment, KdlDocument, KdlEntity, KdlNode, KdlNodeEntity, KdlProperty, KdlString, KdlType,
    KdlValue,
};
use kdl::position::{calculate_line_column, count_leading_lines, strip_trailing_newline};
use kdl::text::{chars_of, slice_text};

#[test]
fn empty_text_is_an_empty_document() {
    assert_eq!(KdlDocument::parse(""), Ok(KdlDocument(vec![])));
}

#[test]
fn slash_dash_disables_one_whole_node() {
    let source = "/-foo 1 2 { bar }";
    assert_eq!(
        KdlDocument::parse(source),
        Ok(KdlDocument(vec![KdlEntity::Comment(KdlComment::SlashDash(
            source.into()
        ))]))
    );
}

#[test]
fn node_with_line_and_children() {
    let parsed = KdlDocument::parse("(t)foo 1 \"k\"=(u)true /* c */ a=\"x\\n\" {\n  bar\n}\n");
    let bar = KdlNode {
        name: "bar".into(),
        entities: vec![],
        children: None,
    };
    let foo = KdlNode {
        name: "foo".into(),
        entities: vec![
            KdlNodeEntity::Whitespace(" ".into()),
            KdlNodeEntity::Value(None, KdlValue::Base10("1".into())),
            KdlNodeEntity::Whitespace(" ".into()),
            KdlNodeEntity::Property(
                Some(KdlType("u".into())),
                KdlProperty {
                    quoted: true,
                    name: "k".into(),
                    value: KdlValue::Bool(true),
                },
            ),
            KdlNodeEntity::Whitespace(" ".into()),
            KdlNodeEntity::Comment(KdlComment::MultiLine("/* c */".into())),
            KdlNodeEntity::Whitespace(" ".into()),
            KdlNodeEntity::Property(
                None,
                KdlProperty {
                    quoted: false,
                    name: "a".into(),
                    value: KdlValue::String(KdlString {
                        value: "x\n".into(),
                        original: "\"x\\n\"".into(),
                    }),
                },
            ),
            KdlNodeEntity::Whitespace(" ".into()),
        ],
        children: Some(vec![
            KdlEntity::Whitespace("\n  ".into()),
            KdlEntity::Node(None, bar),
            KdlEntity::Whitespace("\n".into()),
        ]),
    };
    assert_eq!(
        parsed,
        Ok(KdlDocument(vec![
            KdlEntity::Node(Some(KdlType("t".into())), foo),
            KdlEntity::Whitespace("\n".into()),
        ]))
    );
}

#[test]
fn empty_block_differs_from_no_block() {
    let with_block = KdlDocument::parse("a{}");
    let without = KdlDocument::parse("a");
    assert_eq!(
        with_block,
        Ok(KdlDocument(vec![KdlEntity::Node(
            None,
            KdlNode {
                name: "a".into(),
                entities: vec![],
                children: Some(vec![]),
            }
        )]))
    );
    assert_eq!(
        without,
        Ok(KdlDocument(vec![KdlEntity::Node(
            None,
            KdlNode {
                name: "a".into(),
                entities: vec![],
                children: None,
            }
        )]))
    );
}

#[test]
fn entities_spell_the_text_back() {
    let source = "// top\r\nfoo 0x10 /* x /* y */ */ b=null {\n\t/-gone 1\n\tkept\u{2028}}\n";
    let doc = KdlDocument::parse(source).unwrap();
    let mut out = String::new();
    for entity in &doc.0 {
        match entity {
            KdlEntity::Whitespace(t) => out.push_str(t),
            KdlEntity::Comment(KdlComment::SingleLine(t)) => out.push_str(t),
            KdlEntity::Comment(KdlComment::MultiLine(t)) => out.push_str(t),
            KdlEntity::Comment(KdlComment::SlashDash(t)) => out.push_str(t),
            KdlEntity::Node(_, node) => {
                out.push_str(&node.name);
                assert_eq!(node.entities.len(), 7);
                out.push_str(" 0x10 /* x /* y */ */ b=null ");
                assert_eq!(
                    node.children,
                    Some(vec![
                        KdlEntity::Whitespace("\n\t".into()),
                        KdlEntity::Comment(KdlComment::SlashDash("/-gone 1".into())),
                        KdlEntity::Whitespace("\n\t".into()),
                        KdlEntity::Node(
                            None,
                            KdlNode {
                                name: "kept".into(),
                                entities: vec![],
                                children: None
                            }
                        ),
                        KdlEntity::Whitespace("\u{2028}".into()),
                    ])
                );
                out.push_str("{\n\t/-gone 1\n\tkept\u{2028}}");
            }
        }
    }
    assert_eq!(out, source);
}

#[test]
fn error_on_an_unterminated_third_line() {
    let source = "a\nb\nfoo \"bar";
    assert_eq!(
        KdlDocument::parse(source),
        Err(KdlError {
            input: source.into(),
            offset: 8,
            line: 3,
            column: 5,
            kind: KdlErrorKind::Other,
        })
    );
}

#[test]
fn error_offset_counts_characters() {
    let source = "\u{00e9}t\u{00e9}\r\n\u{3000}}";
    assert_eq!(
        KdlDocument::parse(source),
        Err(KdlError {
            input: source.into(),
            offset: 6,
            line: 2,
            column: 2,
            kind: KdlErrorKind::Other,
        })
    );
}

#[test]
fn error_kinds() {
    let open = KdlDocument::parse("a\n/* never closed").unwrap_err();
    assert_eq!(open.kind, KdlErrorKind::UnterminatedComment);
    assert_eq!((open.offset, open.line, open.column), (2, 1, 2));
    let dash = KdlDocument::parse("/- foo").unwrap_err();
    assert_eq!(dash.kind, KdlErrorKind::ExpectedNode);
    assert_eq!((dash.offset, dash.line, dash.column), (0, 1, 1));
    let other = KdlDocument::parse("a \"\\u{D800}\"").unwrap_err();
    assert_eq!(other.kind, KdlErrorKind::Other);
    assert_eq!(other.offset, 2);
}

#[test]
fn unclosed_block_is_a_failure() {
    let e = KdlDocument::parse("a {\n b\n").unwrap_err();
    assert_eq!((e.offset, e.line, e.column), (2, 1, 3));
}

#[test]
fn line_and_column() {
    assert_eq!(calculate_line_column(&chars_of("")), (1, 1));
    assert_eq!(calculate_line_column(&chars_of("abc")), (1, 4));
    assert_eq!(calculate_line_column(&chars_of("a\r\n")), (1, 2));
    assert_eq!(calculate_line_column(&chars_of("a\nb")), (2, 2));
    assert_eq!(calculate_line_column(&chars_of("a\n\n")), (2, 1));
    assert_eq!(calculate_line_column(&chars_of("a\r\r\nbc")), (3, 3));
    assert_eq!(calculate_line_column(&chars_of("x\u{2028}y\u{0085}\u{000C}\u{2029}zz")), (5, 3));
    assert_eq!(calculate_line_column(&chars_of("\u{00e9}\u{00e9}")), (1, 3));
}

#[test]
fn lines_match_naive_splitting() {
    let text = "one\r\ntwo\rthree\nfour\u{0085}five\u{000C}six\u{2028}seven\u{2029}eight";
    let unified = text.replace("\r\n", "\n");
    let breaks = unified
        .chars()
        .filter(|c| matches!(c, '\r' | '\n' | '\u{0085}' | '\u{000C}' | '\u{2028}' | '\u{2029}'))
        .count();
    assert_eq!(breaks, 7);
    assert_eq!(calculate_line_column(&chars_of(text)), (breaks + 1, 6));
}

#[test]
fn leading_lines_and_trailing_newline() {
    let input = chars_of("a\nbc\r\n");
    assert_eq!(count_leading_lines(&input), (2, 1));
    assert_eq!(strip_trailing_newline(&input, 2), 4);
    assert_eq!(strip_trailing_newline(&chars_of("ab"), 0), 2);
    assert_eq!(strip_trailing_newline(&chars_of("\n"), 0), 0);
    assert_eq!(strip_trailing_newline(&chars_of("a\n\r"), 0), 2);
    assert_eq!(count_leading_lines(&chars_of("one line")), (0, 0));
}

#[test]
fn text_conversions() {
    let input = chars_of("h\u{00e9}llo");
    assert_eq!(input, vec!['h', '\u{00e9}', 'l', 'l', 'o']);
    assert_eq!(slice_text(&input, 1, 4), String::from("\u{00e9}ll"));
    assert_eq!(slice_text(&input, 2, 2), String::new());
}

#[test]
fn parse_from_the_crate_root() {
    let doc = kdl::KdlDocument::parse("a 1\n").unwrap();
    assert_eq!(doc.0.len(), 2);
    let e: kdl::KdlError = kdl::KdlDocument::parse("a 1\n)").unwrap_err();
    assert_eq!((e.offset, e.line, e.column), (4, 1, 4));
    assert_eq!(e.kind, kdl::KdlErrorKind::Other);
}
