use kdl::comment::{multi_line_comment, single_line_comment};
use kdl::model::{KdlComment, KdlString, KdlValue};
use kdl::parser::{comment, whitespace};
use kdl::text::chars_of;
use kdl::value::{boolean, character, escape, identifier, null, number, string, unicode, value};

#[test]
fn basic() {
    let input = chars_of(" \t\n\r");
    assert_eq!(whitespace(&input, 0), Some((4, String::from(" \t\n\r"))));
}

#[test]
fn single_line() {
    let input = chars_of("// Hello world");
    assert_eq!(
        comment(&input, 0),
        Some((14, KdlComment::SingleLine("// Hello world".into())))
    );
}

#[test]
fn multi_line() {
    let input = chars_of("/* Hello world */");
    assert_eq!(
        comment(&input, 0),
        Some((17, KdlComment::MultiLine("/* Hello world */".into())))
    );
}

#[test]
fn boolean_val() {
    assert_eq!(boolean(&chars_of("true"), 0), Some((4, KdlValue::Bool(true))));
    assert_eq!(boolean(&chars_of("false"), 0), Some((5, KdlValue::Bool(false))));
}

#[test]
fn null_val() {
    assert_eq!(null(&chars_of("null"), 0), Some((4, KdlValue::Null)));
}

#[test]
fn string_val() {
    let source = r#""Hello \n\u{2020}world""#;
    let input = chars_of(source);
    assert_eq!(
        string(&input, 0),
        Some((
            input.len(),
            KdlValue::String(KdlString {
                original: source.into(),
                value: "Hello \n\u{2020}world".into()
            })
        ))
    );
}

#[test]
fn whitespace_stops_at_text() {
    let input = chars_of("\u{3000}\r\n x");
    assert_eq!(whitespace(&input, 0), Some((4, String::from("\u{3000}\r\n "))));
    assert_eq!(whitespace(&input, 4), None);
    assert_eq!(whitespace(&input, 9), None);
}

#[test]
fn single_line_comment_takes_its_newline() {
    let input = chars_of("// a\r\nb");
    assert_eq!(single_line_comment(&input, 0), Some(6));
    assert_eq!(single_line_comment(&chars_of("/ a"), 0), None);
}

#[test]
fn nested_comment_is_one_comment() {
    let source = "/* a /* b */ c */";
    let input = chars_of(source);
    assert_eq!(multi_line_comment(&input, 0), Some(input.len()));
    assert_eq!(
        comment(&input, 0),
        Some((input.len(), KdlComment::MultiLine(source.into())))
    );
}

#[test]
fn comment_ends_at_first_close() {
    let input = chars_of("/* a */ c */");
    assert_eq!(
        comment(&input, 0),
        Some((7, KdlComment::MultiLine("/* a */".into())))
    );
}

#[test]
fn unbalanced_comment_fails() {
    assert_eq!(multi_line_comment(&chars_of("/* a /* b */"), 0), None);
    assert_eq!(multi_line_comment(&chars_of("/*"), 0), None);
    assert_eq!(multi_line_comment(&chars_of("/*/"), 0), None);
    assert_eq!(multi_line_comment(&chars_of("/**/"), 0), Some(4));
}

#[test]
fn string_escapes_decode() {
    let source = "\"a\\n\\tb\"";
    let input = chars_of(source);
    assert_eq!(
        string(&input, 0),
        Some((
            8,
            KdlValue::String(KdlString {
                original: source.into(),
                value: "a\n\tb".into()
            })
        ))
    );
}

#[test]
fn every_single_escape() {
    let source = r#""\"\\\/\b\f\n\r\t""#;
    let input = chars_of(source);
    assert_eq!(
        string(&input, 0),
        Some((
            input.len(),
            KdlValue::String(KdlString {
                original: source.into(),
                value: "\"\\/\u{08}\u{0C}\n\r\t".into()
            })
        ))
    );
}

#[test]
fn bad_strings_fail() {
    assert_eq!(string(&chars_of("\"abc"), 0), None);
    assert_eq!(string(&chars_of("\"a\\qb\""), 0), None);
    assert_eq!(string(&chars_of("\"\\u{D800}\""), 0), None);
    assert_eq!(string(&chars_of("\"\\u{110000}\""), 0), None);
    assert_eq!(string(&chars_of("\"\\u{}\""), 0), None);
    assert_eq!(string(&chars_of("\"\\u{1234567}\""), 0), None);
    assert_eq!(string(&chars_of("abc"), 0), None);
}

#[test]
fn code_points() {
    assert_eq!(unicode(&chars_of("2020}"), 0), Some((4, '\u{2020}')));
    assert_eq!(unicode(&chars_of("10FFFF"), 0), Some((6, '\u{10FFFF}')));
    assert_eq!(unicode(&chars_of("41414141"), 0), None);
    assert_eq!(unicode(&chars_of("fg"), 0), Some((1, '\u{f}')));
    assert_eq!(unicode(&chars_of("DFFF"), 0), None);
    assert_eq!(unicode(&chars_of("x"), 0), None);
    assert_eq!(escape(&chars_of("u{48}"), 0), Some((5, 'H')));
    assert_eq!(escape(&chars_of("u{48"), 0), None);
    assert_eq!(escape(&chars_of("n"), 0), Some((1, '\n')));
    assert_eq!(character(&chars_of("\\t"), 0), Some((2, '\t')));
    assert_eq!(character(&chars_of("x"), 0), Some((1, 'x')));
    assert_eq!(character(&chars_of("\""), 0), None);
}

#[test]
fn numbers_keep_their_base() {
    assert_eq!(number(&chars_of("0x1F_a "), 0), Some((16, 6)));
    assert_eq!(number(&chars_of("-0b101"), 0), Some((2, 6)));
    assert_eq!(number(&chars_of("0o17"), 0), Some((8, 4)));
    assert_eq!(number(&chars_of("+12_3x"), 0), Some((10, 5)));
    assert_eq!(number(&chars_of("0xZ"), 0), Some((10, 1)));
    assert_eq!(number(&chars_of("_1"), 0), None);
    assert_eq!(number(&chars_of("-"), 0), None);
    assert_eq!(
        value(&chars_of("0x1F_a"), 0),
        Some((6, KdlValue::Base16("0x1F_a".into())))
    );
    assert_eq!(value(&chars_of("-7"), 0), Some((2, KdlValue::Base10("-7".into()))));
    assert_eq!(value(&chars_of("0b1"), 0), Some((3, KdlValue::Base2("0b1".into()))));
    assert_eq!(value(&chars_of("0o7"), 0), Some((3, KdlValue::Base8("0o7".into()))));
    assert_eq!(value(&chars_of("nul"), 0), None);
}

#[test]
fn identifiers() {
    assert_eq!(identifier(&chars_of("foo-bar baz"), 0), Some(7));
    assert_eq!(identifier(&chars_of("1abc"), 0), None);
    assert_eq!(identifier(&chars_of("a=b"), 0), Some(1));
    assert_eq!(identifier(&chars_of("{"), 0), None);
    assert_eq!(identifier(&chars_of(""), 0), None);
}
