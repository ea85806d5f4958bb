use kdl::model::{
    KdlComment, KdlDocument, KdlEntity, KdlNode, KdlNodeEntity, KdlType, KdlValue,
};
use kdl::text::chars_of;
use kdl::value::string;

fn spell_type(out: &mut String, ty: &Option<KdlType>) {
    if let Some(KdlType(name)) = ty {
        out.push('(');
        out.push_str(name);
        out.push(')');
    }
}

fn spell_comment(out: &mut String, c: &KdlComment) {
    match c {
        KdlComment::SingleLine(t) | KdlComment::MultiLine(t) | KdlComment::SlashDash(t) => {
            out.push_str(t)
        }
    }
}

fn spell_value(out: &mut String, v: &KdlValue) {
    match v {
        KdlValue::RawString(s) | KdlValue::String(s) => out.push_str(&s.original),
        KdlValue::Base2(t) | KdlValue::Base8(t) | KdlValue::Base10(t) | KdlValue::Base16(t) => {
            out.push_str(t)
        }
        KdlValue::Bool(true) => out.push_str("true"),
        KdlValue::Bool(false) => out.push_str("false"),
        KdlValue::Null => out.push_str("null"),
    }
}

fn spell_node(out: &mut String, node: &KdlNode) {
    out.push_str(&node.name);
    for member in &node.entities {
        match member {
            KdlNodeEntity::Whitespace(t) => out.push_str(t),
            KdlNodeEntity::Comment(c) => spell_comment(out, c),
            KdlNodeEntity::Value(ty, v) => {
                spell_type(out, ty);
                spell_value(out, v);
            }
            KdlNodeEntity::Property(ty, p) => {
                if p.quoted {
                    out.push('"');
                    out.push_str(&p.name);
                    out.push('"');
                } else {
                    out.push_str(&p.name);
                }
                out.push('=');
                spell_type(out, ty);
                spell_value(out, &p.value);
            }
            KdlNodeEntity::Node(ty, inner) => {
                spell_type(out, ty);
                spell_node(out, inner);
            }
        }
    }
    if let Some(children) = &node.children {
        out.push('{');
        spell_entities(out, children);
        out.push('}');
    }
}

fn spell_entities(out: &mut String, entities: &[KdlEntity]) {
    for entity in entities {
        match entity {
            KdlEntity::Whitespace(t) => out.push_str(t),
            KdlEntity::Comment(c) => spell_comment(out, c),
            KdlEntity::Node(ty, node) => {
                spell_type(out, ty);
                spell_node(out, node);
            }
        }
    }
}

#[test]
fn documents_spell_their_source_back() {
    let sources = [
        "",
        "\u{FEFF}\r\n",
        "node",
        "(ty)node (u8)1 \"two\" key=0x2F \"quoted key\"=(t)null -0b1_0 +0o7 true false\n",
        "a {\n  b 1 {\n    c \"x\\u{1F600}\\\\\"\n  }\n  /-d 2 { e }\n}\n// done",
        "/* one /* two /* three */ */ */ x/**/ y\u{2029}",
        "a{}b{ }c{\n}",
        "\u{00e9}t\u{00e9} \u{3000}\"\u{00e9}\"\u{0085}",
    ];
    for source in sources {
        let doc = KdlDocument::parse(source).unwrap();
        let mut out = String::new();
        spell_entities(&mut out, &doc.0);
        assert_eq!(out, source);
    }
}

#[test]
fn decoding_a_spelling_again_gives_the_same_value() {
    let sources = [
        "\"\"",
        "\"plain\"",
        "\"a\\n\\tb\"",
        "\"\\u{48}\\u{000041}\\/\\\\\\\"\"",
        "\"\u{00e9}\\u{e9}\\r\\b\\f\"",
    ];
    for source in sources {
        let input = chars_of(source);
        let (end, first) = string(&input, 0).unwrap();
        assert_eq!(end, input.len());
        let (value, original) = match first {
            KdlValue::String(s) => (s.value, s.original),
            _ => unreachable!(),
        };
        assert_eq!(original, source);
        let again = chars_of(&original);
        match string(&again, 0) {
            Some((_, KdlValue::String(s))) => {
                assert_eq!(s.value, value);
                assert_eq!(s.original, original);
            }
            _ => panic!("the spelling did not decode"),
        }
    }
}

#[test]
fn nesting_stays_balanced() {
    let depth = 200;
    let mut source = String::new();
    for _ in 0..depth {
        source.push_str("/* ");
    }
    for _ in 0..depth {
        source.push_str("*/");
    }
    let doc = KdlDocument::parse(&source).unwrap();
    assert_eq!(
        doc,
        KdlDocument(vec![KdlEntity::Comment(KdlComment::MultiLine(source.clone()))])
    );
    source.pop();
    assert!(KdlDocument::parse(&source).is_err());
}
