use sixu::cst_parser::{parse_tolerant, FloatTable};
use sixu::fingerprint::BlockFingerprint;
use sixu::format::{
    Argument, Attribute, Block, Child, ChildContent, CommandLine, LeadingText, Literal, RValue,
    TailingText, Text,
};

fn text_child(value: &str) -> Child {
    Child {
        attributes: Vec::new(),
        content: ChildContent::TextLine(
            LeadingText::Absent,
            Text::Text(value.to_string()),
            TailingText::Absent,
        ),
    }
}

fn command_child(command: &str, arguments: Vec<(&str, RValue)>) -> Child {
    Child {
        attributes: Vec::new(),
        content: ChildContent::CommandLine(CommandLine {
            command: command.to_string(),
            arguments: arguments
                .into_iter()
                .map(|(name, value)| Argument {
                    name: name.to_string(),
                    value,
                })
                .collect(),
        }),
    }
}

fn float(bits: u64) -> RValue {
    RValue::Literal(Literal::Float(bits))
}

#[test]
fn fingerprint_changes_when_children_order_changes() {
    let first = Block {
        children: vec![text_child("first"), text_child("second")],
    };
    let second = Block {
        children: vec![text_child("second"), text_child("first")],
    };

    assert_ne!(first.fingerprint(), second.fingerprint());
}

#[test]
fn fingerprint_ignores_attribute_order() {
    let first = Block {
        children: vec![Child {
            attributes: vec![
                Attribute {
                    keyword: "if".to_string(),
                    condition: Some("a".to_string()),
                },
                Attribute {
                    keyword: "while".to_string(),
                    condition: Some("b".to_string()),
                },
            ],
            content: ChildContent::Block(Block { children: vec![] }),
        }],
    };
    let second = Block {
        children: vec![Child {
            attributes: vec![
                Attribute {
                    keyword: "while".to_string(),
                    condition: Some("b".to_string()),
                },
                Attribute {
                    keyword: "if".to_string(),
                    condition: Some("a".to_string()),
                },
            ],
            content: ChildContent::Block(Block { children: vec![] }),
        }],
    };

    assert_eq!(first.fingerprint(), second.fingerprint());
}

#[test]
fn fingerprint_ignores_argument_order() {
    let first = Block {
        children: vec![command_child(
            "say",
            vec![
                ("speaker", RValue::Literal(Literal::String("alice".to_string()))),
                ("line", RValue::Literal(Literal::String("hello".to_string()))),
            ],
        )],
    };
    let second = Block {
        children: vec![command_child(
            "say",
            vec![
                ("line", RValue::Literal(Literal::String("hello".to_string()))),
                ("speaker", RValue::Literal(Literal::String("alice".to_string()))),
            ],
        )],
    };

    assert_eq!(first.fingerprint(), second.fingerprint());
}

#[test]
fn fingerprint_ignores_object_insertion_order() {
    let first = Block {
        children: vec![command_child(
            "config",
            vec![(
                "value",
                RValue::Literal(Literal::Object(vec![
                    ("foo".to_string(), Literal::Integer(1)),
                    ("bar".to_string(), Literal::Integer(2)),
                ])),
            )],
        )],
    };
    let second = Block {
        children: vec![command_child(
            "config",
            vec![(
                "value",
                RValue::Literal(Literal::Object(vec![
                    ("bar".to_string(), Literal::Integer(2)),
                    ("foo".to_string(), Literal::Integer(1)),
                ])),
            )],
        )],
    };

    assert_eq!(first.fingerprint(), second.fingerprint());
}

#[test]
fn fingerprint_normalizes_embedded_code_text() {
    let first = Block {
        children: vec![Child {
            attributes: Vec::new(),
            content: ChildContent::EmbeddedCode("\r\n  let a = 1;\r\n".to_string()),
        }],
    };
    let second = Block {
        children: vec![Child {
            attributes: Vec::new(),
            content: ChildContent::EmbeddedCode("let a = 1;\n".to_string()),
        }],
    };

    assert_eq!(first.fingerprint(), second.fingerprint());
}

#[test]
fn fingerprint_normalizes_negative_zero_and_nan() {
    let zero = Block {
        children: vec![command_child("set", vec![("value", float(0.0f64.to_bits()))])],
    };
    let negative_zero = Block {
        children: vec![command_child("set", vec![("value", float((-0.0f64).to_bits()))])],
    };
    let nan_a = Block {
        children: vec![command_child(
            "set",
            vec![("value", float(f64::from_bits(0x7ff8_0000_0000_0001).to_bits()))],
        )],
    };
    let nan_b = Block {
        children: vec![command_child(
            "set",
            vec![("value", float(f64::from_bits(0x7ff8_0000_0000_0010).to_bits()))],
        )],
    };

    assert_eq!(zero.fingerprint(), negative_zero.fingerprint());
    assert_eq!(nan_a.fingerprint(), nan_b.fingerprint());
}

#[test]
fn fingerprint_hex_round_trip_uses_lowercase_hex() {
    let fingerprint = Block {
        children: vec![text_child("hello")],
    }
    .fingerprint();

    let hex = fingerprint.to_hex();
    assert_eq!(hex.len(), 32);
    assert_eq!(hex, hex.to_lowercase());
    assert_eq!(BlockFingerprint::from_hex(&hex), Ok(fingerprint));
    assert_eq!(BlockFingerprint::from_hex(&hex.to_uppercase()), Ok(fingerprint));
}

#[test]
fn from_hex_reports_each_error() {
    assert_eq!(
        BlockFingerprint::from_hex("abc"),
        Err("block fingerprint hex must be 32 characters long")
    );
    assert_eq!(
        BlockFingerprint::from_hex("zz000000000000000000000000000000"),
        Err("block fingerprint contains a non-hex character")
    );
}

#[test]
fn bytes_of_a_fingerprint() {
    let fingerprint = BlockFingerprint::from_hex("000102030405060708090a0b0c0d0e0f").unwrap();
    let expected: [u8; 16] = [0, 1, 2, 3, 4, 5, 6, 7, 8, 9, 10, 11, 12, 13, 14, 15];
    assert_eq!(fingerprint.as_bytes(), &expected);
    assert_eq!(fingerprint.into_bytes(), expected);
    assert_eq!(fingerprint.to_hex(), "000102030405060708090a0b0c0d0e0f");
}

fn parse_story(input: &str) -> sixu::format::Story {
    let floats: FloatTable = Vec::new();
    parse_tolerant("test", input, &floats).to_ast().unwrap()
}

#[test]
fn parsed_argument_order_is_ignored() {
    let first = parse_story(
        r#"
::entry {
    @show speaker="alice" line="hello"
}
"#,
    );
    let second = parse_story(
        r#"
::entry {
    @show line="hello" speaker="alice"
}
"#,
    );

    assert_eq!(
        first.paragraphs[0].block.fingerprint(),
        second.paragraphs[0].block.fingerprint()
    );
}

#[test]
fn parsed_block_fingerprint_matches_golden_value() {
    let story = parse_story(
        r#"
::entry {
    [npc] `hello ${name}`

    @show speaker="alice" line="hello"

    {
        ##
        let score = 1;
        ##
    }
}
"#,
    );

    assert_eq!(
        story.paragraphs[0].block.fingerprint().to_hex(),
        "dc5f9bd6bcc453d3e085da7f07b1f2ef"
    );
}

#[test]
fn fingerprint_ignores_several_changes_at_once() {
    let inner = |zero: u64, order: bool, code: &str| {
        let object = if order {
            vec![
                ("a".to_string(), Literal::Float(zero)),
                ("b".to_string(), Literal::Array(vec![Literal::Float(zero)])),
            ]
        } else {
            vec![
                ("b".to_string(), Literal::Array(vec![Literal::Float(zero)])),
                ("a".to_string(), Literal::Float(zero)),
            ]
        };
        let mut args = vec![
            ("x", RValue::Literal(Literal::Object(object))),
            ("y", float(zero)),
        ];
        if !order {
            args.reverse();
        }
        let mut attributes = vec![
            Attribute { keyword: "if".to_string(), condition: Some("a".to_string()) },
            Attribute { keyword: "loop".to_string(), condition: None },
        ];
        if !order {
            attributes.reverse();
        }
        let mut cmd = command_child("set", args);
        cmd.attributes = attributes;
        Block {
            children: vec![
                Child {
                    attributes: Vec::new(),
                    content: ChildContent::Block(Block { children: vec![cmd] }),
                },
                Child { attributes: Vec::new(), content: ChildContent::EmbeddedCode(code.to_string()) },
            ],
        }
    };
    let first = inner(0, true, "a = 1\r\n");
    let second = inner(0x8000_0000_0000_0000, false, "  a = 1\n");
    assert_eq!(first.fingerprint(), second.fingerprint());
}
