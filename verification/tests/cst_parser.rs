use sixu::cst::{CommandSyntax, CstLeadingTextContent, CstNode, CstTemplatePart, CstTextKind, CstValueKind};
use sixu::cst_parser::{
    float_texts, parse_block, parse_command, parse_leading_text, parse_number_value,
    parse_paragraph, parse_parameter, parse_parameters, parse_quoted_string, parse_systemcall,
    parse_tailing_text, parse_template_literal, parse_text, parse_text_line, parse_tolerant,
    try_parse, FloatTable,
};
use sixu::format::{ChildContent, LeadingText, Literal, RValue, Text};

fn no_floats() -> FloatTable {
    Vec::new()
}

#[test]
fn test_parse_command_parenthesized() {
    let input = r#"@changebg(src="test.jpg", fadeTime=600)"#;
    let result = parse_command(input, &no_floats());
    assert!(result.is_some());

    let (_, cmd) = result.unwrap();
    assert_eq!(cmd.command, "changebg");
    assert_eq!(cmd.arguments.len(), 2);
    assert_eq!(cmd.arguments[0].name, "src");
    assert_eq!(cmd.arguments[1].name, "fadeTime");
    assert!(matches!(cmd.syntax, CommandSyntax::Parenthesized { .. }));
}

#[test]
fn test_parse_command_space_separated() {
    let input = r#"@changebg src="test.jpg" fadeTime=600"#;
    let result = parse_command(input, &no_floats());
    assert!(result.is_some());

    let (_, cmd) = result.unwrap();
    assert_eq!(cmd.command, "changebg");
    assert_eq!(cmd.arguments.len(), 2);
    assert!(matches!(cmd.syntax, CommandSyntax::SpaceSeparated));
}

#[test]
fn test_parse_command_boolean_flag() {
    let input = r#"@command flag"#;
    let result = parse_command(input, &no_floats());
    assert!(result.is_some());

    let (_, cmd) = result.unwrap();
    assert_eq!(cmd.arguments.len(), 1);
    assert_eq!(cmd.arguments[0].name, "flag");
    assert!(cmd.arguments[0].value.is_none());
}

#[test]
fn test_parse_systemcall() {
    let input = r#"#goto paragraph="main""#;
    let result = parse_systemcall(input, &no_floats());
    assert!(result.is_some());

    let (_, sc) = result.unwrap();
    assert_eq!(sc.command, "goto");
    assert_eq!(sc.arguments.len(), 1);
    assert_eq!(sc.arguments[0].name, "paragraph");
}

#[test]
fn test_parse_tolerant() {
    let input = r#"
        @command1 arg=1
        // 注释
        @command2 arg=2
        "#;

    let cst = parse_tolerant("test", input, &no_floats());

    assert!(cst.nodes.len() > 0);

    let cmd_count = cst
        .nodes
        .iter()
        .filter(|n| matches!(n, CstNode::Command(_)))
        .count();
    assert_eq!(cmd_count, 2);
}

#[test]
fn test_parse_number_values() {
    let tests = vec![
        ("123", CstValueKind::Integer),
        ("-456", CstValueKind::Integer),
        ("3.14", CstValueKind::Float),
        ("-2.5", CstValueKind::Float),
    ];

    for (input, expected_kind) in tests {
        let result = parse_number_value(input, &no_floats());
        assert!(result.is_some(), "Failed to parse: {}", input);
        let (_, value) = result.unwrap();
        assert_eq!(value.kind, expected_kind);
    }
}

#[test]
fn test_to_ast() {
    let input = r#"@changebg src="test.jpg" fadeTime=600"#;
    let (_, cmd) = parse_command(input, &no_floats()).unwrap();

    let ast_cmd = cmd.to_ast();
    assert_eq!(ast_cmd.command, "changebg");
    assert_eq!(ast_cmd.arguments.len(), 2);
}

#[test]
fn test_parse_parameter_without_default() {
    let input = "param1";
    let result = parse_parameter(input, &no_floats());
    assert!(result.is_some());

    let (_, param) = result.unwrap();
    assert_eq!(param.name, "param1");
    assert!(param.default_value.is_none());
    assert!(param.equals_token.is_none());
}

#[test]
fn test_parse_parameter_with_default() {
    let input = r#"param2="default""#;
    let result = parse_parameter(input, &no_floats());
    assert!(result.is_some());

    let (_, param) = result.unwrap();
    assert_eq!(param.name, "param2");
    assert!(param.default_value.is_some());
    assert!(param.equals_token.is_some());
}

#[test]
fn test_parse_parameters() {
    let input = r#"(param1, param2="default", param3=123)"#;
    let result = parse_parameters(input, &no_floats());
    assert!(result.is_some());

    let (_, _, params, _) = result.unwrap();
    assert_eq!(params.len(), 3);
    assert_eq!(params[0].name, "param1");
    assert_eq!(params[1].name, "param2");
    assert_eq!(params[2].name, "param3");
}

#[test]
fn test_parse_block_empty() {
    let input = "{}";
    let result = parse_block(input, &no_floats());
    assert!(result.is_some());

    let (_, block) = result.unwrap();
    assert_eq!(block.children.len(), 0);
}

#[test]
fn test_parse_block_with_commands() {
    let input = r#"{
            @command1 arg=1
            @command2 arg=2
        }"#;
    let result = parse_block(input, &no_floats());
    assert!(result.is_some());

    let (_, block) = result.unwrap();

    let cmd_count = block
        .children
        .iter()
        .filter(|n| matches!(n, CstNode::Command(_)))
        .count();
    assert_eq!(cmd_count, 2);
}

#[test]
fn test_parse_block_nested() {
    let input = r#"{
            @command1
            {
                @command2
            }
        }"#;
    let result = parse_block(input, &no_floats());
    assert!(result.is_some());

    let (_, block) = result.unwrap();

    let has_nested_block = block
        .children
        .iter()
        .any(|n| matches!(n, CstNode::Block(_)));
    assert!(has_nested_block);
}

#[test]
fn test_parse_paragraph_simple() {
    let input = r#"::main {
            @command arg=1
        }"#;
    let result = parse_paragraph(input, &no_floats());
    assert!(result.is_some());

    let (_, para) = result.unwrap();
    assert_eq!(para.name, "main");
    assert_eq!(para.parameters.len(), 0);
    assert!(para.open_paren.is_none());
    assert!(para.close_paren.is_none());
}

#[test]
fn test_parse_paragraph_with_params() {
    let input = r#"::scene(location, time="morning") {
            @changebg src="bg.jpg"
        }"#;
    let result = parse_paragraph(input, &no_floats());
    assert!(result.is_some());

    let (_, para) = result.unwrap();
    assert_eq!(para.name, "scene");
    assert_eq!(para.parameters.len(), 2);
    assert!(para.open_paren.is_some());
    assert!(para.close_paren.is_some());

    assert_eq!(para.parameters[0].name, "location");
    assert!(para.parameters[0].default_value.is_none());

    assert_eq!(para.parameters[1].name, "time");
    assert!(para.parameters[1].default_value.is_some());
}

#[test]
fn test_paragraph_to_ast() {
    let input = r#"::test(param1="value") {
            @command arg=1
        }"#;
    let (_, para) = parse_paragraph(input, &no_floats()).unwrap();

    let ast_para = para.to_ast().unwrap();
    assert_eq!(ast_para.name, "test");
    assert_eq!(ast_para.parameters.len(), 1);
    assert_eq!(ast_para.parameters[0].name, "param1");
}

#[test]
fn test_parse_file_with_paragraphs() {
    let input = r#"
        ::start {
            @changebg src="bg.jpg"
            #goto next
        }
        
        ::next {
            @wait time=1000
        }
        "#;

    let cst = parse_tolerant("test", input, &no_floats());

    let para_count = cst
        .nodes
        .iter()
        .filter(|n| matches!(n, CstNode::Paragraph(_)))
        .count();
    assert_eq!(para_count, 2);

    let ast = cst.to_ast().unwrap();
    assert_eq!(ast.name, "test");
    assert_eq!(ast.paragraphs.len(), 2);
    assert_eq!(ast.paragraphs[0].name, "start");
    assert_eq!(ast.paragraphs[1].name, "next");
}

#[test]
fn test_parse_quoted_string_double() {
    let input = r#""hello world""#;
    let result = parse_quoted_string(input);
    assert!(result.is_some());

    let (_, text) = result.unwrap();
    assert_eq!(text, "hello world");
}

#[test]
fn test_parse_quoted_string_single() {
    let input = r#"'hello world'"#;
    let result = parse_quoted_string(input);
    assert!(result.is_some());

    let (_, text) = result.unwrap();
    assert_eq!(text, "hello world");
}

#[test]
fn test_parse_quoted_string_with_escapes() {
    let input = r#""hello\nworld\t!""#;
    let result = parse_quoted_string(input);
    assert!(result.is_some());

    let (_, text) = result.unwrap();
    assert_eq!(text, "hello\nworld\t!");
}

#[test]
fn test_parse_template_literal_simple() {
    let input = "`hello world`";
    let result = parse_template_literal(input);
    assert!(result.is_some());

    let (_, tpl) = result.unwrap();
    assert_eq!(tpl.parts.len(), 1);

    if let CstTemplatePart::Text { content, .. } = &tpl.parts[0] {
        assert_eq!(content, "hello world");
    } else {
        panic!("Expected text part");
    }
}

#[test]
fn test_parse_template_literal_with_variable() {
    let input = "`hello ${name}!`";
    let result = parse_template_literal(input);
    assert!(result.is_some());

    let (_, tpl) = result.unwrap();
    assert_eq!(tpl.parts.len(), 3);

    if let CstTemplatePart::Text { content, .. } = &tpl.parts[0] {
        assert_eq!(content, "hello ");
    } else {
        panic!("Expected text part");
    }

    if let CstTemplatePart::Value { variable, .. } = &tpl.parts[1] {
        assert_eq!(variable.chain, vec!["name".to_string()]);
    } else {
        panic!("Expected value part");
    }
}

#[test]
fn test_parse_leading_text_simple() {
    let input = "[角色名]";
    let result = parse_leading_text(input);
    assert!(result.is_some());

    let (_, leading) = result.unwrap();
    if let CstLeadingTextContent::Text(text) = &leading.content {
        assert_eq!(text, "角色名");
    } else {
        panic!("Expected text content");
    }
}

#[test]
fn test_parse_leading_text_quoted() {
    let input = r#"["角色名"]"#;
    let result = parse_leading_text(input);
    assert!(result.is_some());

    let (_, leading) = result.unwrap();
    if let CstLeadingTextContent::Text(text) = &leading.content {
        assert_eq!(text, "角色名");
    } else {
        panic!("Expected text content");
    }
}

#[test]
fn test_parse_tailing_text() {
    let input = "#wait";
    let result = parse_tailing_text(input);
    assert!(result.is_some());

    let (_, tailing) = result.unwrap();
    assert_eq!(tailing.marker, "wait");
}

#[test]
fn test_parse_text_bare() {
    let input = "这是一段文本";
    let result = parse_text(input);
    assert!(result.is_some());

    let (_, text) = result.unwrap();
    assert!(matches!(text.kind, CstTextKind::Bare));
    assert_eq!(text.parsed, "这是一段文本");
}

#[test]
fn test_parse_text_quoted() {
    let input = r#""这是一段文本""#;
    let result = parse_text(input);
    assert!(result.is_some());

    let (_, text) = result.unwrap();
    assert!(matches!(text.kind, CstTextKind::Quoted(_)));
    assert_eq!(text.parsed, "这是一段文本");
}

#[test]
fn test_parse_text_line_simple() {
    let input = "这是一行文本\n";
    let result = parse_text_line(input);
    assert!(result.is_some());

    let (_, line) = result.unwrap();
    assert!(line.leading.is_none());
    assert!(line.text.is_some());
    assert!(line.tailing.is_none());
}

#[test]
fn test_parse_text_line_with_leading() {
    let input = "[角色名] \"对话内容\"\n";
    let result = parse_text_line(input);
    assert!(result.is_some());

    let (_, line) = result.unwrap();
    assert!(line.leading.is_some());
    assert!(line.text.is_some());
}

#[test]
fn test_parse_text_line_with_tailing() {
    let input = "对话内容 #wait\n";
    let result = parse_text_line(input);
    assert!(result.is_some());

    let (_, line) = result.unwrap();
    assert!(line.text.is_some());
    assert!(line.tailing.is_some());
}

#[test]
fn test_text_line_to_ast() {
    let input = "[角色] \"对话\"\n";
    let (_, line) = parse_text_line(input).unwrap();

    let ast_child = line.to_ast().unwrap();
    if let ChildContent::TextLine(leading, text, _) = ast_child.content {
        assert!(matches!(leading, LeadingText::Text(_)));
        assert!(matches!(text, Text::Text(_)));
    } else {
        panic!("Expected TextLine");
    }
}

// ---------------------------------------------------------------------
// Further cases
// ---------------------------------------------------------------------

#[test]
fn spans_count_bytes_lines_and_columns() {
    let input = "\n  @cmd a=1";
    let cst = parse_tolerant("t", input, &no_floats());
    let cmd = cst
        .nodes
        .iter()
        .find_map(|n| match n {
            CstNode::Command(c) => Some(c),
            _ => None,
        })
        .unwrap();
    assert_eq!(cmd.at_token.start, 3);
    assert_eq!(cmd.at_token.start_line, 2);
    assert_eq!(cmd.at_token.start_column, 2);
    assert_eq!(cmd.name_span.start, 4);
    assert_eq!(cmd.name_span.end, 7);
    assert_eq!(cst.span.start, 0);
    assert_eq!(cst.span.end, input.len());
    assert_eq!(cst.span.start_line, 1);
}

#[test]
fn broken_command_in_block_becomes_error_node() {
    let input = "::p {\n    @ 1\n    @ok\n}";
    let cst = parse_tolerant("t", input, &no_floats());
    let para = match &cst.nodes[0] {
        CstNode::Paragraph(p) => p,
        _ => panic!("expected a paragraph"),
    };
    let error = para
        .block
        .children
        .iter()
        .find_map(|n| match n {
            CstNode::Error { content, message, .. } => Some((content.clone(), message.clone())),
            _ => None,
        })
        .unwrap();
    assert_eq!(error.0, "@ 1");
    assert_eq!(error.1, "Invalid command syntax: Tag");
    assert!(para.block.children.iter().any(|n| matches!(n, CstNode::Command(c) if c.command == "ok")));
}

#[test]
fn integer_values_that_overflow_read_as_zero() {
    let (_, v) = parse_number_value("99999999999999999999", &no_floats()).unwrap();
    assert!(matches!(v.parsed, RValue::Literal(Literal::Integer(0))));
    let (_, v) = parse_number_value("-9223372036854775808", &no_floats()).unwrap();
    assert!(matches!(v.parsed, RValue::Literal(Literal::Integer(i64::MIN))));
}

#[test]
fn float_values_take_their_bits_from_the_table() {
    let input = "@set x=1.5 y=2";
    let cst = parse_tolerant("t", input, &no_floats());
    let texts = float_texts(&cst);
    assert_eq!(texts, vec!["1.5".to_string()]);
    let table: FloatTable = texts
        .iter()
        .map(|t| (t.clone(), t.parse::<f64>().unwrap().to_bits()))
        .collect();
    let (_, cmd) = parse_command(input, &table).unwrap();
    let v = cmd.arguments[0].value.as_ref().unwrap();
    assert!(matches!(v.parsed, RValue::Literal(Literal::Float(b)) if b == 1.5f64.to_bits()));
}

#[test]
fn unicode_escapes_in_quoted_strings() {
    let (_, t) = parse_quoted_string(r#""\u{4e2d}\u0041""#).unwrap();
    assert_eq!(t, "中A");
    assert!(parse_quoted_string(r#""\u{d800}""#).is_none());
    assert!(parse_quoted_string(r#""\u{110000}""#).is_none());
    assert!(parse_quoted_string(r#""open"#).is_none());
}

#[test]
fn embedded_code_in_braces_and_hashes() {
    let input = "::p {\n@{ let a = {1}; }\n##\nlet b = 2;\n##\n}";
    let cst = parse_tolerant("t", input, &no_floats());
    let story = cst.to_ast().unwrap();
    let codes: Vec<String> = story.paragraphs[0]
        .block
        .children
        .iter()
        .filter_map(|c| match &c.content {
            ChildContent::EmbeddedCode(code) => Some(code.clone()),
            _ => None,
        })
        .collect();
    assert_eq!(codes, vec![" let a = {1}; ".to_string(), "let b = 2;\n".to_string()]);
}

#[test]
fn test_cst_to_ast_equivalence() {
    let input = r#"
        ::main(location="classroom") {
            @changebg src="bg.jpg" fadeTime=600
            @addchar name="hero" src="hero.png"
            #goto ending
        }
        
        ::ending {
            @wait time=500
        }
        "#;

    let cst = parse_tolerant("test", input, &no_floats());
    let cst_ast = cst.to_ast().unwrap();

    assert_eq!(cst_ast.paragraphs.len(), 2);
    assert_eq!(cst_ast.paragraphs[0].name, "main");
    assert_eq!(cst_ast.paragraphs[1].name, "ending");
    assert_eq!(cst_ast.paragraphs[0].parameters.len(), 1);
    assert_eq!(cst_ast.paragraphs[0].parameters[0].name, "location");
}

#[test]
fn try_parse_refuses_a_text_the_reader_cannot_get_past() {
    // The bad line has more bytes than characters are left after it.
    assert!(try_parse("t", "::p {\n@中\n}", &no_floats()).is_none());
    assert!(try_parse("t", "::p {\n@中\n}\n\n\n", &no_floats()).is_some());
    let plain = try_parse("t", "::p {\n@a\n}", &no_floats()).unwrap();
    assert_eq!(plain.nodes.len(), parse_tolerant("t", "::p {\n@a\n}", &no_floats()).nodes.len());
}

#[test]
fn ascii_text_is_always_read_to_its_end() {
    for text in ["::p {\n@\n#\n}", "::p {\n@1bad\n#[\n{\n", "@@@ ## }} {{ :: [[", "\u{b}\u{c}::p{\u{c}@x}"] {
        assert!(try_parse("t", text, &no_floats()).is_some());
    }
}

#[test]
fn the_root_spans_the_whole_file() {
    let text = "::p {\n  @a 中\n}\n";
    let root = parse_tolerant("t", text, &no_floats());
    assert_eq!(root.span.start, 0);
    assert_eq!(root.span.end, text.len());
    assert_eq!(root.span.start_line, 1);
    assert_eq!(root.span.end_line, 4);
}
