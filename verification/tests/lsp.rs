use sixu::completion::{completion, CompletionKind};
use sixu::cst::CstRoot;
use sixu::cst_helper::{
    extract_commands, extract_system_calls, span_to_range, Position,
};
use sixu::cst_parser::{parse_tolerant, FloatTable};
use sixu::lsp::{
    document_diagnostics, document_symbols, find_goto_paragraph, goto_candidates, hover, spans_ok,
    syntax_errors, Severity,
};
use sixu::schema::{
    CommandDefinition, CommandSchema, Properties, Property, SchemaNode, SchemaValue, StringOrArray,
};

fn parse(text: &str) -> CstRoot {
    let floats: FloatTable = Vec::new();
    parse_tolerant("doc", text, &floats)
}

fn prop(type_: Option<&str>, description: Option<&str>) -> Property {
    Property {
        type_: type_.map(|t| StringOrArray::String(t.to_string())),
        description: description.map(|d| d.to_string()),
        const_value: None,
        enum_values: None,
        default: None,
        format: None,
    }
}

fn command_prop(name: &str) -> Property {
    Property { const_value: Some(name.to_string()), ..prop(Some("string"), None) }
}

fn node(description: Option<&str>, props: Vec<(&str, Property)>, required: Option<Vec<&str>>) -> SchemaNode {
    SchemaNode {
        description: description.map(|d| d.to_string()),
        properties: Some(Properties(props.into_iter().map(|(k, p)| (k.to_string(), p)).collect())),
        required: required.map(|r| r.into_iter().map(|s| s.to_string()).collect()),
        one_of: Vec::new(),
        any_of: Vec::new(),
        all_of: Vec::new(),
    }
}

fn sample_schema() -> CommandSchema {
    let changebg = node(
        Some("Change the background"),
        vec![
            ("command", command_prop("changebg")),
            ("src", prop(Some("string"), Some("Background image"))),
            (
                "fadeTime",
                Property {
                    default: Some(SchemaValue { json: "500".to_string(), as_str: None }),
                    ..prop(Some("number"), Some("Fade time"))
                },
            ),
            ("skippable", prop(Some("boolean"), None)),
        ],
        Some(vec!["command", "src"]),
    );
    let prepare = node(Some("Prepare a transition"), vec![("command", command_prop("transPrepare"))], None);
    let perform_a = node(
        Some("Perform a transition"),
        vec![
            ("command", command_prop("transPerform")),
            (
                "effect",
                Property {
                    enum_values: Some(vec!["fade".to_string(), "slide".to_string()]),
                    default: Some(SchemaValue { json: "\"slide\"".to_string(), as_str: Some("slide".to_string()) }),
                    ..prop(Some("string"), None)
                },
            ),
        ],
        None,
    );
    let perform_b = node(
        None,
        vec![
            ("command", command_prop("transPerform")),
            (
                "effect",
                Property { enum_values: Some(vec!["fade".to_string(), "a,b|c".to_string()]), ..prop(Some("string"), None) },
            ),
        ],
        None,
    );
    let root = SchemaNode {
        description: None,
        properties: None,
        required: None,
        one_of: vec![changebg, SchemaNode { one_of: vec![prepare], ..node(None, vec![], None) }],
        any_of: vec![perform_a],
        all_of: vec![perform_b],
    };
    CommandSchema::from_node(root)
}

fn labels(line: &str, schema: Option<&CommandSchema>, document: &CstRoot) -> Option<Vec<String>> {
    let col = line.chars().count();
    completion(line, col, schema, document).map(|items| items.into_iter().map(|i| i.label).collect())
}

#[test]
fn schema_collects_nested_definitions_in_order() {
    let schema = sample_schema();
    let names: Vec<String> = schema.commands.iter().filter_map(CommandDefinition::get_command_name).collect();
    assert_eq!(
        names,
        vec![
            "changebg".to_string(),
            "transPrepare".to_string(),
            "transPerform".to_string(),
            "transPerform".to_string(),
        ]
    );
    assert!(schema.commands[0].properties.get("src").unwrap().is_string());
    assert!(!schema.commands[0].properties.get("fadeTime").unwrap().is_string());
    assert!(schema.commands[0].properties.get("missing").is_none());
}

#[test]
fn property_options_merge_definitions_with_default_first() {
    let schema = sample_schema();
    let defs: Vec<&CommandDefinition> = schema.commands[2..].iter().collect();
    let default = SchemaValue { json: "\"slide\"".to_string(), as_str: Some("slide".to_string()) };
    assert_eq!(
        CommandDefinition::collect_property_value_options(&defs, "effect", Some(&default)),
        vec!["slide".to_string(), "fade".to_string(), "a,b|c".to_string()]
    );
    assert_eq!(
        CommandDefinition::collect_property_value_options(&defs, "effect", None),
        vec!["fade".to_string(), "slide".to_string(), "a,b|c".to_string()]
    );
}

#[test]
fn completion_excludes_written_arguments() {
    let schema = sample_schema();
    let doc = parse("::test {\n}\n");
    let got = labels("    @changebg src=\"test.jpg\" ", Some(&schema), &doc).unwrap();
    assert_eq!(got, vec!["fadeTime".to_string(), "skippable".to_string()]);
    let got = labels("    @changebg(src=\"test.jpg\", ", Some(&schema), &doc).unwrap();
    assert!(!got.contains(&"src".to_string()));
    assert!(got.contains(&"fadeTime".to_string()));
    let got = labels("    @changebg src=\"test.jpg\" skippable ", Some(&schema), &doc).unwrap();
    assert_eq!(got, vec!["fadeTime".to_string()]);
}

#[test]
fn completion_insert_texts() {
    let schema = sample_schema();
    let doc = parse("::test {\n}\n");
    let line = "    @changebg ";
    let items = completion(line, line.chars().count(), Some(&schema), &doc).unwrap();
    let texts: Vec<(String, String, bool)> =
        items.iter().map(|i| (i.label.clone(), i.insert_text.clone(), i.snippet)).collect();
    assert_eq!(
        texts,
        vec![
            ("src".to_string(), "src=\"$1\"".to_string(), true),
            ("fadeTime".to_string(), "fadeTime=500".to_string(), true),
            ("skippable".to_string(), "skippable".to_string(), true),
        ]
    );
    assert_eq!(items[0].detail.as_deref(), Some("Background image"));
    assert_eq!(items[0].kind, CompletionKind::Field);

    let line = "    @transPerform ";
    let items = completion(line, line.chars().count(), Some(&schema), &doc).unwrap();
    assert_eq!(items.len(), 1);
    assert_eq!(items[0].insert_text, "effect=\"${1|slide,fade,a\\,b\\|c|}\"");
}

#[test]
fn test_enum_value_completion_after_equals() {
    let schema = sample_schema();
    let doc = parse("::test {\n}\n");
    let line = "    @transPerform effect=";
    let items = completion(line, line.chars().count(), Some(&schema), &doc).unwrap();
    let texts: Vec<(String, String)> =
        items.iter().map(|i| (i.label.clone(), i.insert_text.clone())).collect();
    assert_eq!(
        texts,
        vec![
            ("slide".to_string(), "\"slide\"".to_string()),
            ("fade".to_string(), "\"fade\"".to_string()),
            ("a,b|c".to_string(), "\"a,b|c\"".to_string()),
        ]
    );
    assert_eq!(items[0].kind, CompletionKind::Value);
}

#[test]
fn test_no_completion_on_equals() {
    let schema = sample_schema();
    let doc = parse("::test {\n}\n");
    assert!(labels("    @changebg src=", Some(&schema), &doc).is_none());
    assert!(labels("    @c -x=", Some(&schema), &doc).is_none());
}

#[test]
fn completion_needs_a_schema_for_commands() {
    let doc = parse("::test {\n}\n");
    assert!(labels("    @changebg ", None, &doc).is_none());
    assert!(labels("    @chang", None, &doc).is_none());
}

#[test]
fn completion_of_jump_arguments_and_paragraphs() {
    let doc = parse("::test {\n}\n::abc {\n}\n");
    let got = labels("    #goto ", None, &doc).unwrap();
    assert_eq!(
        got,
        vec!["paragraph".to_string(), "story".to_string(), "test".to_string(), "abc".to_string()]
    );
    let got = labels("    #call paragraph=\"abc\" ", None, &doc).unwrap();
    assert_eq!(got, vec!["story".to_string()]);
    assert!(labels("    #wait ", None, &doc).is_none());
}

#[test]
fn completion_of_command_and_system_call_names() {
    let schema = sample_schema();
    let doc = parse("::test {\n}\n");
    let got = labels("    @", Some(&schema), &doc).unwrap();
    assert_eq!(
        got,
        vec!["changebg".to_string(), "transPrepare".to_string(), "transPerform".to_string()]
    );
    // A name being typed is read as a command, which the schema does not know.
    assert!(labels("    @tran", Some(&schema), &doc).is_none());
    assert!(labels("    @ ", Some(&schema), &doc).is_none());
    let line = "    #";
    let items = completion(line, line.chars().count(), None, &doc).unwrap();
    let names: Vec<&str> = items.iter().map(|i| i.label.as_str()).collect();
    assert_eq!(names, vec!["call", "goto", "replace", "leave", "break", "continue", "finish"]);
    assert_eq!(items[1].insert_text, "goto ");
    assert!(items[1].trigger_suggest);
    assert_eq!(items[1].kind, CompletionKind::Keyword);
}

#[test]
fn no_completion_inside_a_string() {
    let schema = sample_schema();
    let doc = parse("::test {\n}\n");
    let line = "    @changebg src=\"test .jpg\"";
    let items = completion(line, 24, Some(&schema), &doc);
    assert!(items.is_none() || items.unwrap().is_empty());
}

#[test]
fn schema_diagnostics() {
    let schema = sample_schema();
    let root = parse("::test {\n@changebg fadeTime=\"slow\" extra=1\n@nothing\n}\n");
    assert!(spans_ok(&root));
    let diags = document_diagnostics(&root, Some(&schema)).unwrap();
    let messages: Vec<(Severity, String, String)> =
        diags.iter().map(|d| (d.severity, d.source.clone(), d.message.clone())).collect();
    assert_eq!(
        messages,
        vec![
            (Severity::Error, "sixu-schema".to_string(), "Missing required parameter: src".to_string()),
            (Severity::Warning, "sixu-schema".to_string(), "Type mismatch. Expected: [\"number\"]".to_string()),
            (Severity::Warning, "sixu-schema".to_string(), "Unknown parameter: extra".to_string()),
            (Severity::Warning, "sixu-schema".to_string(), "Unknown command: nothing".to_string()),
        ]
    );
    assert!(document_diagnostics(&root, None).unwrap().is_empty());
}

#[test]
fn syntax_errors_are_reported_first() {
    let root = parse("::test {\n@ broken\n}\n");
    let errors = syntax_errors(&root);
    let diags = document_diagnostics(&root, None).unwrap();
    assert_eq!(diags.len(), errors.len());
    for (d, (span, message)) in diags.iter().zip(errors.iter()) {
        assert_eq!(d.severity, Severity::Error);
        assert_eq!(d.source, "sixu-syntax");
        assert_eq!(&d.message, message);
        assert_eq!(d.range, span_to_range(span));
    }
}

#[test]
fn hover_shows_descriptions() {
    let schema = sample_schema();
    let root = parse("::test {\n@changebg src=\"a.jpg\"\n}\n");
    assert!(spans_ok(&root));
    let cmd = extract_commands(&root)[0];
    let name_range = span_to_range(&cmd.name_span);
    let info = hover(&root, Some(&schema), &name_range.start).unwrap();
    assert_eq!(info.text, "Change the background");
    assert_eq!(info.range, name_range);
    let arg_range = span_to_range(&cmd.arguments[0].span);
    let info = hover(&root, Some(&schema), &arg_range.start).unwrap();
    assert_eq!(info.text, "Background image");
    assert!(hover(&root, None, &name_range.start).is_none());
    assert!(hover(&root, Some(&schema), &Position { line: 0, character: 0 }).is_none());
}

#[test]
fn goto_finds_the_named_paragraph() {
    let root = parse("::test {\n#goto paragraph=\"abc\"\n}\n::abc {\n}\n");
    assert!(spans_ok(&root));
    let call = extract_system_calls(&root)[0];
    let value_range = span_to_range(&call.arguments[0].value.as_ref().unwrap().span);
    let candidates = goto_candidates(&root, &value_range.start);
    assert_eq!(candidates.len(), 1);
    assert_eq!(candidates[0].story, None);
    assert_eq!(candidates[0].paragraph, "abc");
    assert!(!candidates[0].on_story);
    let target = find_goto_paragraph(&root, &candidates[0]).unwrap();
    let symbols = document_symbols(&root);
    assert_eq!(symbols.len(), 2);
    assert_eq!(symbols[1].name, "abc");
    assert_eq!(target, symbols[1].selection_range);
    assert!(goto_candidates(&root, &Position { line: 0, character: 0 }).is_empty());
}
