use sixu::cst_helper::{
    contains, extract_argument_names, extract_commands,
    extract_paragraphs, extract_system_calls, find_command_at_position,
    get_systemcall_argument_value, is_inside_string, span_to_range, Position, Range,
};
use sixu::cst_parser::{parse_tolerant, FloatTable};
use sixu::span::SpanInfo;

#[test]
fn test_is_inside_string() {
    assert!(!is_inside_string("@command "));
    assert!(is_inside_string("@command arg=\""));
    assert!(!is_inside_string("@command arg=\"value\" "));
    assert!(is_inside_string("@command arg='"));
    assert!(!is_inside_string("@command arg='value' "));
    assert!(is_inside_string("@command text=`template "));
    assert!(!is_inside_string("@command text=`template` "));

    assert!(is_inside_string(r#"@command arg="test \" "#));
    assert!(!is_inside_string(r#"@command arg="test \"" "#));
}

#[test]
fn test_find_command_at_position() {
    let result = find_command_at_position("@changebg ", 10);
    assert_eq!(result, Some(("changebg".to_string(), false, vec![])));

    let result = find_command_at_position("@changebg src=\"test.jpg\" ", 25);
    assert_eq!(
        result,
        Some(("changebg".to_string(), false, vec!["src".to_string()]))
    );

    let result = find_command_at_position("@changebg src=\"test.jpg\" fadeTime=600 ", 39);
    assert_eq!(
        result,
        Some((
            "changebg".to_string(),
            false,
            vec!["src".to_string(), "fadeTime".to_string()]
        ))
    );

    let result = find_command_at_position("@changebg(src=\"test.jpg\", ", 26);
    assert_eq!(
        result,
        Some(("changebg".to_string(), true, vec!["src".to_string()]))
    );

    let result = find_command_at_position("@changebg(src=\"test.jpg\", fadeTime=600, ", 41);
    assert_eq!(
        result,
        Some((
            "changebg".to_string(),
            true,
            vec!["src".to_string(), "fadeTime".to_string()]
        ))
    );

    let result = find_command_at_position("@changebg(src=\"test.jpg\") ", 26);
    assert_eq!(result, None);

    let result = find_command_at_position("@changebg src=\"test", 19);
    assert_eq!(result, None);

    let result = find_command_at_position("#goto ", 6);
    assert_eq!(result, Some(("goto".to_string(), false, vec![])));

    let result = find_command_at_position("#goto paragraph=\"main\" ", 23);
    assert_eq!(
        result,
        Some(("goto".to_string(), false, vec!["paragraph".to_string()]))
    );
}

#[test]
fn test_extract_argument_names() {
    assert_eq!(
        extract_argument_names(" src=\"test.jpg\" fadeTime=600", false),
        vec!["src".to_string(), "fadeTime".to_string()]
    );

    assert_eq!(
        extract_argument_names("(src=\"test.jpg\", fadeTime=600)", true),
        vec!["src".to_string(), "fadeTime".to_string()]
    );

    assert_eq!(
        extract_argument_names(" flag1 arg2=123 flag3", false),
        vec!["flag1".to_string(), "arg2".to_string(), "flag3".to_string()]
    );

    assert_eq!(
        extract_argument_names(r#" a="double" b='single' c=`template`"#, false),
        vec!["a".to_string(), "b".to_string(), "c".to_string()]
    );

    assert_eq!(
        extract_argument_names(" x=variable.path y=123", false),
        vec!["x".to_string(), "y".to_string()]
    );
}

#[test]
fn characters_that_start_no_name_are_skipped() {
    assert_eq!(extract_argument_names(" -x", false), vec!["x".to_string()]);
    assert_eq!(find_command_at_position("@cmd =", 7), Some(("cmd".to_string(), false, vec![])));
    assert_eq!(
        find_command_at_position("@c -x=", 6),
        Some(("c".to_string(), false, vec!["x".to_string()]))
    );
}

#[test]
fn the_argument_just_before_the_cursor_counts() {
    assert_eq!(
        find_command_at_position("@cmd a", 6),
        Some(("cmd".to_string(), false, vec!["a".to_string()]))
    );
    assert_eq!(find_command_at_position("@cmd a", 5), Some(("cmd".to_string(), false, vec![])));
}

#[test]
fn span_to_range_counts_lines_from_zero() {
    let span = SpanInfo {
        start: 3,
        end: 7,
        start_line: 2,
        start_column: 1,
        end_line: 3,
        end_column: 4,
    };
    let range = span_to_range(&span);
    assert_eq!(range.start, Position { line: 1, character: 1 });
    assert_eq!(range.end, Position { line: 2, character: 4 });
}

#[test]
fn contains_excludes_the_end() {
    let range = Range {
        start: Position { line: 1, character: 2 },
        end: Position { line: 3, character: 4 },
    };
    assert!(contains(&range, &Position { line: 1, character: 2 }));
    assert!(!contains(&range, &Position { line: 1, character: 1 }));
    assert!(contains(&range, &Position { line: 2, character: 0 }));
    assert!(!contains(&range, &Position { line: 3, character: 4 }));
    assert!(!contains(&range, &Position { line: 4, character: 0 }));
}

#[test]
fn extracting_nodes_of_a_file() {
    let input = "@top\n::a {\n    @one\n    {\n        @two\n        #goto paragraph=\"b\"\n    }\n}\n::b {\n    #finish\n}\n";
    let floats: FloatTable = Vec::new();
    let cst = parse_tolerant("t", input, &floats);
    let commands: Vec<String> = extract_commands(&cst).iter().map(|c| c.command.clone()).collect();
    assert_eq!(commands, vec!["top", "one", "two"]);
    let calls = extract_system_calls(&cst);
    let names: Vec<String> = calls.iter().map(|c| c.command.clone()).collect();
    assert_eq!(names, vec!["goto", "finish"]);
    assert_eq!(
        get_systemcall_argument_value(calls[0], "paragraph"),
        Some("b".to_string())
    );
    assert_eq!(get_systemcall_argument_value(calls[0], "story"), None);
    let paragraphs: Vec<String> = extract_paragraphs(&cst).iter().map(|p| p.name.clone()).collect();
    assert_eq!(paragraphs, vec!["a", "b"]);
}

#[test]
fn argument_values_other_than_strings_keep_their_text() {
    let floats: FloatTable = Vec::new();
    let cst = parse_tolerant("t", "::a {\n#wait time=100 mode=fast\n}", &floats);
    let calls = extract_system_calls(&cst);
    assert_eq!(get_systemcall_argument_value(calls[0], "time"), Some("100".to_string()));
    assert_eq!(get_systemcall_argument_value(calls[0], "mode"), Some("fast".to_string()));
}
