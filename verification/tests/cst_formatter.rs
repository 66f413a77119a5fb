use sixu::cst_format::CstFormatter;
use sixu::cst_parser::{parse_tolerant, FloatTable};

fn parse(input: &str) -> sixu::cst::CstRoot {
    let floats: FloatTable = Vec::new();
    parse_tolerant("test", input, &floats)
}

#[test]
fn test_format_simple_command() {
    let input = "@command(arg=1)";
    let cst = parse(input);
    let formatter = CstFormatter::new();
    let result = formatter.format(&cst);

    assert!(result.contains("@command(arg=1)"));
}

#[test]
fn test_format_paragraph() {
    let input = r#"
::test {
@command(arg=1)
}
"#;
    let cst = parse(input);
    let formatter = CstFormatter::new();
    let result = formatter.format(&cst);

    assert!(result.contains("::test {"));
    assert!(result.contains("    @command(arg=1)"));
    assert!(result.contains("}"));
}

#[test]
fn test_format_preserves_comments() {
    let input = r#"
// 这是注释
::test {
    /* 块注释 */
    @command arg=1
}
"#;
    let cst = parse(input);
    let formatter = CstFormatter::new();
    let result = formatter.format(&cst);

    assert!(result.contains("// 这是注释"));
    assert!(result.contains("/* 块注释 */"));
}

#[test]
fn test_format_multiple_paragraphs() {
    let input = r#"
::first {
    @cmd1 arg=1
}

::second {
    @cmd2 arg=2
}
"#;
    let cst = parse(input);
    let formatter = CstFormatter::new();
    let result = formatter.format(&cst);

    assert!(result.contains("::first {"));
    assert!(result.contains("::second {"));
    assert!(result.contains("}\n\n::second"));
}

#[test]
fn test_format_text_line() {
    let input = r#"
::test {
    [speaker] "Hello, world!"
}
"#;
    let cst = parse(input);
    let formatter = CstFormatter::new();
    let result = formatter.format(&cst);

    println!("Formatted result:\n{}", result);
    assert!(result.contains("::test {"));
}

#[test]
fn test_format_system_call() {
    let input = r#"
::test {
    #goto(next)
}
"#;
    let cst = parse(input);
    let formatter = CstFormatter::new();
    let result = formatter.format(&cst);

    assert!(result.contains("#goto(next)"));
}

#[test]
fn test_format_preserves_indent_before_comments() {
    let input = r#"
::test {
    // 这是一个注释
    @command arg=1
    /* 这是块注释 */
    @another arg=2
}
"#;
    let cst = parse(input);
    let formatter = CstFormatter::new();
    let result = formatter.format(&cst);

    println!("Formatted result:\n{}", result);
    assert!(result.contains("    // 这是一个注释"));
    assert!(result.contains("    /* 这是块注释 */"));
}

#[test]
fn test_format_no_extra_blank_lines() {
    let input = r#"
::test {
    @cmd1 arg=1
    @cmd2 arg=2
    @cmd3 arg=3
}
"#;
    let cst = parse(input);
    let formatter = CstFormatter::new();
    let result = formatter.format(&cst);

    println!("Formatted result:\n{}", result);
    assert!(!result.contains("@cmd1(arg=1)\n\n    @cmd2"));
    assert!(!result.contains("@cmd2(arg=2)\n\n    @cmd3"));
}

#[test]
fn test_format_reduces_multiple_blank_lines() {
    let input = r#"
::test {
    @cmd1(arg=1)


    @cmd2(arg=2)
}
"#;
    let cst = parse(input);
    let formatter = CstFormatter::new();
    let result = formatter.format(&cst);

    println!("Formatted result:\n{}", result);
    assert!(result.contains("@cmd1(arg=1)\n\n    @cmd2"));
}

#[test]
fn test_format_preserves_command_syntax() {
    let input1 = r#"
::test {
    @command(arg=1, flag)
}
"#;
    let cst1 = parse(input1);
    let formatter = CstFormatter::new();
    let result1 = formatter.format(&cst1);

    println!("Parenthesized syntax result:\n{}", result1);
    assert!(result1.contains("@command(arg=1, flag)"));

    let input2 = r#"
::test {
    @command arg=1 flag
}
"#;
    let cst2 = parse(input2);
    let result2 = formatter.format(&cst2);

    println!("Space-separated syntax result:\n{}", result2);
    assert!(result2.contains("@command arg=1 flag"));
}

#[test]
fn test_format_preserves_systemcall_syntax() {
    let input1 = r#"
::test {
    #goto(paragraph="main")
}
"#;
    let cst1 = parse(input1);
    let formatter = CstFormatter::new();
    let result1 = formatter.format(&cst1);

    println!("Parenthesized systemcall result:\n{}", result1);
    assert!(result1.contains("#goto(paragraph=\"main\")"));

    let input2 = r#"
::test {
    #goto paragraph="main"
}
"#;
    let cst2 = parse(input2);
    let result2 = formatter.format(&cst2);

    println!("Space-separated systemcall result:\n{}", result2);
    assert!(result2.contains("#goto paragraph=\"main\""));
}

#[test]
fn custom_indent_width() {
    let cst = parse("::p {\n@a\n}");
    let result = CstFormatter::with_indent(2).format(&cst);
    assert!(result.contains("\n  @a"));
}

#[test]
fn formatting_twice_changes_nothing_more() {
    let source = "::main {\n    @changebg(src=\"test.jpg\", fadeTime=600)\n    #goto paragraph=\"other\"\n}\n\n::other {\n    #finish\n}\n";
    let formatter = CstFormatter::new();
    let first = formatter.format(&parse(source));
    let second = formatter.format(&parse(&first));
    assert_eq!(second, first);
    assert!(formatter.can_format(&parse(source)));
}

#[test]
fn every_comment_shows_in_the_output() {
    let input = "// top\n::p {\n  {\n    /* one */\n    /*\n      first line  \n\n      second\n    */\n    @a // after\n  }\n}\n";
    let result = CstFormatter::new().format(&parse(input));
    assert!(result.contains("// top"));
    assert!(result.contains("/* one */"));
    assert!(result.contains(" * first line\n"));
    assert!(result.contains(" * second\n"));
}
