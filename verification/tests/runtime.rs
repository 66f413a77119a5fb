use sixu::cst_parser::{parse_tolerant, FloatTable};
use sixu::error::RuntimeError;
use sixu::format::{
    Argument, Attribute, Block, Child, ChildContent, CommandLine, LeadingText, Literal, Paragraph,
    RValue, Story, SystemCallLine, TailingText, TemplateLiteral, TemplateLiteralPart, Text,
    Variable,
};
use sixu::runtime::{
    ResolvedCommandLine, ResolvedSystemCallLine, Runtime, RuntimeExecutor, StepResult,
};
use sixu::runtime_state::{
    calculate_template_literal, get_variable, literal_to_string, ExecutionState, LoopControl,
    RuntimeContext,
};

const SAMPLE: &str = r#"
::entry {

first line1

@tttt foo=2

@tttt2(foo=4, bar=8)

{
@tttt foo=16

#replace paragraph="abc"

}

@tttt foo=100

}

::abc {

@tttt foo=32

{
@tttt foo=64
#call paragraph="def"
}

@tttt foo=128

#finish

}


::def {

@tttt foo=256

## 512 ##

}
"#;

#[derive(Default)]
struct SampleExecutor {
    last_value: u32,
    finished_calls: u32,
    commands: Vec<String>,
    texts: Vec<(Option<String>, Option<String>, Option<String>)>,
    extra_calls: Vec<String>,
}

impl RuntimeExecutor for SampleExecutor {
    fn handle_command(
        &mut self,
        _ctx: &mut RuntimeContext,
        command_line: &ResolvedCommandLine,
    ) -> Result<bool, RuntimeError> {
        self.commands.push(command_line.command.clone());
        if command_line.command == "tttt" {
            let foo = command_line.get_argument("foo").unwrap();
            assert!(foo.is_integer(), "foo should be an integer");
            self.last_value += *foo.as_integer().unwrap() as u32;
        }
        if command_line.command == "tttt2" {
            let foo = command_line.get_argument("foo").unwrap();
            let bar = command_line.get_argument("bar").unwrap();
            self.last_value += *foo.as_integer().unwrap() as u32;
            self.last_value += *bar.as_integer().unwrap() as u32;
        }
        Ok(false)
    }

    fn handle_extra_system_call(
        &mut self,
        _ctx: &mut RuntimeContext,
        systemcall_line: &ResolvedSystemCallLine,
    ) -> Result<bool, RuntimeError> {
        self.extra_calls.push(systemcall_line.command.clone());
        Ok(true)
    }

    fn handle_text(
        &mut self,
        _ctx: &mut RuntimeContext,
        leading: Option<&str>,
        text: Option<&str>,
        tailing: Option<&str>,
    ) -> Result<bool, RuntimeError> {
        if let Some(text) = text {
            let last_char = text.chars().last().unwrap_or('0');
            self.last_value += last_char.to_digit(10).unwrap_or(0);
        }
        self.texts.push((
            leading.map(|s| s.to_string()),
            text.map(|s| s.to_string()),
            tailing.map(|s| s.to_string()),
        ));
        Ok(false)
    }

    fn finished(&mut self, _ctx: &mut RuntimeContext) {
        self.finished_calls += 1;
    }

    fn float_text(&self, bits: u64) -> String {
        f64::from_bits(bits).to_string()
    }
}

fn parse_story(name: &str, text: &str) -> Story {
    let floats: FloatTable = Vec::new();
    parse_tolerant(name, text, &floats).to_ast().unwrap()
}

/// Runs steps, answering conditions from `conditions` and scripts with
/// the number they hold, until the story stops running.
fn run(runtime: &mut Runtime<SampleExecutor>, conditions: &mut Vec<bool>) -> Result<(), RuntimeError> {
    for _ in 0..10_000 {
        assert!(runtime.can_step());
        match runtime.step_one() {
            Ok(None) | Ok(Some(StepResult::Done)) => {}
            Ok(Some(StepResult::NeedsCondition(_))) => {
                let value = if conditions.is_empty() { false } else { conditions.remove(0) };
                runtime.resume_condition(value);
            }
            Ok(Some(StepResult::NeedsScript(code))) => {
                let n: u32 = code.trim().parse().unwrap();
                runtime.executor_mut().last_value += n;
                runtime.resume_script(None, false);
            }
            Ok(Some(StepResult::NeedsStoryFile(name))) => panic!("story {} is not loaded", name),
            Err(RuntimeError::StoryFinished) | Err(RuntimeError::StoryNotStarted) => return Ok(()),
            Err(e) => return Err(e),
        }
    }
    panic!("the story did not stop");
}

fn command(name: &str, arguments: Vec<(&str, RValue)>) -> Child {
    Child {
        attributes: Vec::new(),
        content: ChildContent::CommandLine(CommandLine {
            command: name.to_string(),
            arguments: arguments
                .into_iter()
                .map(|(n, value)| Argument { name: n.to_string(), value })
                .collect(),
        }),
    }
}

fn system_call(name: &str, arguments: Vec<(&str, RValue)>) -> Child {
    Child {
        attributes: Vec::new(),
        content: ChildContent::SystemCallLine(SystemCallLine {
            command: name.to_string(),
            arguments: arguments
                .into_iter()
                .map(|(n, value)| Argument { name: n.to_string(), value })
                .collect(),
        }),
    }
}

fn string(s: &str) -> RValue {
    RValue::Literal(Literal::String(s.to_string()))
}

fn with_attribute(mut child: Child, keyword: &str, condition: Option<&str>) -> Child {
    child.attributes.push(Attribute {
        keyword: keyword.to_string(),
        condition: condition.map(|c| c.to_string()),
    });
    child
}

fn block(children: Vec<Child>) -> Child {
    Child { attributes: Vec::new(), content: ChildContent::Block(Block { children }) }
}

fn story(name: &str, paragraphs: Vec<(&str, Vec<Child>)>) -> Story {
    Story {
        name: name.to_string(),
        paragraphs: paragraphs
            .into_iter()
            .map(|(n, children)| Paragraph {
                name: n.to_string(),
                parameters: Vec::new(),
                block: Block { children },
            })
            .collect(),
    }
}

fn runtime_with(stories: Vec<Story>) -> Runtime<SampleExecutor> {
    let mut runtime = Runtime::new(SampleExecutor::default());
    for s in stories {
        runtime.add_story(s);
    }
    runtime
}

#[test]
fn sample_story_runs_to_its_end() {
    let mut runtime = runtime_with(vec![parse_story("test", SAMPLE)]);
    runtime.start("test", Some("entry")).unwrap();
    run(&mut runtime, &mut Vec::new()).unwrap();
    assert_eq!(runtime.executor().last_value, 1023);
    assert_eq!(runtime.executor().finished_calls, 1);
    assert!(runtime.context().stack().is_empty());
}

#[test]
fn start_errors() {
    let mut empty = runtime_with(Vec::new());
    assert_eq!(empty.start("test", None), Err(RuntimeError::NoStory));

    let mut runtime = runtime_with(vec![story("s", vec![("entry", vec![])])]);
    assert_eq!(
        runtime.start("other", None),
        Err(RuntimeError::StoryNotFound("other".to_string()))
    );
    assert_eq!(
        runtime.start("s", Some("missing")),
        Err(RuntimeError::ParagraphNotFound("missing".to_string()))
    );
    runtime.start("s", None).unwrap();
    let state = runtime.get_current_state().unwrap();
    assert_eq!(state.paragraph, "entry");
    assert_eq!(state.index, 0);
    assert!(!state.is_loop_body);
    assert_eq!(runtime.start("s", None), Err(RuntimeError::StoryStarted));
}

#[test]
fn condition_is_asked_and_false_skips_the_line() {
    let children = vec![
        with_attribute(command("a", vec![]), "if", Some("x > 1")),
        command("b", vec![]),
    ];
    let mut runtime = runtime_with(vec![story("s", vec![("entry", children)])]);
    runtime.start("s", None).unwrap();
    match runtime.step_one() {
        Ok(Some(StepResult::NeedsCondition(c))) => assert_eq!(c, "x > 1"),
        _ => panic!("the condition should be asked for"),
    }
    runtime.resume_condition(false);
    assert!(matches!(runtime.step_one(), Ok(None)));
    assert!(matches!(runtime.step_one(), Ok(Some(StepResult::Done))));
    assert_eq!(runtime.executor().commands, vec!["b".to_string()]);
}

#[test]
fn while_loop_runs_while_the_condition_holds() {
    let children = vec![
        with_attribute(block(vec![command("tick", vec![])]), "while", Some("go")),
        command("after", vec![]),
    ];
    let mut runtime = runtime_with(vec![story("s", vec![("entry", children)])]);
    runtime.start("s", None).unwrap();
    run(&mut runtime, &mut vec![true, true, false]).unwrap();
    assert_eq!(
        runtime.executor().commands,
        vec!["tick".to_string(), "tick".to_string(), "after".to_string()]
    );
}

#[test]
fn break_leaves_a_loop() {
    let children = vec![
        with_attribute(
            block(vec![command("tick", vec![]), system_call("break", vec![]), command("never", vec![])]),
            "loop",
            None,
        ),
        command("after", vec![]),
    ];
    let mut runtime = runtime_with(vec![story("s", vec![("entry", children)])]);
    runtime.start("s", None).unwrap();
    run(&mut runtime, &mut Vec::new()).unwrap();
    assert_eq!(runtime.executor().commands, vec!["tick".to_string(), "after".to_string()]);
}

#[test]
fn continue_comes_back_to_the_loop_line() {
    let children = vec![
        with_attribute(
            block(vec![command("tick", vec![]), system_call("continue", vec![]), command("never", vec![])]),
            "while",
            Some("again"),
        ),
        command("after", vec![]),
    ];
    let mut runtime = runtime_with(vec![story("s", vec![("entry", children)])]);
    runtime.start("s", None).unwrap();
    run(&mut runtime, &mut vec![true, true, false]).unwrap();
    assert_eq!(
        runtime.executor().commands,
        vec!["tick".to_string(), "tick".to_string(), "after".to_string()]
    );
}

#[test]
fn loop_signal_sets_and_clears() {
    let mut ctx = RuntimeContext::new();
    assert_eq!(ctx.take_loop_control(), None);
    ctx.set_loop_control(LoopControl::Continue);
    assert_eq!(ctx.take_loop_control(), Some(LoopControl::Continue));
    assert_eq!(ctx.take_loop_control(), None);
}

#[test]
fn goto_waits_for_a_missing_story() {
    let first = story("one", vec![("entry", vec![system_call("goto", vec![("story", string("two")), ("paragraph", string("start"))])])]);
    let second = story("two", vec![("start", vec![command("arrived", vec![])])]);
    let mut runtime = runtime_with(vec![first]);
    runtime.start("one", None).unwrap();
    match runtime.step_one() {
        Ok(Some(StepResult::NeedsStoryFile(name))) => assert_eq!(name, "two"),
        _ => panic!("the story should be asked for"),
    }
    assert!(runtime.context().stack().is_empty());
    runtime.add_story(second);
    assert!(matches!(runtime.step_one(), Ok(None)));
    assert_eq!(runtime.get_current_state().unwrap().story, "two");
    assert!(matches!(runtime.step_one(), Ok(Some(StepResult::Done))));
    assert_eq!(runtime.executor().commands, vec!["arrived".to_string()]);
}

#[test]
fn jump_argument_errors() {
    let children = vec![system_call("goto", vec![("story", RValue::Literal(Literal::Integer(3))), ("paragraph", string("p"))])];
    let mut runtime = runtime_with(vec![story("s", vec![("entry", children)])]);
    runtime.start("s", None).unwrap();
    assert_eq!(
        runtime.step_one().err(),
        Some(RuntimeError::WrongArgumentSystemCallLine("Expected a string argument".to_string()))
    );

    let children = vec![system_call("call", vec![])];
    let mut runtime = runtime_with(vec![story("s", vec![("entry", children)])]);
    runtime.start("s", None).unwrap();
    assert_eq!(
        runtime.step_one().err(),
        Some(RuntimeError::WrongArgumentSystemCallLine("Paragraph name not provided".to_string()))
    );
}

#[test]
fn call_then_block_end_returns_to_the_caller() {
    let s = story(
        "s",
        vec![
            ("entry", vec![system_call("call", vec![("paragraph", string("sub"))]), command("back", vec![])]),
            ("sub", vec![command("inside", vec![])]),
        ],
    );
    let mut runtime = runtime_with(vec![s]);
    runtime.start("s", None).unwrap();
    assert!(matches!(runtime.step_one(), Ok(None)));
    assert_eq!(runtime.context().stack().len(), 2);
    run(&mut runtime, &mut Vec::new()).unwrap();
    assert_eq!(
        runtime.executor().commands,
        vec!["inside".to_string(), "back".to_string(), "inside".to_string()]
    );
}

#[test]
fn paragraphs_run_in_order_then_finish() {
    let s = story("s", vec![("entry", vec![command("a", vec![])]), ("next", vec![command("b", vec![])])]);
    let mut runtime = runtime_with(vec![s]);
    runtime.start("s", None).unwrap();
    run(&mut runtime, &mut Vec::new()).unwrap();
    assert_eq!(runtime.executor().commands, vec!["a".to_string(), "b".to_string()]);
    assert_eq!(runtime.executor().finished_calls, 1);
    assert_eq!(runtime.break_current_block(), Err(RuntimeError::StoryFinished));
}

#[test]
fn leave_and_extra_system_calls() {
    let s = story(
        "s",
        vec![("entry", vec![block(vec![system_call("leave", vec![]), command("skipped", vec![])]), system_call("wait", vec![]), command("end", vec![])])],
    );
    let mut runtime = runtime_with(vec![s]);
    runtime.start("s", None).unwrap();
    run(&mut runtime, &mut Vec::new()).unwrap();
    assert_eq!(runtime.executor().commands, vec!["end".to_string()]);
    assert_eq!(runtime.executor().extra_calls, vec!["wait".to_string()]);
}

#[test]
fn embedded_code_asks_for_its_result() {
    let s = story("s", vec![("entry", vec![Child { attributes: vec![], content: ChildContent::EmbeddedCode(" 7 ".to_string()) }])]);
    let mut runtime = runtime_with(vec![s]);
    runtime.start("s", None).unwrap();
    match runtime.step_one() {
        Ok(Some(StepResult::NeedsScript(code))) => assert_eq!(code, " 7 "),
        _ => panic!("the script should be asked for"),
    }
    assert!(!runtime.can_step());
    runtime.resume_script(None, true);
    assert!(runtime.can_step());
    assert!(matches!(runtime.step_one(), Ok(None)));
}

#[test]
fn text_lines_render_templates_with_variables() {
    let template = TemplateLiteral {
        parts: vec![
            TemplateLiteralPart::Text("Hello ".to_string()),
            TemplateLiteralPart::Value(RValue::Variable(Variable { chain: vec!["name".to_string()] })),
            TemplateLiteralPart::Text("!".to_string()),
        ],
    };
    let line = Child {
        attributes: vec![],
        content: ChildContent::TextLine(
            LeadingText::Text("Bob".to_string()),
            Text::TemplateLiteral(template),
            TailingText::Text("w".to_string()),
        ),
    };
    let mut runtime = runtime_with(vec![story("s", vec![("entry", vec![line])])]);
    *runtime.context_mut().archive_variables_mut() =
        Literal::Object(vec![("name".to_string(), Literal::String("Alice".to_string()))]);
    runtime.start("s", None).unwrap();
    assert!(matches!(runtime.step_one(), Ok(Some(StepResult::Done))));
    assert_eq!(
        runtime.executor().texts,
        vec![(Some("Bob".to_string()), Some("Hello Alice!".to_string()), Some("w".to_string()))]
    );
}

#[test]
fn variables_are_looked_up_in_session_then_global() {
    let mut ctx = RuntimeContext::new();
    *ctx.archive_variables_mut() = Literal::Object(vec![("a".to_string(), Literal::Integer(1))]);
    *ctx.global_variables_mut() = Literal::Object(vec![
        ("a".to_string(), Literal::Integer(2)),
        ("b".to_string(), Literal::Integer(3)),
    ]);
    let var = |names: &[&str]| Variable { chain: names.iter().map(|s| s.to_string()).collect() };
    assert_eq!(get_variable(&ctx, &var(&["a"])).unwrap().as_integer().copied(), Ok(1));
    assert_eq!(get_variable(&ctx, &var(&["b"])).unwrap().as_integer().copied(), Ok(3));
    assert!(get_variable(&ctx, &var(&["c"])).unwrap().is_null());
    assert!(get_variable(&ctx, &var(&["a", "b"])).unwrap().is_null());
    *ctx.global_variables_mut() = Literal::Integer(5);
    assert!(get_variable(&ctx, &var(&["b"])).unwrap().is_null());
    *ctx.archive_variables_mut() = Literal::Null;
    assert_eq!(get_variable(&ctx, &var(&["a"])).err(), Some(RuntimeError::NotAObject));
}

#[test]
fn literal_text_of_nested_values() {
    let value = Literal::Array(vec![
        Literal::Null,
        Literal::Integer(-12),
        Literal::Boolean(true),
        Literal::Float(1.5f64.to_bits()),
        Literal::Object(vec![("k".to_string(), Literal::String("v".to_string()))]),
    ]);
    let floats = vec![(1.5f64.to_bits(), "1.5".to_string())];
    assert_eq!(literal_to_string(&value, &floats), "[null, -12, true, 1.5, {\"k\": v}]");
    assert_eq!(literal_to_string(&Literal::Array(vec![]), &floats), "[]");
}

#[test]
fn template_reports_unreadable_values() {
    let mut ctx = RuntimeContext::new();
    *ctx.archive_variables_mut() = Literal::Boolean(false);
    let template = TemplateLiteral {
        parts: vec![
            TemplateLiteralPart::Text("x=".to_string()),
            TemplateLiteralPart::Value(RValue::Variable(Variable { chain: vec!["x".to_string()] })),
            TemplateLiteralPart::Value(RValue::Literal(Literal::Integer(4))),
        ],
    };
    assert_eq!(calculate_template_literal(&ctx, &template, &Vec::new()), "x=[Error]4");
}

#[test]
fn terminate_clears_the_story() {
    let mut runtime = runtime_with(vec![story("s", vec![("entry", vec![command("a", vec![])])])]);
    assert_eq!(runtime.terminate(), Err(RuntimeError::StoryNotStarted));
    runtime.start("s", None).unwrap();
    *runtime.context_mut().archive_variables_mut() =
        Literal::Object(vec![("x".to_string(), Literal::Integer(1))]);
    assert_eq!(runtime.terminate(), Ok(()));
    assert!(runtime.context().stack().is_empty());
    assert!(matches!(runtime.context().archive_variables(), Literal::Object(o) if o.is_empty()));
    assert_eq!(runtime.executor().finished_calls, 1);

    runtime.start("s", None).unwrap();
    *runtime.context_mut().archive_variables_mut() = Literal::Integer(0);
    assert_eq!(runtime.terminate(), Err(RuntimeError::NotAObject));
    assert!(runtime.context().stack().is_empty());
}

#[test]
fn save_and_restore_the_stack() {
    let mut runtime = runtime_with(vec![story("s", vec![("entry", vec![command("a", vec![]), command("b", vec![])])])]);
    runtime.start("s", None).unwrap();
    let saved = runtime.save().unwrap();
    run(&mut runtime, &mut Vec::new()).unwrap();
    assert!(runtime.context().stack().is_empty());
    runtime.restore(saved).unwrap();
    assert_eq!(runtime.get_current_state().unwrap().index, 0);
    assert!(matches!(runtime.step_one(), Ok(Some(StepResult::Done))));
    assert_eq!(runtime.executor().commands.last().unwrap(), "a");
}

#[test]
fn listing_and_lookup() {
    let mut runtime = runtime_with(vec![
        story("one", vec![("entry", vec![command("a", vec![]), command("b", vec![])]), ("two", vec![])]),
        story("second", vec![]),
    ]);
    assert_eq!(runtime.list_stories(), vec!["one".to_string(), "second".to_string()]);
    assert_eq!(runtime.list_paragraphs("one").unwrap(), vec!["entry".to_string(), "two".to_string()]);
    assert_eq!(
        runtime.list_paragraphs("nope").err(),
        Some(RuntimeError::StoryNotFound("nope".to_string()))
    );
    assert!(runtime.has_story("second"));
    assert!(!runtime.has_story("third"));
    assert_eq!(runtime.get_paragraph("one", "two").unwrap().name, "two");
    let counted = std::cell::Cell::new(0);
    runtime
        .traverse_lines("one", "entry", |_| {
            counted.set(counted.get() + 1);
            Ok(true)
        })
        .unwrap();
    assert_eq!(counted.get(), 2);
    let stopped = std::cell::Cell::new(0);
    runtime
        .traverse_lines("one", "entry", |_| {
            stopped.set(stopped.get() + 1);
            Ok(false)
        })
        .unwrap();
    assert_eq!(stopped.get(), 1);
    let seen = std::cell::Cell::new(0);
    assert_eq!(
        runtime.traverse_lines("one", "entry", |_| {
            seen.set(seen.get() + 1);
            if seen.get() == 2 {
                Err(RuntimeError::StoryFinished)
            } else {
                Ok(true)
            }
        }),
        Err(RuntimeError::StoryFinished)
    );
    assert_eq!(seen.get(), 2);
    assert_eq!(
        runtime.traverse_lines("one", "zzz", |_| Ok(true)),
        Err(RuntimeError::ParagraphNotFound("zzz".to_string()))
    );
}

#[test]
fn current_state_can_be_moved() {
    let mut runtime = runtime_with(vec![story("s", vec![("entry", vec![command("a", vec![]), command("b", vec![])])])]);
    assert_eq!(runtime.get_current_state_mut().err(), Some(RuntimeError::StoryNotStarted));
    runtime.start("s", None).unwrap();
    runtime.get_current_state_mut().unwrap().index = 1;
    assert!(matches!(runtime.step_one(), Ok(Some(StepResult::Done))));
    assert_eq!(runtime.executor().commands, vec!["b".to_string()]);
    let state: ExecutionState = ExecutionState::new_loop_body("s".to_string(), "p".to_string(), Block { children: vec![] });
    assert!(state.is_loop_body);
}

#[test]
fn goto_to_a_loaded_paragraph_replaces_the_stack() {
    let s = story(
        "s",
        vec![
            ("entry", vec![block(vec![system_call("goto", vec![("paragraph", string("other"))]), command("never", vec![])])]),
            ("other", vec![command("there", vec![])]),
        ],
    );
    let mut runtime = runtime_with(vec![s]);
    runtime.start("s", None).unwrap();
    assert!(matches!(runtime.step_one(), Ok(None)));
    assert_eq!(runtime.context().stack().len(), 2);
    assert!(matches!(runtime.step_one(), Ok(None)));
    assert_eq!(runtime.context().stack().len(), 1);
    let state = runtime.get_current_state().unwrap();
    assert_eq!((state.story.as_str(), state.paragraph.as_str(), state.index), ("s", "other", 0));
    run(&mut runtime, &mut Vec::new()).unwrap();
    assert_eq!(runtime.executor().commands, vec!["there".to_string()]);
}

#[test]
fn replace_drops_the_blocks_of_the_paragraph() {
    let s = story(
        "s",
        vec![
            ("entry", vec![system_call("call", vec![("paragraph", string("mid"))]), command("back", vec![])]),
            ("mid", vec![block(vec![system_call("replace", vec![("paragraph", string("last"))])])]),
            ("last", vec![command("last", vec![])]),
        ],
    );
    let mut runtime = runtime_with(vec![s]);
    runtime.start("s", None).unwrap();
    assert!(matches!(runtime.step_one(), Ok(None)));
    assert!(matches!(runtime.step_one(), Ok(None)));
    assert_eq!(runtime.context().stack().len(), 3);
    assert!(matches!(runtime.step_one(), Ok(None)));
    let paragraphs: Vec<&str> = runtime.context().stack().iter().map(|s| s.paragraph.as_str()).collect();
    assert_eq!(paragraphs, vec!["entry", "last"]);
}

#[test]
fn finish_clears_the_stack_before_the_executor_is_told() {
    let mut runtime = runtime_with(vec![parse_story("s", "::entry {\n#finish\n@after\n}\n")]);
    runtime.start("s", None).unwrap();
    let mut conditions = Vec::new();
    let _ = run(&mut runtime, &mut conditions);
    assert!(runtime.context().stack().is_empty());
    assert!(runtime.executor().commands.is_empty());
    assert_eq!(runtime.executor().finished_calls, 1);
}
