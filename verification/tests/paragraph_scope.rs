use sixu::cst_parser::{parse_tolerant, FloatTable};
use sixu::error::RuntimeError;
use sixu::format::Story;
use sixu::runtime::{
    ResolvedCommandLine, ResolvedSystemCallLine, Runtime, RuntimeExecutor, StepResult,
};
use sixu::runtime_state::RuntimeContext;

#[derive(Default)]
struct CollectExecutor {
    values: Vec<String>,
}

impl RuntimeExecutor for CollectExecutor {
    fn handle_command(
        &mut self,
        _ctx: &mut RuntimeContext,
        command_line: &ResolvedCommandLine,
    ) -> Result<bool, RuntimeError> {
        if command_line.command == "capture" {
            let value = command_line
                .get_argument("value")
                .expect("capture command should provide a value");
            self.values.push(value.as_string().expect("a string value").clone());
        }
        Ok(false)
    }

    fn handle_extra_system_call(
        &mut self,
        _ctx: &mut RuntimeContext,
        _systemcall_line: &ResolvedSystemCallLine,
    ) -> Result<bool, RuntimeError> {
        unreachable!("these tests only use built-in system calls");
    }

    fn handle_text(
        &mut self,
        _ctx: &mut RuntimeContext,
        _leading: Option<&str>,
        _text: Option<&str>,
        _tailing: Option<&str>,
    ) -> Result<bool, RuntimeError> {
        Ok(false)
    }

    fn finished(&mut self, _ctx: &mut RuntimeContext) {}

    fn float_text(&self, bits: u64) -> String {
        f64::from_bits(bits).to_string()
    }
}

fn parse_story(name: &str, script: &str) -> Story {
    let floats: FloatTable = Vec::new();
    parse_tolerant(name, script, &floats).to_ast().expect("story should parse")
}

fn build_runtime(script: &str) -> Runtime<CollectExecutor> {
    let mut runtime = Runtime::new(CollectExecutor::default());
    runtime.add_story(parse_story("test", script));
    runtime
}

/// Runs single steps until the story pauses or needs something.
fn step(runtime: &mut Runtime<CollectExecutor>) -> Result<StepResult, RuntimeError> {
    loop {
        assert!(runtime.can_step());
        if let Some(result) = runtime.step_one()? {
            return Ok(result);
        }
    }
}

fn run_until_end(runtime: &mut Runtime<CollectExecutor>) -> Result<(), RuntimeError> {
    loop {
        match step(runtime) {
            Ok(StepResult::Done) => continue,
            Ok(StepResult::NeedsCondition(_)) => {
                panic!("condition evaluation is not expected in these tests")
            }
            Ok(StepResult::NeedsScript(_)) => {
                panic!("script evaluation is not expected in these tests")
            }
            Ok(StepResult::NeedsStoryFile(_)) => {
                panic!("story loading is handled only in dedicated tests")
            }
            Err(RuntimeError::StoryFinished | RuntimeError::StoryNotStarted) => return Ok(()),
            Err(err) => return Err(err),
        }
    }
}

#[test]
fn call_binds_paragraph_locals_and_defaults() {
    let script = r#"
::entry(name = "root") {
@capture value=name
{
  @capture value=name
}
#call paragraph="callee" name="alice"
@capture value=name
#finish
}

::callee(name, mood = "happy") {
@capture value=name
{
  @capture value=name
}
@capture value=mood
#leave
}
"#;

    let mut runtime = build_runtime(script);
    runtime.start("test", Some("entry")).unwrap();
    run_until_end(&mut runtime).unwrap();

    assert_eq!(
        runtime.executor().values,
        vec!["root", "root", "alice", "alice", "happy", "root"]
    );
}

#[test]
fn goto_can_forward_current_paragraph_local() {
    let script = r#"
::entry(name = "from_entry") {
#goto paragraph="target" name=name
}

::target(name) {
@capture value=name
#finish
}
"#;

    let mut runtime = build_runtime(script);
    runtime.start("test", Some("entry")).unwrap();
    run_until_end(&mut runtime).unwrap();

    assert_eq!(runtime.executor().values, vec!["from_entry"]);
}

#[test]
fn replace_keeps_caller_scope_isolated() {
    let script = r#"
::entry(name = "caller") {
#call paragraph="mid" name=name
@capture value=name
#finish
}

::mid(name) {
#replace paragraph="final" name=name
}

::final(name) {
@capture value=name
#leave
}
"#;

    let mut runtime = build_runtime(script);
    runtime.start("test", Some("entry")).unwrap();
    run_until_end(&mut runtime).unwrap();

    assert_eq!(runtime.executor().values, vec!["caller", "caller"]);
}

#[test]
fn top_level_fallthrough_uses_new_locals_with_defaults() {
    let script = r#"
::entry {
}

::next(name = "guest") {
@capture value=name
#finish
}
"#;

    let mut runtime = build_runtime(script);
    runtime.start("test", Some("entry")).unwrap();
    run_until_end(&mut runtime).unwrap();

    assert_eq!(runtime.executor().values, vec!["guest"]);
}

#[test]
fn start_requires_mandatory_entry_argument() {
    let entry_required = r#"
::entry(name) {
#finish
}
"#;
    let mut runtime = build_runtime(entry_required);

    let error = runtime.start("test", Some("entry")).unwrap_err();
    assert!(matches!(
        error,
        RuntimeError::MissingParagraphArgument {
            ref story,
            ref paragraph,
            ref argument,
        } if story == "test" && paragraph == "entry" && argument == "name"
    ));
    assert!(runtime.context().stack().is_empty());
}

#[test]
fn call_ignores_unexpected_arguments_after_warning() {
    let unexpected_arg = r#"
::entry {
#call paragraph="callee" extra="boom"
#finish
}

::callee(name = "guest") {
@capture value=name
#leave
}
"#;
    let mut runtime = build_runtime(unexpected_arg);
    runtime.start("test", Some("entry")).unwrap();

    run_until_end(&mut runtime).unwrap();
    assert_eq!(runtime.executor().values, vec!["guest"]);
}

#[test]
fn pending_story_file_keeps_resolved_paragraph_arguments() {
    let main_story = r#"
::entry(name = "main_name") {
#call story="other" paragraph="entry" name=name
#finish
}
"#;
    let external_story = r#"
::entry(name) {
@capture value=name
#leave
}
"#;

    let mut runtime = build_runtime(main_story);
    runtime.start("test", Some("entry")).unwrap();

    let requested_story = match step(&mut runtime).unwrap() {
        StepResult::NeedsStoryFile(name) => name,
        _ => panic!("expected story load request"),
    };
    assert_eq!(requested_story, "other");

    let no_floats: FloatTable = Vec::new();
    runtime
        .provide_story_data("other", external_story.as_bytes().to_vec(), &no_floats)
        .unwrap();
    run_until_end(&mut runtime).unwrap();

    assert_eq!(runtime.executor().values, vec!["main_name"]);
}

#[test]
fn call_without_a_mandatory_argument_is_an_error() {
    let script = r#"
::entry {
#call paragraph="callee"
#finish
}

::callee(name) {
#leave
}
"#;
    let mut runtime = build_runtime(script);
    runtime.start("test", Some("entry")).unwrap();
    let error = run_until_end(&mut runtime).unwrap_err();
    assert_eq!(
        error,
        RuntimeError::MissingParagraphArgument {
            story: "test".to_string(),
            paragraph: "callee".to_string(),
            argument: "name".to_string(),
        }
    );
}

#[test]
fn story_data_is_read_from_utf8_bytes() {
    let mut runtime = build_runtime("::entry {\n#finish\n}\n");
    let no_floats: FloatTable = Vec::new();
    assert_eq!(
        runtime.provide_story_data("other", "::entry {\n@a\n}\n".as_bytes().to_vec(), &no_floats),
        Ok(())
    );
    assert!(runtime.has_story("other"));
    let bad = runtime.provide_story_data("bad", vec![0xff, 0xfe], &no_floats).unwrap_err();
    assert!(bad.starts_with("Failed to parse story file: "));
    assert!(!runtime.has_story("bad"));
    let stuck = runtime.provide_story_data("stuck", "::p {\n@中\n}".as_bytes().to_vec(), &no_floats);
    assert_eq!(stuck, Err("Failed to parse story file 'stuck'".to_string()));
}
