//! Running a story one step at a time. The runtime walks the lines of the
//! current block, hands commands, text and unknown system calls to an
//! executor of the caller's, runs the built-in system calls (`goto`,
//! `call`, `replace`, `leave`, `break`, `continue`, `finish`) itself, and
//! stops to ask the caller for what it cannot decide: the value of a
//! condition, the result of embedded code, and the text of a story that is
//! not loaded yet.
use vstd::prelude::*;

use crate::error::{RuntimeError, RuntimeErrorV};
use crate::format::{
    Argument, ArgumentV, AttributeV, Child, ChildContent, ChildContentV, ChildV, LeadingText,
    Literal, LiteralV, Paragraph, ParagraphV, ParameterV, RValue, RValueV, Story, StoryV, TailingText, Text,
    TemplateLiteral, TemplatePartV, entries_view,
};
use crate::formatter::{float_texts_view, FloatTexts};
use crate::runtime_state::{
    calculate_template_literal, collect_floats, copy_entries, empty_context, find_paragraph, fresh_state,
    get_rvalue, lemma_paragraph_index_range, lemma_story_index_range, paragraph_index,
    rvalue_value, shift_top, states_view, story_index, template_floats, template_text,
    ExecutionState, ExecutionStateV, LoopControl, RuntimeContext, RuntimeContextV,
};
use crate::text::{push_str, str_eq};
use crate::cst_parser::{float_table_view, try_parse, FloatTable};
use crate::cst_grammar::{parse_tree, reader_finishes};
use crate::cst_ast::root_to_ast;
use crate::span::fits_positions;
use vstd::utf8::{decode_utf8, valid_utf8};

verus! {

/// What the runtime hands to the executor and what the executor may
/// change. Commands, text lines and system calls that the runtime does not
/// know are the executor's; each returns whether the next line should run
/// at once. `finished` is called when the story ends, and `float_text`
/// gives the text of a float (by its bit pattern) inside a template.
pub trait RuntimeExecutor {
    /// Handles a command line; `Ok(true)` runs the next line at once.
    fn handle_command(
        &mut self,
        ctx: &mut RuntimeContext,
        command_line: &ResolvedCommandLine,
    ) -> Result<bool, RuntimeError>;

    /// Handles a system call that the runtime does not know.
    fn handle_extra_system_call(
        &mut self,
        ctx: &mut RuntimeContext,
        systemcall_line: &ResolvedSystemCallLine,
    ) -> Result<bool, RuntimeError>;

    /// Shows a text line.
    fn handle_text(
        &mut self,
        ctx: &mut RuntimeContext,
        leading: Option<&str>,
        text: Option<&str>,
        tailing: Option<&str>,
    ) -> Result<bool, RuntimeError>;

    /// Called when the story has run to its end, with a context whose
    /// stack is empty.
    fn finished(&mut self, ctx: &mut RuntimeContext)
        requires
            old(ctx)@.stack.len() == 0,
    ;

    /// The text of the float with the given bit pattern.
    fn float_text(&self, bits: u64) -> String;
}

/// An argument whose value has been read.
pub struct ResolvedArgument {
    pub name: String,
    pub value: Literal,
}

/// A command line whose argument values have been read.
pub struct ResolvedCommandLine {
    pub command: String,
    pub arguments: Vec<ResolvedArgument>,
}

/// A system call line whose argument values have been read.
pub struct ResolvedSystemCallLine {
    pub command: String,
    pub arguments: Vec<ResolvedArgument>,
}

pub struct ResolvedArgumentV {
    pub name: Seq<char>,
    pub value: LiteralV,
}

pub struct ResolvedCallV {
    pub command: Seq<char>,
    pub arguments: Seq<ResolvedArgumentV>,
}

impl View for ResolvedArgument {
    type V = ResolvedArgumentV;

    open spec fn view(&self) -> ResolvedArgumentV {
        ResolvedArgumentV { name: self.name@, value: self.value@ }
    }
}

pub open spec fn resolved_view(v: Seq<ResolvedArgument>) -> Seq<ResolvedArgumentV> {
    v.map_values(|a: ResolvedArgument| a@)
}

impl View for ResolvedCommandLine {
    type V = ResolvedCallV;

    open spec fn view(&self) -> ResolvedCallV {
        ResolvedCallV { command: self.command@, arguments: resolved_view(self.arguments@) }
    }
}

impl View for ResolvedSystemCallLine {
    type V = ResolvedCallV;

    open spec fn view(&self) -> ResolvedCallV {
        ResolvedCallV { command: self.command@, arguments: resolved_view(self.arguments@) }
    }
}

/// The index of the first resolved argument with the given name.
pub open spec fn resolved_index(args: Seq<ResolvedArgumentV>, name: Seq<char>) -> Option<int>
    decreases args.len(),
{
    if args.len() == 0 {
        None
    } else if args[0].name == name {
        Some(0)
    } else {
        match resolved_index(args.drop_first(), name) {
            Some(i) => Some(i + 1),
            None => None,
        }
    }
}

proof fn lemma_resolved_index(args: Seq<ResolvedArgumentV>, name: Seq<char>, i: int)
    requires
        0 <= i <= args.len(),
        forall|j: int| 0 <= j < i ==> (#[trigger] args[j]).name != name,
    ensures
        i < args.len() && args[i].name == name ==> resolved_index(args, name) == Some(i),
        i == args.len() ==> resolved_index(args, name) is None,
        resolved_index(args, name) matches Some(k) ==> 0 <= k < args.len(),
    decreases i,
{
    lemma_resolved_index_range(args, name);
    if i > 0 {
        assert forall|j: int| 0 <= j < i - 1 implies (#[trigger] args.drop_first()[j]).name != name by {
            assert(args.drop_first()[j] == args[j + 1]);
        }
        lemma_resolved_index(args.drop_first(), name, i - 1);
    }
}

proof fn lemma_resolved_index_range(args: Seq<ResolvedArgumentV>, name: Seq<char>)
    ensures
        resolved_index(args, name) matches Some(k) ==> 0 <= k < args.len(),
    decreases args.len(),
{
    if args.len() > 0 {
        lemma_resolved_index_range(args.drop_first(), name);
    }
}

/// The value of the first argument with the given name, if any.
pub open spec fn resolved_get(args: Seq<ResolvedArgumentV>, name: Seq<char>) -> Option<LiteralV> {
    match resolved_index(args, name) {
        Some(i) => Some(args[i].value),
        None => None,
    }
}

fn find_resolved<'a>(args: &'a Vec<ResolvedArgument>, name: &str) -> (r: Option<&'a Literal>)
    ensures
        match resolved_get(resolved_view(args@), name@) {
            Some(v) => r matches Some(x) && x@ == v,
            None => r is None,
        },
{
    let ghost all = resolved_view(args@);
    let mut i: usize = 0;
    while i < args.len()
        invariant
            0 <= i <= args.len(),
            all == resolved_view(args@),
            forall|j: int| 0 <= j < i ==> (#[trigger] all[j]).name != name@,
        decreases args.len() - i,
    {
        assert(all[i as int] == args@[i as int]@);
        if str_eq(args[i].name.as_str(), name) {
            proof { lemma_resolved_index(all, name@, i as int); }
            return Some(&args[i].value);
        }
        i += 1;
    }
    proof { lemma_resolved_index(all, name@, i as int); }
    None
}

impl ResolvedCommandLine {
    /// The value of the first argument with the given name.
    pub fn get_argument(&self, name: &str) -> (r: Option<&Literal>)
        ensures
            match resolved_get(self@.arguments, name@) {
                Some(v) => r matches Some(x) && x@ == v,
                None => r is None,
            },
    {
        find_resolved(&self.arguments, name)
    }
}

fn copy_resolved(v: &Vec<ResolvedArgument>) -> (r: Vec<ResolvedArgument>)
    ensures
        resolved_view(r@) == resolved_view(v@),
{
    let mut out: Vec<ResolvedArgument> = Vec::new();
    let mut i: usize = 0;
    while i < v.len()
        invariant
            0 <= i <= v.len(),
            out@.len() == i,
            forall|j: int| 0 <= j < i ==> (#[trigger] out@[j])@ == v@[j]@,
        decreases v.len() - i,
    {
        out.push(ResolvedArgument { name: v[i].name.clone(), value: v[i].value.copy() });
        i += 1;
    }
    assert(resolved_view(out@) =~= resolved_view(v@));
    out
}

impl ResolvedSystemCallLine {
    /// The value of the first argument with the given name.
    pub fn get_argument(&self, name: &str) -> (r: Option<&Literal>)
        ensures
            match resolved_get(self@.arguments, name@) {
                Some(v) => r matches Some(x) && x@ == v,
                None => r is None,
            },
    {
        find_resolved(&self.arguments, name)
    }
}

/// The arguments with their values read in `c`, or the first error.
pub open spec fn resolve_spec(c: RuntimeContextV, args: Seq<ArgumentV>) -> Result<Seq<ResolvedArgumentV>, RuntimeErrorV>
    decreases args.len(),
{
    if args.len() == 0 {
        Ok(Seq::empty())
    } else {
        match resolve_spec(c, args.drop_last()) {
            Err(e) => Err(e),
            Ok(done) => match rvalue_value(c, args.last().value) {
                Err(e) => Err(e),
                Ok(v) => Ok(done.push(ResolvedArgumentV { name: args.last().name, value: v })),
            },
        }
    }
}

/// What a step of the runtime returns when it stops.
pub enum StepResult {
    /// Stopped normally, for instance to wait for the reader.
    Done,
    /// The condition must be evaluated; give its value to `resume_condition`.
    NeedsCondition(String),
    /// The code must be run; give its result to `resume_script`.
    NeedsScript(String),
    /// The story with this name must be loaded with `add_story`.
    NeedsStoryFile(String),
}

pub enum StepResultV {
    Done,
    NeedsCondition(Seq<char>),
    NeedsScript(Seq<char>),
    NeedsStoryFile(Seq<char>),
}

impl View for StepResult {
    type V = StepResultV;

    open spec fn view(&self) -> StepResultV {
        match self {
            StepResult::Done => StepResultV::Done,
            StepResult::NeedsCondition(s) => StepResultV::NeedsCondition(s@),
            StepResult::NeedsScript(s) => StepResultV::NeedsScript(s@),
            StepResult::NeedsStoryFile(s) => StepResultV::NeedsStoryFile(s@),
        }
    }
}

/// Where a paused step resumes.
enum StepPhase {
    Ready,
    AwaitingCondition { child: Child },
    AwaitingScript,
    AwaitingStoryFile { story_name: String, paragraph_name: String, arguments: Vec<ResolvedArgument> },
}

pub enum PhaseV {
    Ready,
    AwaitingCondition(ChildV),
    AwaitingScript,
    AwaitingStoryFile(Seq<char>, Seq<char>, Seq<ResolvedArgumentV>),
}

impl View for StepPhase {
    type V = PhaseV;

    closed spec fn view(&self) -> PhaseV {
        match self {
            StepPhase::Ready => PhaseV::Ready,
            StepPhase::AwaitingCondition { child } => PhaseV::AwaitingCondition(child@),
            StepPhase::AwaitingScript => PhaseV::AwaitingScript,
            StepPhase::AwaitingStoryFile { story_name, paragraph_name, arguments } => PhaseV::AwaitingStoryFile(
                story_name@,
                paragraph_name@,
                resolved_view(arguments@),
            ),
        }
    }
}

/// The runtime: a context, an executor, and where a paused step resumes.
pub struct Runtime<E: RuntimeExecutor> {
    context: RuntimeContext,
    executor: E,
    phase: StepPhase,
    condition_result: Option<bool>,
    script_result: Option<(Option<RValue>, bool)>,
}

pub struct RuntimeV {
    pub context: RuntimeContextV,
    pub phase: PhaseV,
    pub condition_result: Option<bool>,
    pub script_result: Option<(Option<RValueV>, bool)>,
}

pub open spec fn script_view(s: Option<(Option<RValue>, bool)>) -> Option<(Option<RValueV>, bool)> {
    match s {
        Some((v, k)) => Some(
            (
                match v {
                    Some(x) => Some(x@),
                    None => None,
                },
                k,
            ),
        ),
        None => None,
    }
}

impl<E: RuntimeExecutor> View for Runtime<E> {
    type V = RuntimeV;

    closed spec fn view(&self) -> RuntimeV {
        RuntimeV {
            context: self.context@,
            phase: self.phase@,
            condition_result: self.condition_result,
            script_result: script_view(self.script_result),
        }
    }
}

/// The story named `story` and its paragraph named `name`, or the error
/// for the one that is missing.
pub open spec fn paragraph_spec(c: RuntimeContextV, story: Seq<char>, name: Seq<char>) -> Result<ParagraphV, RuntimeErrorV> {
    match story_index(c.stories, story) {
        None => Err(RuntimeErrorV::StoryNotFound(story)),
        Some(i) => match paragraph_index(c.stories[i].paragraphs, name) {
            None => Err(RuntimeErrorV::ParagraphNotFound(name)),
            Some(j) => Ok(c.stories[i].paragraphs[j]),
        },
    }
}

/// `answer` is what `callback` may give on the content of `line`.
pub open spec fn line_answer<F: Fn(&ChildContent) -> Result<bool, RuntimeError>>(
    callback: F,
    line: ChildV,
    answer: Result<bool, RuntimeError>,
) -> bool {
    exists|x: Child| x@ == line && callback.ensures((&x.content,), answer)
}

/// `callback` may answer `Ok(true)` on each of the first `k` lines.
pub open spec fn lines_answered<F: Fn(&ChildContent) -> Result<bool, RuntimeError>>(
    callback: F,
    lines: Seq<ChildV>,
    k: int,
) -> bool {
    &&& 0 <= k <= lines.len()
    &&& forall|j: int| 0 <= j < k ==> #[trigger] line_answer(callback, lines[j], Ok(true))
}

impl<E: RuntimeExecutor> Runtime<E> {
    /// The executor, as held by the runtime.
    pub closed spec fn executor_value(&self) -> E {
        self.executor
    }

    /// A runtime with a fresh context.
    pub fn new(executor: E) -> (r: Self)
        ensures
            r@.context == empty_context(),
            r@.phase == PhaseV::Ready,
            r@.condition_result is None,
            r@.script_result is None,
            r.executor_value() == executor,
    {
        Runtime {
            context: RuntimeContext::new(),
            executor,
            phase: StepPhase::Ready,
            condition_result: None,
            script_result: None,
        }
    }

    /// A runtime with the given context.
    pub fn new_with_context(executor: E, context: RuntimeContext) -> (r: Self)
        ensures
            r@.context == context@,
            r@.phase == PhaseV::Ready,
            r@.condition_result is None,
            r@.script_result is None,
            r.executor_value() == executor,
    {
        Runtime { context, executor, phase: StepPhase::Ready, condition_result: None, script_result: None }
    }

    pub fn context(&self) -> (r: &RuntimeContext)
        ensures
            r@ == self@.context,
    {
        &self.context
    }

    pub fn context_mut(&mut self) -> (r: &mut RuntimeContext)
        ensures
            r@ == old(self)@.context,
            final(self)@ == (RuntimeV { context: final(r)@, ..old(self)@ }),
            final(self).executor_value() == old(self).executor_value(),
    {
        &mut self.context
    }

    pub fn executor(&self) -> (r: &E)
        ensures
            *r == self.executor_value(),
    {
        &self.executor
    }

    pub fn executor_mut(&mut self) -> (r: &mut E)
        ensures
            *r == old(self).executor_value(),
            final(self)@ == old(self)@,
            final(self).executor_value() == *final(r),
    {
        &mut self.executor
    }

    /// Adds a story to those the runtime knows.
    pub fn add_story(&mut self, story: Story)
        ensures
            final(self)@ == (RuntimeV {
                context: RuntimeContextV {
                    stories: old(self)@.context.stories.push(story@),
                    ..old(self)@.context
                },
                ..old(self)@
            }),
            final(self).executor_value() == old(self).executor_value(),
    {
        self.context.push_story(story);
    }

    /// Reads a story file that a step asked for and adds its story: the
    /// bytes must be UTF-8, and the float values of the text are taken
    /// from `floats` by their text. The error is the text of the UTF-8
    /// error, or names the story whose text cannot be read to its end.
    pub fn provide_story_data(&mut self, story_name: &str, data: Vec<u8>, floats: &FloatTable) -> (r: Result<(), String>)
        requires
            valid_utf8(data@) ==> fits_positions(decode_utf8(data@)),
        ensures
            !valid_utf8(data@) ==> (r matches Err(m) && m@ == "Failed to parse story file: "@
                + utf8_error_text(data@) && final(self)@ == old(self)@),
            valid_utf8(data@) ==> match story_of_text(story_name@, decode_utf8(data@), float_table_view(floats@)) {
                Some(story) => r is Ok && final(self)@ == (RuntimeV {
                    context: RuntimeContextV { stories: old(self)@.context.stories.push(story), ..old(self)@.context },
                    ..old(self)@
                }),
                None => r matches Err(m) && m@ == "Failed to parse story file '"@ + story_name@ + "'"@
                    && final(self)@ == old(self)@,
            },
            final(self).executor_value() == old(self).executor_value(),
    {
        let text = match string_from_utf8(data) {
            Ok(t) => t,
            Err(m) => {
                let mut msg = String::new();
                push_str(&mut msg, "Failed to parse story file: ");
                push_str(&mut msg, m.as_str());
                return Err(msg);
            },
        };
        match try_parse(story_name, text.as_str(), floats) {
            Some(root) => {
                let story = match root.to_ast() {
                    Ok(s) => s,
                    Err(_) => {
                        proof {
                            assert(false);
                        }
                        return Ok(());
                    },
                };
                self.add_story(story);
                Ok(())
            },
            None => {
                let mut msg = String::new();
                push_str(&mut msg, "Failed to parse story file '");
                push_str(&mut msg, story_name);
                push_str(&mut msg, "'");
                Err(msg)
            },
        }
    }

    /// Whether a story with this name is loaded.
    pub fn has_story(&self, name: &str) -> (r: bool)
        ensures
            r == story_index(self@.context.stories, name@) is Some,
    {
        self.context.find_story(name).is_some()
    }

    /// The first story with this name, or `StoryNotFound`.
    pub fn get_story(&self, name: &str) -> (r: Result<&Story, RuntimeError>)
        ensures
            match story_index(self@.context.stories, name@) {
                Some(i) => r matches Ok(s) && s@ == self@.context.stories[i],
                None => r matches Err(e) && e@ == RuntimeErrorV::StoryNotFound(name@),
            },
    {
        proof {
            lemma_story_index_range(self@.context.stories, name@);
        }
        match self.context.find_story(name) {
            Some(i) => Ok(self.context.story_at(i)),
            None => Err(RuntimeError::StoryNotFound(name.to_owned())),
        }
    }

    /// A paragraph of a story (see `paragraph_spec`).
    pub fn get_paragraph(&self, story_name: &str, name: &str) -> (r: Result<&Paragraph, RuntimeError>)
        ensures
            match paragraph_spec(self@.context, story_name@, name@) {
                Ok(p) => r matches Ok(x) && x@ == p,
                Err(e) => r matches Err(x) && x@ == e,
            },
    {
        proof {
            lemma_story_index_range(self@.context.stories, story_name@);
        }
        let story = self.get_story(story_name)?;
        proof {
            lemma_paragraph_index_range(story@.paragraphs, name@);
        }
        match find_paragraph(story, name) {
            Some(j) => {
                assert(story@.paragraphs[j as int] == story.paragraphs@[j as int]@);
                Ok(&story.paragraphs[j])
            },
            None => Err(RuntimeError::ParagraphNotFound(name.to_owned())),
        }
    }

    /// The names of the loaded stories, in order.
    pub fn list_stories(&self) -> (r: Vec<String>)
        ensures
            r@.map_values(|s: String| s@) == self@.context.stories.map_values(|s: StoryV| s.name),
    {
        let stories = self.context.stories();
        let mut out: Vec<String> = Vec::new();
        let mut i: usize = 0;
        while i < stories.len()
            invariant
                0 <= i <= stories@.len(),
                stories@.map_values(|s: Story| s@) == self@.context.stories,
                out@.len() == i,
                forall|j: int| 0 <= j < i ==> (#[trigger] out@[j])@ == stories@[j].name@,
            decreases stories.len() - i,
        {
            out.push(stories[i].name.clone());
            i += 1;
        }
        assert(out@.map_values(|s: String| s@) =~= self@.context.stories.map_values(
            |s: StoryV| s.name,
        ));
        out
    }

    /// The names of the paragraphs of a story, in order.
    pub fn list_paragraphs(&self, story_name: &str) -> (r: Result<Vec<String>, RuntimeError>)
        ensures
            match story_index(self@.context.stories, story_name@) {
                Some(i) => r matches Ok(v) && v@.map_values(|s: String| s@)
                    == self@.context.stories[i].paragraphs.map_values(|p: ParagraphV| p.name),
                None => r matches Err(e) && e@ == RuntimeErrorV::StoryNotFound(story_name@),
            },
    {
        let story = self.get_story(story_name)?;
        let mut out: Vec<String> = Vec::new();
        let mut i: usize = 0;
        while i < story.paragraphs.len()
            invariant
                0 <= i <= story.paragraphs@.len(),
                out@.len() == i,
                forall|j: int| 0 <= j < i ==> (#[trigger] out@[j])@ == story.paragraphs@[j].name@,
            decreases story.paragraphs.len() - i,
        {
            out.push(story.paragraphs[i].name.clone());
            i += 1;
        }
        assert(out@.map_values(|s: String| s@) =~= story@.paragraphs.map_values(
            |p: ParagraphV| p.name,
        ));
        Ok(out)
    }

    /// Calls `callback` on the content of each top-level line of a
    /// paragraph, in order, until it returns `Ok(false)` or an error.
    pub fn traverse_lines<F>(&mut self, story_name: &str, paragraph_name: &str, callback: F) -> (r: Result<(), RuntimeError>) where
        F: Fn(&ChildContent) -> Result<bool, RuntimeError>,

        requires
            forall|c: &ChildContent| callback.requires((c,)),
        ensures
            final(self)@ == old(self)@,
            final(self).executor_value() == old(self).executor_value(),
            paragraph_spec(old(self)@.context, story_name@, paragraph_name@) matches Err(e) ==> (r matches Err(x)
                && x@ == e),
            paragraph_spec(old(self)@.context, story_name@, paragraph_name@) matches Ok(p) ==> match r {
                Ok(_) => exists|k: int|
                    #![trigger lines_answered(callback, p.block, k)]
                    lines_answered(callback, p.block, k) && (k == p.block.len() || line_answer(
                        callback,
                        p.block[k],
                        Ok(false),
                    )),
                Err(e) => exists|k: int|
                    #![trigger lines_answered(callback, p.block, k)]
                    lines_answered(callback, p.block, k) && k < p.block.len() && line_answer(
                        callback,
                        p.block[k],
                        Err(e),
                    ),
            },
    {
        let paragraph = self.get_paragraph(story_name, paragraph_name)?;
        let ghost p = paragraph@;
        let mut i: usize = 0;
        while i < paragraph.block.children.len()
            invariant
                forall|c: &ChildContent| callback.requires((c,)),
                paragraph_spec(old(self)@.context, story_name@, paragraph_name@) == Ok::<ParagraphV, RuntimeErrorV>(p),
                p == paragraph@,
                i <= paragraph.block.children.len(),
                lines_answered(callback, p.block, i as int),
            decreases paragraph.block.children.len() - i,
        {
            let line = &paragraph.block.children[i];
            assert(p.block[i as int] == line@);
            let answer = callback(&line.content);
            assert(line_answer(callback, p.block[i as int], answer));
            match answer {
                Ok(true) => {},
                Ok(false) => {
                    assert(lines_answered(callback, p.block, i as int));
                    assert(line_answer(callback, p.block[i as int], Ok(false)));
                    assert(paragraph_spec(old(self)@.context, story_name@, paragraph_name@) matches Ok(q) && q == p);
                    return Ok(());
                },
                Err(e) => {
                    assert(lines_answered(callback, p.block, i as int));
                    assert(paragraph_spec(old(self)@.context, story_name@, paragraph_name@) matches Ok(q) && q == p);
                    return Err(e);
                },
            }
            i += 1;
        }
        assert(lines_answered(callback, p.block, i as int));
        Ok(())
    }

    /// A copy of the stack, to be restored later.
    pub fn save(&self) -> (r: Result<Vec<ExecutionState>, RuntimeError>)
        ensures
            r matches Ok(v) && states_view(v@) == self@.context.stack,
    {
        Ok(self.context.copy_stack())
    }

    /// Puts back a saved stack.
    pub fn restore(&mut self, states: Vec<ExecutionState>) -> (r: Result<(), RuntimeError>)
        ensures
            r is Ok,
            final(self)@ == (RuntimeV {
                context: RuntimeContextV { stack: states_view(states@), ..old(self)@.context },
                ..old(self)@
            }),
            final(self).executor_value() == old(self).executor_value(),
    {
        self.context.set_stack(states);
        Ok(())
    }
}


/// What leaving the innermost block does: the result, the context after,
/// and whether the story has ended, in which case the executor's
/// `finished` is called on that context.
pub struct BlockExit {
    pub result: Result<(), RuntimeErrorV>,
    pub context: RuntimeContextV,
    pub ended: bool,
}

/// Leaving the innermost block pops it. When that empties the stack the
/// story goes on with the paragraph after the one just left, entered with
/// no arguments (an error where it has a parameter without a default), or
/// ends when
/// there is none (or the paragraph is not found); a missing story is an
/// error. With an empty stack the story has already finished.
pub open spec fn leave_block(c: RuntimeContextV) -> BlockExit {
    if c.stack.len() == 0 {
        BlockExit { result: Err(RuntimeErrorV::StoryFinished), context: c, ended: false }
    } else {
        let st = c.stack.last();
        let c1 = RuntimeContextV { stack: c.stack.drop_last(), ..c };
        if c1.stack.len() > 0 {
            BlockExit { result: Ok(()), context: c1, ended: false }
        } else {
            match story_index(c1.stories, st.story) {
                None => BlockExit {
                    result: Err(RuntimeErrorV::StoryNotFound(st.story)),
                    context: c1,
                    ended: false,
                },
                Some(i) => {
                    let ps = c1.stories[i].paragraphs;
                    match paragraph_index(ps, st.paragraph) {
                        Some(j) => if j + 1 < ps.len() {
                            match bind_parameters(ps[j + 1].parameters, Seq::empty()) {
                                Ok(locals) => BlockExit {
                                    result: Ok(()),
                                    context: RuntimeContextV {
                                        stack: c1.stack.push(
                                            fresh_state(st.story, ps[j + 1].name, ps[j + 1].block, locals, false),
                                        ),
                                        ..c1
                                    },
                                    ended: false,
                                },
                                Err(a) => BlockExit {
                                    result: Err(
                                        RuntimeErrorV::MissingParagraphArgument {
                                            story: st.story,
                                            paragraph: ps[j + 1].name,
                                            argument: a,
                                        },
                                    ),
                                    context: c1,
                                    ended: false,
                                },
                            }
                        } else {
                            BlockExit { result: Ok(()), context: c1, ended: true }
                        },
                        None => BlockExit { result: Ok(()), context: c1, ended: true },
                    }
                },
            }
        }
    }
}

/// An exec unit result agrees with a spec one.
pub open spec fn unit_result(r: Result<(), RuntimeError>, s: Result<(), RuntimeErrorV>) -> bool {
    match s {
        Ok(_) => r is Ok,
        Err(e) => r matches Err(x) && x@ == e,
    }
}

/// The entry paragraph's name: the one given, or `entry`.
pub open spec fn entry_name_spec(entry: Option<Seq<char>>) -> Seq<char> {
    match entry {
        Some(e) => e,
        None => "entry"@,
    }
}

/// The text of the error that `String::from_utf8` gives on bytes that are
/// not UTF-8.
pub uninterp spec fn utf8_error_text(bytes: Seq<u8>) -> Seq<char>;

/// `String::from_utf8`: std gives the string the bytes encode when they
/// are UTF-8, and an error otherwise; the text of the error (its
/// `Display`) is named, as a function of the bytes.
#[verifier::external_body]
fn string_from_utf8(data: Vec<u8>) -> (r: Result<String, String>)
    ensures
        match r {
            Ok(s) => valid_utf8(data@) && s@ == decode_utf8(data@),
            Err(m) => !valid_utf8(data@) && m@ == utf8_error_text(data@),
        },
{
    match String::from_utf8(data) {
        Ok(s) => Ok(s),
        Err(e) => Err(e.to_string()),
    }
}

/// The story that a story file's text holds, read with these float
/// values; `None` where the reader would not get to its end.
pub open spec fn story_of_text(name: Seq<char>, text: Seq<char>, floats: Seq<(Seq<char>, u64)>) -> Option<StoryV> {
    if reader_finishes(text, floats) {
        Some(root_to_ast(parse_tree(name, text, floats).0))
    } else {
        None
    }
}

/// The locals of a paragraph entered with these arguments: each
/// parameter, in order, takes the value of the first argument of its
/// name, else its default; arguments that name no parameter are left
/// out. `Err` names the first parameter with neither.
pub open spec fn bind_parameters(
    params: Seq<ParameterV>,
    args: Seq<ResolvedArgumentV>,
) -> Result<Seq<(Seq<char>, LiteralV)>, Seq<char>>
    decreases params.len(),
{
    if params.len() == 0 {
        Ok(Seq::empty())
    } else {
        match bind_parameters(params.drop_last(), args) {
            Err(a) => Err(a),
            Ok(locals) => {
                let p = params.last();
                match resolved_get(args, p.name) {
                    Some(v) => Ok(locals.push((p.name, v))),
                    None => match p.default_value {
                        Some(d) => Ok(locals.push((p.name, d))),
                        None => Err(p.name),
                    },
                }
            },
        }
    }
}

/// The state that entering a paragraph with these arguments pushes: the
/// start of its block, with its parameters bound; or why it cannot be
/// entered.
pub open spec fn paragraph_entry(
    c: RuntimeContextV,
    story: Seq<char>,
    paragraph: Seq<char>,
    args: Seq<ResolvedArgumentV>,
) -> Result<ExecutionStateV, RuntimeErrorV> {
    match paragraph_spec(c, story, paragraph) {
        Err(e) => Err(e),
        Ok(p) => match bind_parameters(p.parameters, args) {
            Ok(locals) => Ok(fresh_state(story, paragraph, p.block, locals, false)),
            Err(a) => Err(RuntimeErrorV::MissingParagraphArgument { story, paragraph, argument: a }),
        },
    }
}

/// Starting a story: it needs some story loaded and an empty stack, and
/// enters the entry paragraph with no arguments, so an entry paragraph
/// with a parameter that has no default cannot be started.
pub open spec fn start_spec(c: RuntimeContextV, story: Seq<char>, entry: Seq<char>) -> (Result<(), RuntimeErrorV>, RuntimeContextV) {
    if c.stories.len() == 0 {
        (Err(RuntimeErrorV::NoStory), c)
    } else if c.stack.len() > 0 {
        (Err(RuntimeErrorV::StoryStarted), c)
    } else {
        match paragraph_entry(c, story, entry, Seq::empty()) {
            Ok(st) => (Ok(()), RuntimeContextV { stack: c.stack.push(st), ..c }),
            Err(e) => (Err(e), c),
        }
    }
}

proof fn lemma_bind_prefix_err(params: Seq<ParameterV>, args: Seq<ResolvedArgumentV>, k: int)
    requires
        0 <= k <= params.len(),
        bind_parameters(params.take(k), args) is Err,
    ensures
        bind_parameters(params, args) == bind_parameters(params.take(k), args),
    decreases params.len() - k,
{
    if k < params.len() {
        assert(params.drop_last().take(k) =~= params.take(k));
        lemma_bind_prefix_err(params.drop_last(), args, k);
    } else {
        assert(params.take(k) =~= params);
    }
}

/// The locals of a paragraph (see `bind_parameters`).
fn bind_exec(
    params: &Vec<crate::format::Parameter>,
    args: &Vec<ResolvedArgument>,
) -> (r: Result<Vec<(String, Literal)>, String>)
    ensures
        match bind_parameters(params@.map_values(|p: crate::format::Parameter| p@), resolved_view(args@)) {
            Ok(ls) => r matches Ok(x) && entries_view(x) == ls,
            Err(a) => r matches Err(x) && x@ == a,
        },
{
    let ghost all = params@.map_values(|p: crate::format::Parameter| p@);
    let ghost av = resolved_view(args@);
    let mut out: Vec<(String, Literal)> = Vec::new();
    let mut i: usize = 0;
    assert(all.take(0) =~= Seq::<ParameterV>::empty());
    assert(entries_view(out) =~= Seq::<(Seq<char>, LiteralV)>::empty());
    while i < params.len()
        invariant
            0 <= i <= params@.len(),
            all == params@.map_values(|p: crate::format::Parameter| p@),
            av == resolved_view(args@),
            bind_parameters(all.take(i as int), av) == Ok::<Seq<(Seq<char>, LiteralV)>, Seq<char>>(entries_view(out)),
        decreases params.len() - i,
    {
        let ghost before = entries_view(out);
        assert(all.take(i + 1).drop_last() =~= all.take(i as int));
        assert(all.take(i + 1).last() == params@[i as int]@);
        let p = &params[i];
        match find_resolved(args, p.name.as_str()) {
            Some(v) => {
                out.push((p.name.clone(), v.copy()));
            },
            None => match &p.default_value {
                Some(d) => {
                    out.push((p.name.clone(), d.copy()));
                },
                None => {
                    proof {
                        lemma_bind_prefix_err(all, av, i + 1);
                    }
                    return Err(p.name.clone());
                },
            },
        }
        assert(entries_view(out) =~= before.push((entries_view(out).last().0, entries_view(out).last().1)));
        i += 1;
    }
    assert(all.take(i as int) =~= all);
    Ok(out)
}

impl<E: RuntimeExecutor> Runtime<E> {
    /// Starts `story_name` at `entry_name`, or at the paragraph `entry`.
    pub fn start(&mut self, story_name: &str, entry_name: Option<&str>) -> (r: Result<(), RuntimeError>)
        ensures
            ({
                let entry = entry_name_spec(
                    match entry_name {
                        Some(e) => Some(e@),
                        None => None,
                    },
                );
                let (res, ctx) = start_spec(old(self)@.context, story_name@, entry);
                &&& unit_result(r, res)
                &&& final(self)@ == (RuntimeV { context: ctx, ..old(self)@ })
            }),
            final(self).executor_value() == old(self).executor_value(),
    {
        if self.context.stories().len() == 0 {
            return Err(RuntimeError::NoStory);
        }
        if self.context.stack().len() > 0 {
            return Err(RuntimeError::StoryStarted);
        }
        let entry = match entry_name {
            Some(e) => e,
            None => "entry",
        };
        proof {
            reveal_strlit("entry");
        }
        let no_arguments: Vec<ResolvedArgument> = Vec::new();
        assert(resolved_view(no_arguments@) =~= Seq::<ResolvedArgumentV>::empty());
        let st = self.entry_state(story_name, entry, &no_arguments)?;
        self.context.push_state(st);
        Ok(())
    }

    /// The state that entering a paragraph pushes (see `paragraph_entry`).
    fn entry_state(&self, story_name: &str, paragraph_name: &str, args: &Vec<ResolvedArgument>) -> (r: Result<ExecutionState, RuntimeError>)
        ensures
            match paragraph_entry(self@.context, story_name@, paragraph_name@, resolved_view(args@)) {
                Ok(st) => r matches Ok(x) && x@ == st,
                Err(e) => r matches Err(x) && x@ == e,
            },
    {
        let paragraph = self.get_paragraph(story_name, paragraph_name)?;
        match bind_exec(&paragraph.parameters, args) {
            Ok(locals) => Ok(ExecutionState::with_locals(
                story_name.to_owned(),
                paragraph_name.to_owned(),
                paragraph.block.copy(),
                locals,
                false,
            )),
            Err(argument) => Err(RuntimeError::MissingParagraphArgument {
                story: story_name.to_owned(),
                paragraph: paragraph_name.to_owned(),
                argument,
            }),
        }
    }

    /// Ends the story: clears the stack and the session variables and calls
    /// the executor's `finished`. Errors when no story is running, and when
    /// the session variables are not an object (after clearing the stack).
    pub fn terminate(&mut self) -> (r: Result<(), RuntimeError>)
        ensures
            old(self)@.context.stack.len() == 0 ==> {
                &&& r matches Err(e) && e@ == RuntimeErrorV::StoryNotStarted
                &&& final(self)@ == old(self)@
            },
            old(self)@.context.stack.len() > 0 && !(old(self)@.context.archive_variables is Object) ==> {
                &&& r matches Err(e) && e@ == RuntimeErrorV::NotAObject
                &&& final(self)@ == (RuntimeV {
                    context: RuntimeContextV { stack: Seq::empty(), ..old(self)@.context },
                    ..old(self)@
                })
            },
            old(self)@.context.stack.len() > 0 && old(self)@.context.archive_variables is Object ==> {
                &&& r is Ok
                &&& final(self)@.phase == old(self)@.phase
                &&& final(self)@.condition_result == old(self)@.condition_result
                &&& final(self)@.script_result == old(self)@.script_result
            },
    {
        if self.context.stack().len() == 0 {
            return Err(RuntimeError::StoryNotStarted);
        }
        self.context.clear_stack();
        if !self.context.clear_archive_object() {
            return Err(RuntimeError::NotAObject);
        }
        self.executor.finished(&mut self.context);
        Ok(())
    }

    /// The innermost block position, or `StoryNotStarted`.
    pub fn get_current_state(&self) -> (r: Result<&ExecutionState, RuntimeError>)
        ensures
            self@.context.stack.len() == 0 ==> (r matches Err(e) && e@ == RuntimeErrorV::StoryNotStarted),
            self@.context.stack.len() > 0 ==> (r matches Ok(s) && s@ == self@.context.stack.last()),
    {
        match self.context.top() {
            Some(s) => Ok(s),
            None => Err(RuntimeError::StoryNotStarted),
        }
    }

    /// The innermost block position, to change it, or `StoryNotStarted`.
    pub fn get_current_state_mut(&mut self) -> (r: Result<&mut ExecutionState, RuntimeError>)
        ensures
            final(self).executor_value() == old(self).executor_value(),
            old(self)@.context.stack.len() == 0 ==> {
                &&& r matches Err(e) && e@ == RuntimeErrorV::StoryNotStarted
                &&& final(self)@ == old(self)@
            },
            old(self)@.context.stack.len() > 0 ==> match r {
                Ok(x) => {
                    &&& x@ == old(self)@.context.stack.last()
                    &&& final(self)@ == (RuntimeV {
                        context: RuntimeContextV {
                            stack: old(self)@.context.stack.update(old(self)@.context.stack.len() - 1, final(x)@),
                            ..old(self)@.context
                        },
                        ..old(self)@
                    })
                },
                Err(_) => false,
            },
    {
        match self.context.top_mut() {
            Some(x) => Ok(x),
            None => Err(RuntimeError::StoryNotStarted),
        }
    }

    /// Leaves the innermost block (see `leave_block`).
    pub fn break_current_block(&mut self) -> (r: Result<(), RuntimeError>)
        ensures
            unit_result(r, leave_block(old(self)@.context).result),
            !leave_block(old(self)@.context).ended ==> {
                &&& final(self)@ == (RuntimeV { context: leave_block(old(self)@.context).context, ..old(self)@ })
                &&& final(self).executor_value() == old(self).executor_value()
            },
            final(self)@.phase == old(self)@.phase,
            final(self)@.condition_result == old(self)@.condition_result,
            final(self)@.script_result == old(self)@.script_result,
    {
        let state = match self.context.pop_state() {
            Some(s) => s,
            None => return Err(RuntimeError::StoryFinished),
        };
        if self.context.stack().len() > 0 {
            return Ok(());
        }
        proof {
            lemma_story_index_range(self@.context.stories, state@.story);
        }
        let next: Option<Paragraph> = {
            let story = self.get_story(state.story.as_str())?;
            proof {
                lemma_paragraph_index_range(story@.paragraphs, state@.paragraph);
            }
            match find_paragraph(story, state.paragraph.as_str()) {
                Some(j) => {
                    if j < story.paragraphs.len() - 1 {
                        assert(story@.paragraphs[j + 1] == story.paragraphs@[j + 1]@);
                        Some(story.paragraphs[j + 1].copy())
                    } else {
                        None
                    }
                },
                None => None,
            }
        };
        match next {
            Some(p) => {
                let no_arguments: Vec<ResolvedArgument> = Vec::new();
                assert(resolved_view(no_arguments@) =~= Seq::<ResolvedArgumentV>::empty());
                let Paragraph { name, parameters, block } = p;
                match bind_exec(&parameters, &no_arguments) {
                    Ok(locals) => {
                        self.context.push_state(ExecutionState::with_locals(state.story, name, block, locals, false));
                    },
                    Err(argument) => {
                        return Err(RuntimeError::MissingParagraphArgument { story: state.story, paragraph: name, argument });
                    },
                }
            },
            None => {
                self.executor.finished(&mut self.context);
            },
        }
        Ok(())
    }

    /// Reads the values of the arguments in the current context.
    pub fn resolve_arguments(&mut self, args: Vec<Argument>) -> (r: Result<Vec<ResolvedArgument>, RuntimeError>)
        ensures
            final(self)@ == old(self)@,
            final(self).executor_value() == old(self).executor_value(),
            match resolve_spec(old(self)@.context, args@.map_values(|a: Argument| a@)) {
                Ok(v) => r matches Ok(x) && resolved_view(x@) == v,
                Err(e) => r matches Err(x) && x@ == e,
            },
    {
        resolve_list(&self.context, &args)
    }

    /// Gives the value of the condition that the last step asked for.
    pub fn resume_condition(&mut self, result: bool)
        ensures
            final(self)@ == (RuntimeV { condition_result: Some(result), ..old(self)@ }),
            final(self).executor_value() == old(self).executor_value(),
    {
        self.condition_result = Some(result);
    }

    /// Gives the result of the code that the last step asked to run, and
    /// whether the next line should run at once.
    pub fn resume_script(&mut self, result: Option<RValue>, is_continue: bool)
        ensures
            final(self)@ == (RuntimeV {
                script_result: Some(
                    (
                        match result {
                            Some(x) => Some(x@),
                            None => None,
                        },
                        is_continue,
                    ),
                ),
                ..old(self)@
            }),
            final(self).executor_value() == old(self).executor_value(),
    {
        self.script_result = Some((result, is_continue));
    }
}

proof fn lemma_resolve_error_extends(c: RuntimeContextV, s: Seq<ArgumentV>, k: int)
    requires
        0 <= k <= s.len(),
        resolve_spec(c, s.take(k)) is Err,
    ensures
        resolve_spec(c, s) == resolve_spec(c, s.take(k)),
    decreases s.len() - k,
{
    if k == s.len() {
        assert(s.take(k) =~= s);
    } else {
        assert(s.take(k + 1).drop_last() =~= s.take(k));
        lemma_resolve_error_extends(c, s, k + 1);
    }
}

fn resolve_list(ctx: &RuntimeContext, args: &Vec<Argument>) -> (r: Result<Vec<ResolvedArgument>, RuntimeError>)
    ensures
        match resolve_spec(ctx@, args@.map_values(|a: Argument| a@)) {
            Ok(v) => r matches Ok(x) && resolved_view(x@) == v,
            Err(e) => r matches Err(x) && x@ == e,
        },
{
    let ghost all = args@.map_values(|a: Argument| a@);
    let mut out: Vec<ResolvedArgument> = Vec::new();
    let mut i: usize = 0;
    assert(all.take(0) =~= Seq::<ArgumentV>::empty());
    assert(resolved_view(out@) =~= Seq::<ResolvedArgumentV>::empty());
    while i < args.len()
        invariant
            0 <= i <= args@.len(),
            all == args@.map_values(|a: Argument| a@),
            resolve_spec(ctx@, all.take(i as int)) == Ok::<Seq<ResolvedArgumentV>, RuntimeErrorV>(
                resolved_view(out@),
            ),
        decreases args.len() - i,
    {
        proof {
            assert(all.take(i + 1).drop_last() =~= all.take(i as int));
            assert(all.take(i + 1).last() == args@[i as int]@);
        }
        let ghost before = out@;
        match get_rvalue(ctx, &args[i].value) {
            Ok(v) => {
                out.push(ResolvedArgument { name: args[i].name.clone(), value: v });
                assert(resolved_view(out@) =~= resolved_view(before).push(out@.last()@));
            },
            Err(e) => {
                proof {
                    lemma_resolve_error_extends(ctx@, all, i as int + 1);
                }
                return Err(e);
            },
        }
        i += 1;
    }
    assert(all.take(i as int) =~= all);
    Ok(out)
}


// ---------------------------------------------------------------------
// Built-in system calls
// ---------------------------------------------------------------------

/// A string argument of a system call: missing, a string, or another value.
pub enum ArgText {
    Missing,
    Text(Seq<char>),
    NotText,
}

pub open spec fn arg_text(args: Seq<ResolvedArgumentV>, name: Seq<char>) -> ArgText {
    match resolved_get(args, name) {
        None => ArgText::Missing,
        Some(LiteralV::Str(s)) => ArgText::Text(s),
        Some(_) => ArgText::NotText,
    }
}

/// The story and paragraph a jump goes to: the `story` argument, or the
/// story of the innermost block when there is none, and the `paragraph`
/// argument; both must be strings, and the paragraph must be given.
pub open spec fn jump_target(c: RuntimeContextV, args: Seq<ResolvedArgumentV>) -> Result<(Seq<char>, Seq<char>), RuntimeErrorV> {
    let story = match arg_text(args, "story"@) {
        ArgText::Missing => Ok(c.stack.last().story),
        ArgText::Text(s) => Ok(s),
        ArgText::NotText => Err(RuntimeErrorV::WrongArgumentSystemCallLine("Expected a string argument"@)),
    };
    match story {
        Err(e) => Err(e),
        Ok(s) => match arg_text(args, "paragraph"@) {
            ArgText::Missing => Err(RuntimeErrorV::WrongArgumentSystemCallLine("Paragraph name not provided"@)),
            ArgText::NotText => Err(RuntimeErrorV::WrongArgumentSystemCallLine("Expected a string argument"@)),
            ArgText::Text(p) => Ok((s, p)),
        },
    }
}

/// What a system call does to the context.
pub enum SysOutcome {
    /// Done: the result (whether to go on at once) and the context after.
    Done { result: Result<bool, RuntimeErrorV>, context: RuntimeContextV },
    /// The story is not loaded: the step waits for it, keeping the
    /// arguments for the paragraph.
    AwaitStory {
        context: RuntimeContextV,
        story: Seq<char>,
        paragraph: Seq<char>,
        arguments: Seq<ResolvedArgumentV>,
    },
    /// The story ended; the executor's `finished` gets this context.
    Ended { result: Result<bool, RuntimeErrorV>, context: RuntimeContextV },
    /// Not a built-in: the executor handles it.
    Extra,
}

/// Entering a paragraph of a loaded story with these arguments pushes its
/// block with its parameters bound (see `paragraph_entry`); a story that
/// is not loaded is waited for.
pub open spec fn enter_paragraph(
    c: RuntimeContextV,
    story: Seq<char>,
    paragraph: Seq<char>,
    arguments: Seq<ResolvedArgumentV>,
) -> SysOutcome {
    match story_index(c.stories, story) {
        None => SysOutcome::AwaitStory { context: c, story, paragraph, arguments },
        Some(_) => match paragraph_entry(c, story, paragraph, arguments) {
            Ok(st) => SysOutcome::Done {
                result: Ok(true),
                context: RuntimeContextV { stack: c.stack.push(st), ..c },
            },
            Err(e) => SysOutcome::Done { result: Err(e), context: c },
        },
    }
}

/// The stack without the blocks on top that belong to the given paragraph.
pub open spec fn unwind_paragraph(stack: Seq<ExecutionStateV>, story: Seq<char>, paragraph: Seq<char>) -> Seq<ExecutionStateV>
    decreases stack.len(),
{
    if stack.len() > 0 && stack.last().story == story && stack.last().paragraph == paragraph {
        unwind_paragraph(stack.drop_last(), story, paragraph)
    } else {
        stack
    }
}

/// The built-in system calls: `goto` clears the stack and enters a
/// paragraph, `replace` drops the current paragraph's blocks and enters
/// one, `call` enters one on top (each binding the target's parameters
/// from the call's arguments), `leave` leaves the innermost block,
/// `break` and `continue` signal the innermost loop, and `finish` clears
/// the stack and ends the story.
pub open spec fn syscall_outcome(c: RuntimeContextV, call: ResolvedCallV) -> SysOutcome {
    let cmd = call.command;
    if cmd == "goto"@ || cmd == "replace"@ || cmd == "call"@ {
        match jump_target(c, call.arguments) {
            Err(e) => SysOutcome::Done { result: Err(e), context: c },
            Ok((story, paragraph)) => {
                let c1 = if cmd == "goto"@ {
                    RuntimeContextV { stack: Seq::empty(), ..c }
                } else if cmd == "replace"@ {
                    RuntimeContextV {
                        stack: unwind_paragraph(
                            c.stack.drop_last(),
                            c.stack.last().story,
                            c.stack.last().paragraph,
                        ),
                        ..c
                    }
                } else {
                    c
                };
                enter_paragraph(c1, story, paragraph, call.arguments)
            },
        }
    } else if cmd == "leave"@ {
        let x = leave_block(c);
        match x.result {
            Err(e) => SysOutcome::Done { result: Err(e), context: x.context },
            Ok(_) => if x.ended {
                SysOutcome::Ended { result: Ok(true), context: x.context }
            } else {
                SysOutcome::Done { result: Ok(true), context: x.context }
            },
        }
    } else if cmd == "break"@ {
        SysOutcome::Done {
            result: Ok(true),
            context: RuntimeContextV { loop_control: Some(LoopControl::Break), ..c },
        }
    } else if cmd == "continue"@ {
        SysOutcome::Done {
            result: Ok(true),
            context: RuntimeContextV { loop_control: Some(LoopControl::Continue), ..c },
        }
    } else if cmd == "finish"@ {
        SysOutcome::Ended { result: Ok(false), context: RuntimeContextV { stack: Seq::empty(), ..c } }
    } else {
        SysOutcome::Extra
    }
}

/// A jump needs a current block when it names no story, and `replace`
/// needs one to drop whenever its arguments are right.
pub open spec fn syscall_safe(c: RuntimeContextV, call: ResolvedCallV) -> bool {
    let cmd = call.command;
    &&& (cmd == "goto"@ || cmd == "call"@) ==> (arg_text(call.arguments, "story"@) is Missing ==> c.stack.len() > 0)
    &&& cmd == "replace"@ ==> (arg_text(call.arguments, "story"@) is Missing || jump_target(c, call.arguments) is Ok
        ==> c.stack.len() > 0)
}

pub open spec fn bool_result(r: Result<Option<bool>, RuntimeError>, s: Result<bool, RuntimeErrorV>) -> bool {
    match s {
        Ok(b) => r == Ok::<Option<bool>, RuntimeError>(Some(b)),
        Err(e) => r matches Err(x) && x@ == e,
    }
}

impl<E: RuntimeExecutor> Runtime<E> {
    /// The string argument `name` of a jump, or the story of the innermost
    /// block for a missing `story`.
    fn jump_argument(&self, line: &ResolvedSystemCallLine, name: &str, is_story: bool) -> (r: Result<String, RuntimeError>)
        requires
            is_story && arg_text(line@.arguments, name@) is Missing ==> self@.context.stack.len() > 0,
        ensures
            match arg_text(line@.arguments, name@) {
                ArgText::Text(s) => r matches Ok(x) && x@ == s,
                ArgText::NotText => r matches Err(e) && e@ == RuntimeErrorV::WrongArgumentSystemCallLine(
                    "Expected a string argument"@,
                ),
                ArgText::Missing => if is_story {
                    r matches Ok(x) && x@ == self@.context.stack.last().story
                } else {
                    r matches Err(e) && e@ == RuntimeErrorV::WrongArgumentSystemCallLine(
                        "Paragraph name not provided"@,
                    )
                },
            },
    {
        match line.get_argument(name) {
            Some(v) => match v {
                Literal::String(s) => Ok(s.clone()),
                _ => Err(RuntimeError::WrongArgumentSystemCallLine("Expected a string argument".to_owned())),
            },
            None => {
                if is_story {
                    match self.context.top() {
                        Some(t) => Ok(t.story.clone()),
                        None => {
                            proof {
                                assert(false);
                            }
                            Ok(String::new())
                        },
                    }
                } else {
                    Err(RuntimeError::WrongArgumentSystemCallLine("Paragraph name not provided".to_owned()))
                }
            },
        }
    }

    /// Enters a paragraph with these arguments (see `enter_paragraph`).
    fn enter(&mut self, story_name: String, paragraph_name: String, arguments: &Vec<ResolvedArgument>) -> (r: Result<Option<bool>, RuntimeError>)
        requires
            old(self)@.phase is Ready,
        ensures
            final(self).executor_value() == old(self).executor_value(),
            match enter_paragraph(old(self)@.context, story_name@, paragraph_name@, resolved_view(arguments@)) {
                SysOutcome::Done { result, context } => bool_result(r, result) && final(self)@ == (RuntimeV {
                    context,
                    ..old(self)@
                }),
                SysOutcome::AwaitStory { context, story, paragraph, arguments } => r == Ok::<Option<bool>, RuntimeError>(None)
                    && final(self)@ == (RuntimeV {
                    context,
                    phase: PhaseV::AwaitingStoryFile(story, paragraph, arguments),
                    ..old(self)@
                }),
                _ => false,
            },
    {
        if self.has_story(story_name.as_str()) {
            let st = self.entry_state(story_name.as_str(), paragraph_name.as_str(), arguments)?;
            self.context.push_state(st);
            Ok(Some(true))
        } else {
            self.phase = StepPhase::AwaitingStoryFile { story_name, paragraph_name, arguments: copy_resolved(arguments) };
            Ok(None)
        }
    }

    /// Runs a system call line (see `syscall_outcome`); `Ok(None)` when the
    /// step must wait for a story.
    fn handle_system_call(&mut self, line: &ResolvedSystemCallLine) -> (r: Result<Option<bool>, RuntimeError>)
        requires
            old(self)@.phase is Ready,
            syscall_safe(old(self)@.context, line@),
        ensures
            match syscall_outcome(old(self)@.context, line@) {
                SysOutcome::Done { result, context } => {
                    &&& bool_result(r, result)
                    &&& final(self)@ == (RuntimeV { context, ..old(self)@ })
                    &&& final(self).executor_value() == old(self).executor_value()
                },
                SysOutcome::AwaitStory { context, story, paragraph, arguments } => {
                    &&& r == Ok::<Option<bool>, RuntimeError>(None)
                    &&& final(self)@ == (RuntimeV {
                        context,
                        phase: PhaseV::AwaitingStoryFile(story, paragraph, arguments),
                        ..old(self)@
                    })
                    &&& final(self).executor_value() == old(self).executor_value()
                },
                SysOutcome::Ended { result, context } => {
                    &&& bool_result(r, result)
                    &&& final(self)@.phase == old(self)@.phase
                    &&& final(self)@.condition_result == old(self)@.condition_result
                    &&& final(self)@.script_result == old(self)@.script_result
                },
                SysOutcome::Extra => {
                    &&& (r is Err || r matches Ok(Some(_)))
                    &&& final(self)@.phase == old(self)@.phase
                    &&& final(self)@.condition_result == old(self)@.condition_result
                    &&& final(self)@.script_result == old(self)@.script_result
                },
            },
    {
        let cmd = line.command.as_str();
        let is_goto = str_eq(cmd, "goto");
        let is_replace = str_eq(cmd, "replace");
        let is_call = str_eq(cmd, "call");
        if is_goto || is_replace || is_call {
            let story_name = self.jump_argument(line, "story", true)?;
            let paragraph_name = self.jump_argument(line, "paragraph", false)?;
            if is_goto {
                self.context.clear_stack();
            } else if is_replace {
                let current = match self.context.pop_state() {
                    Some(s) => s,
                    None => {
                        proof {
                            assert(false);
                        }
                        return Ok(Some(true));
                    },
                };
                let ghost story = current@.story;
                let ghost paragraph = current@.paragraph;
                let ghost start = self@;
                let mut same = self.context.top_is(current.story.as_str(), current.paragraph.as_str());
                while same
                    invariant
                        self@.phase is Ready,
                        current@.story == story,
                        current@.paragraph == paragraph,
                        same == (self@.context.stack.len() > 0 && self@.context.stack.last().story == story
                            && self@.context.stack.last().paragraph == paragraph),
                        unwind_paragraph(self@.context.stack, story, paragraph) == unwind_paragraph(
                            start.context.stack,
                            story,
                            paragraph,
                        ),
                        self@ == (RuntimeV {
                            context: RuntimeContextV { stack: self@.context.stack, ..start.context },
                            ..start
                        }),
                        self.executor_value() == old(self).executor_value(),
                    decreases self@.context.stack.len(),
                {
                    self.context.pop_state();
                    same = self.context.top_is(current.story.as_str(), current.paragraph.as_str());
                }
            }
            return self.enter(story_name, paragraph_name, &line.arguments);
        }
        if str_eq(cmd, "leave") {
            self.break_current_block()?;
            return Ok(Some(true));
        }
        if str_eq(cmd, "break") {
            self.context.set_loop_control(LoopControl::Break);
            return Ok(Some(true));
        }
        if str_eq(cmd, "continue") {
            self.context.set_loop_control(LoopControl::Continue);
            return Ok(Some(true));
        }
        if str_eq(cmd, "finish") {
            self.context.clear_stack();
            self.executor.finished(&mut self.context);
            return Ok(Some(false));
        }
        let k = self.executor.handle_extra_system_call(&mut self.context, line)?;
        Ok(Some(k))
    }
}


// ---------------------------------------------------------------------
// Lines and steps
// ---------------------------------------------------------------------

/// The attribute that governs a line: the last one written before it.
pub open spec fn last_attribute(c: ChildV) -> Option<AttributeV> {
    if c.attributes.len() > 0 {
        Some(c.attributes.last())
    } else {
        None
    }
}

pub open spec fn is_condition_keyword(k: Seq<char>) -> bool {
    k == "cond"@ || k == "if"@ || k == "while"@
}

/// Whether the line's attribute reads the value of a condition.
pub open spec fn consults_condition(c: ChildV) -> bool {
    match last_attribute(c) {
        Some(a) => is_condition_keyword(a.keyword) && a.condition is Some,
        None => false,
    }
}

/// What the attribute of a line asks for.
pub enum AttrPlan {
    /// Run the line once.
    Plain,
    /// Ask the caller for the value of this condition first.
    Ask(Seq<char>),
    /// The condition is false: skip the line.
    Skip,
    /// Run the line as a loop body, and come back to it afterwards.
    Repeat,
}

/// `#[cond(..)]` and `#[if(..)]` run a line when the condition holds,
/// `#[while(..)]` runs it as a loop while it holds, `#[loop]` always loops;
/// a condition that has not been evaluated yet is asked for.
pub open spec fn attr_plan(c: ChildV, cond: Option<bool>) -> AttrPlan {
    match last_attribute(c) {
        None => AttrPlan::Plain,
        Some(a) => if is_condition_keyword(a.keyword) {
            match a.condition {
                None => AttrPlan::Plain,
                Some(cs) => match cond {
                    None => AttrPlan::Ask(cs),
                    Some(b) => if !b {
                        AttrPlan::Skip
                    } else if a.keyword == "while"@ {
                        AttrPlan::Repeat
                    } else {
                        AttrPlan::Plain
                    },
                },
            }
        } else if a.keyword == "loop"@ {
            AttrPlan::Repeat
        } else {
            AttrPlan::Plain
        },
    }
}

/// What a step does.
pub enum StepOutcome {
    /// The result and the runtime after are known.
    Exact { result: Result<Option<StepResultV>, RuntimeErrorV>, after: RuntimeV },
    /// The story ended and the executor's `finished` was called on
    /// `after.context`: the result and the rest of the runtime are known.
    Ended { result: Result<Option<StepResultV>, RuntimeErrorV>, after: RuntimeV },
    /// The line went to the executor, which may change the context: the
    /// step goes on (`None`), stops (`Done`) or fails as the executor says;
    /// the rest of the runtime is `after`'s.
    Handed { after: RuntimeV },
}

pub open spec fn continue_result(go_on: bool) -> Option<StepResultV> {
    if go_on {
        None
    } else {
        Some(StepResultV::Done)
    }
}

pub open spec fn map_bool(r: Result<bool, RuntimeErrorV>) -> Result<Option<StepResultV>, RuntimeErrorV> {
    match r {
        Ok(b) => Ok(continue_result(b)),
        Err(e) => Err(e),
    }
}

pub open spec fn with_context(rt: RuntimeV, c: RuntimeContextV) -> RuntimeV {
    RuntimeV { context: c, ..rt }
}

/// What running the content of a line does.
pub open spec fn content_outcome(rt: RuntimeV, content: ChildContentV, is_loop: bool) -> StepOutcome {
    let c = rt.context;
    match content {
        ChildContentV::Block(b) => if c.stack.len() == 0 {
            StepOutcome::Exact { result: Err(RuntimeErrorV::StoryNotStarted), after: rt }
        } else {
            StepOutcome::Exact {
                result: Ok(None),
                after: with_context(
                    rt,
                    RuntimeContextV {
                        stack: c.stack.push(
                            fresh_state(
                                c.stack.last().story,
                                c.stack.last().paragraph,
                                b,
                                c.stack.last().locals,
                                is_loop,
                            ),
                        ),
                        ..c
                    },
                ),
            }
        },
        ChildContentV::EmbeddedCode(code) => match rt.script_result {
            Some((_, k)) => StepOutcome::Exact {
                result: Ok(continue_result(k)),
                after: RuntimeV { script_result: None, ..rt },
            },
            None => StepOutcome::Exact {
                result: Ok(Some(StepResultV::NeedsScript(code))),
                after: RuntimeV { phase: PhaseV::AwaitingScript, ..rt },
            },
        },
        ChildContentV::TextLine(_, _, _) => StepOutcome::Handed { after: rt },
        ChildContentV::CommandLine(call) => match resolve_spec(c, call.arguments) {
            Err(e) => StepOutcome::Exact { result: Err(e), after: rt },
            Ok(_) => StepOutcome::Handed { after: rt },
        },
        ChildContentV::SystemCallLine(call) => match resolve_spec(c, call.arguments) {
            Err(e) => StepOutcome::Exact { result: Err(e), after: rt },
            Ok(args) => match syscall_outcome(c, ResolvedCallV { command: call.command, arguments: args }) {
                SysOutcome::Done { result, context } => StepOutcome::Exact {
                    result: map_bool(result),
                    after: with_context(rt, context),
                },
                SysOutcome::AwaitStory { context, story, paragraph, arguments } => StepOutcome::Exact {
                    result: Ok(Some(StepResultV::NeedsStoryFile(story))),
                    after: RuntimeV { context, phase: PhaseV::AwaitingStoryFile(story, paragraph, arguments), ..rt },
                },
                SysOutcome::Ended { result, context } => StepOutcome::Ended {
                    result: map_bool(result),
                    after: with_context(rt, context),
                },
                SysOutcome::Extra => StepOutcome::Handed { after: rt },
            },
        },
    }
}

/// What running a line does: its attribute first, then its content. A
/// condition value that the attribute reads is used up.
pub open spec fn child_outcome(rt: RuntimeV, child: ChildV) -> StepOutcome {
    let rt0 = if consults_condition(child) {
        RuntimeV { condition_result: None, ..rt }
    } else {
        rt
    };
    match attr_plan(child, rt.condition_result) {
        AttrPlan::Ask(cs) => StepOutcome::Exact {
            result: Ok(Some(StepResultV::NeedsCondition(cs))),
            after: RuntimeV { phase: PhaseV::AwaitingCondition(child), ..rt },
        },
        AttrPlan::Skip => StepOutcome::Exact { result: Ok(None), after: rt0 },
        AttrPlan::Plain => content_outcome(rt0, child.content, false),
        AttrPlan::Repeat => if rt0.context.stack.len() == 0 {
            StepOutcome::Exact { result: Err(RuntimeErrorV::StoryNotStarted), after: rt0 }
        } else {
            content_outcome(with_context(rt0, shift_top(rt0.context, false)), child.content, true)
        },
    }
}

/// The stack without the blocks down to and including the innermost loop
/// body, and whether there was one.
pub open spec fn pop_to_loop(stack: Seq<ExecutionStateV>) -> (Seq<ExecutionStateV>, bool)
    decreases stack.len(),
{
    if stack.len() == 0 {
        (stack, false)
    } else if stack.last().is_loop_body {
        (stack.drop_last(), true)
    } else {
        pop_to_loop(stack.drop_last())
    }
}

/// A pending loop signal leaves the innermost loop body; `break` also
/// moves past the loop line, while `continue` comes back to it.
pub open spec fn loop_signal_outcome(rt: RuntimeV, lc: LoopControl) -> RuntimeV {
    let c0 = RuntimeContextV { loop_control: None, ..rt.context };
    let (st, found) = pop_to_loop(c0.stack);
    let c1 = RuntimeContextV { stack: st, ..c0 };
    with_context(
        rt,
        if found && lc == LoopControl::Break && st.len() > 0 {
            shift_top(c1, true)
        } else {
            c1
        },
    )
}

/// One step: resume where the last one paused, or apply a pending loop
/// signal, or run the next line of the innermost block, or leave the
/// block when it is done.
pub open spec fn step_outcome(rt: RuntimeV) -> StepOutcome {
    let rt0 = RuntimeV { phase: PhaseV::Ready, ..rt };
    let c = rt.context;
    match rt.phase {
        PhaseV::AwaitingCondition(child) => child_outcome(rt0, child),
        PhaseV::AwaitingScript => match rt.script_result {
            Some((_, k)) => StepOutcome::Exact {
                result: Ok(continue_result(k)),
                after: RuntimeV { script_result: None, ..rt0 },
            },
            None => StepOutcome::Handed { after: rt0 },
        },
        PhaseV::AwaitingStoryFile(story, paragraph, arguments) => match paragraph_entry(c, story, paragraph, arguments) {
            Ok(st) => StepOutcome::Exact {
                result: Ok(None),
                after: with_context(rt0, RuntimeContextV { stack: c.stack.push(st), ..c }),
            },
            Err(e) => StepOutcome::Exact { result: Err(e), after: rt0 },
        },
        PhaseV::Ready => match c.loop_control {
            Some(lc) => StepOutcome::Exact { result: Ok(None), after: loop_signal_outcome(rt0, lc) },
            None => if c.stack.len() == 0 {
                StepOutcome::Exact { result: Err(RuntimeErrorV::StoryNotStarted), after: rt0 }
            } else if c.stack.last().index < c.stack.last().block.len() {
                child_outcome(
                    with_context(rt0, shift_top(c, true)),
                    c.stack.last().block[c.stack.last().index as int],
                )
            } else {
                let x = leave_block(c);
                match x.result {
                    Err(e) => StepOutcome::Exact { result: Err(e), after: with_context(rt0, x.context) },
                    Ok(_) => if x.ended {
                        StepOutcome::Ended { result: Ok(None), after: with_context(rt0, x.context) }
                    } else {
                        StepOutcome::Exact { result: Ok(None), after: with_context(rt0, x.context) }
                    },
                }
            },
        },
    }
}

pub open spec fn step_matches(r: Result<Option<StepResult>, RuntimeError>, s: Result<Option<StepResultV>, RuntimeErrorV>) -> bool {
    match s {
        Ok(None) => r matches Ok(None),
        Ok(Some(v)) => r matches Ok(Some(x)) && x@ == v,
        Err(e) => r matches Err(x) && x@ == e,
    }
}

/// A step's result and the runtime after it agree with an outcome.
pub open spec fn outcome_holds(o: StepOutcome, r: Result<Option<StepResult>, RuntimeError>, after: RuntimeV) -> bool {
    match o {
        StepOutcome::Exact { result, after: a } => step_matches(r, result) && after == a,
        StepOutcome::Ended { result, after: a } => {
            &&& step_matches(r, result)
            &&& after.phase == a.phase
            &&& after.condition_result == a.condition_result
            &&& after.script_result == a.script_result
        },
        StepOutcome::Handed { after: a } => {
            &&& (r is Err || r matches Ok(None) || r matches Ok(Some(StepResult::Done)))
            &&& after.phase == a.phase
            &&& after.condition_result == a.condition_result
            &&& after.script_result == a.script_result
        },
    }
}

/// The content of a line can run without a failed unwrap: a system call
/// meets `syscall_safe` once its arguments are read.
pub open spec fn content_safe(c: RuntimeContextV, content: ChildContentV) -> bool {
    match content {
        ChildContentV::SystemCallLine(call) => match resolve_spec(c, call.arguments) {
            Ok(args) => syscall_safe(c, ResolvedCallV { command: call.command, arguments: args }),
            Err(_) => true,
        },
        _ => true,
    }
}

/// A line can run: a loop line has a line index to step back from, and
/// its content is safe.
pub open spec fn child_safe(c: RuntimeContextV, child: ChildV, cond: Option<bool>) -> bool {
    let plan = attr_plan(child, cond);
    &&& (plan is Repeat && c.stack.len() > 0 ==> c.stack.last().index >= 1)
    &&& (plan is Plain || (plan is Repeat && c.stack.len() > 0)) ==> content_safe(c, child.content)
}

/// A step can run: resuming embedded code needs its result, every line
/// index can move one forward, and a line waiting for its condition can run.
pub open spec fn step_ready(rt: RuntimeV) -> bool {
    &&& rt.phase is AwaitingScript ==> rt.script_result is Some
    &&& forall|i: int| 0 <= i < rt.context.stack.len() ==> (#[trigger] rt.context.stack[i]).index < usize::MAX
    &&& rt.phase matches PhaseV::AwaitingCondition(child) ==> child_safe(rt.context, child, rt.condition_result)
}

proof fn lemma_pop_to_loop_prefix(s: Seq<ExecutionStateV>)
    ensures
        pop_to_loop(s).0.len() <= s.len(),
        forall|i: int| 0 <= i < pop_to_loop(s).0.len() ==> pop_to_loop(s).0[i] == s[i],
    decreases s.len(),
{
    if s.len() > 0 {
        let d = s.drop_last();
        if !s.last().is_loop_body {
            lemma_pop_to_loop_prefix(d);
        }
        assert forall|i: int| 0 <= i < pop_to_loop(s).0.len() implies pop_to_loop(s).0[i] == s[i] by {
            assert(d[i] == s[i]);
        }
    }
}

proof fn lemma_content_safe_nonempty(c: RuntimeContextV, content: ChildContentV)
    requires
        c.stack.len() > 0,
    ensures
        content_safe(c, content),
{
}

fn opt_str(o: &Option<String>) -> (r: Option<&str>)
    ensures
        match o {
            Some(s) => r matches Some(x) && x@ == s@,
            None => r is None,
        },
{
    match o {
        Some(s) => Some(s.as_str()),
        None => None,
    }
}

impl<E: RuntimeExecutor> Runtime<E> {
    /// Renders a template with the current variables, with float texts
    /// from the executor: the text of the template where each float it
    /// shows, in order, is looked up in a table of exactly those floats.
    fn render_template(&self, template: &TemplateLiteral) -> (r: String)
        ensures
            exists|t: Seq<(u64, Seq<char>)>|
                #![trigger template_text(self@.context, template@, t)]
                t.map_values(|e: (u64, Seq<char>)| e.0) == template_floats(self@.context, template@)
                    && r@ == template_text(self@.context, template@, t),
    {
        let ghost parts = template@;
        let ghost c = self@.context;
        let mut bits: Vec<u64> = Vec::new();
        let mut i: usize = 0;
        assert(parts.take(0) =~= Seq::<TemplatePartV>::empty());
        while i < template.parts.len()
            invariant
                parts == template@,
                c == self@.context,
                c == self.context@,
                i <= template.parts.len(),
                bits@ == template_floats(c, parts.take(i as int)),
            decreases template.parts.len() - i,
        {
            let ghost before = bits@;
            assert(parts[i as int] == template.parts@[i as int]@);
            assert(parts.take(i + 1).drop_last() =~= parts.take(i as int));
            assert(parts.take(i + 1).last() == parts[i as int]);
            match &template.parts[i] {
                crate::format::TemplateLiteralPart::Value(v) => {
                    match get_rvalue(&self.context, v) {
                        Ok(l) => collect_floats(&l, &mut bits),
                        Err(_) => {
                            assert(bits@ =~= before + Seq::<u64>::empty());
                        },
                    }
                },
                _ => {
                    assert(bits@ =~= before + Seq::<u64>::empty());
                },
            }
            i += 1;
        }
        assert(parts.take(i as int) =~= parts);
        let mut table: FloatTexts = Vec::new();
        let mut k: usize = 0;
        while k < bits.len()
            invariant
                k <= bits.len(),
                table@.len() == k,
                forall|j: int| 0 <= j < k ==> (#[trigger] table@[j]).0 == bits@[j],
            decreases bits.len() - k,
        {
            let b = bits[k];
            table.push((b, self.executor.float_text(b)));
            k += 1;
        }
        assert(float_texts_view(table@).map_values(|e: (u64, Seq<char>)| e.0) =~= bits@);
        let r = calculate_template_literal(&self.context, template, &table);
        assert(template_text(self@.context, template@, float_texts_view(table@)) == r@);
        r
    }

    /// Runs the content of a line (see `content_outcome`).
    fn process_content(&mut self, child: Child, is_loop: bool) -> (r: Result<Option<StepResult>, RuntimeError>)
        requires
            old(self)@.phase is Ready,
            content_safe(old(self)@.context, child@.content),
        ensures
            outcome_holds(content_outcome(old(self)@, child@.content, is_loop), r, final(self)@),
            content_outcome(old(self)@, child@.content, is_loop) is Exact ==> final(self).executor_value()
                == old(self).executor_value(),
    {
        match child.content {
            ChildContent::Block(block) => {
                let (story, paragraph, locals) = match self.context.top() {
                    Some(t) => (t.story.clone(), t.paragraph.clone(), copy_entries(&t.locals)),
                    None => return Err(RuntimeError::StoryNotStarted),
                };
                self.context.push_state(ExecutionState::with_locals(story, paragraph, block, locals, is_loop));
                Ok(None)
            },
            ChildContent::TextLine(leading, text, tailing) => {
                let l: Option<String> = match leading {
                    LeadingText::Absent => None,
                    LeadingText::Text(t) => Some(t),
                    LeadingText::TemplateLiteral(tl) => Some(self.render_template(&tl)),
                };
                let t: Option<String> = match text {
                    Text::Absent => None,
                    Text::Text(x) => Some(x),
                    Text::TemplateLiteral(tl) => Some(self.render_template(&tl)),
                };
                let g: Option<String> = match tailing {
                    TailingText::Absent => None,
                    TailingText::Text(x) => Some(x),
                };
                let go_on = self.executor.handle_text(&mut self.context, opt_str(&l), opt_str(&t), opt_str(&g))?;
                Ok(if go_on { None } else { Some(StepResult::Done) })
            },
            ChildContent::CommandLine(cl) => {
                let arguments = resolve_list(&self.context, &cl.arguments)?;
                let command = ResolvedCommandLine { command: cl.command, arguments };
                let go_on = self.executor.handle_command(&mut self.context, &command)?;
                Ok(if go_on { None } else { Some(StepResult::Done) })
            },
            ChildContent::SystemCallLine(sl) => {
                let arguments = resolve_list(&self.context, &sl.arguments)?;
                let line = ResolvedSystemCallLine { command: sl.command, arguments };
                match self.handle_system_call(&line)? {
                    Some(go_on) => Ok(if go_on { None } else { Some(StepResult::Done) }),
                    None => match &self.phase {
                        StepPhase::AwaitingStoryFile { story_name, paragraph_name: _, arguments: _ } => Ok(
                            Some(StepResult::NeedsStoryFile(story_name.clone())),
                        ),
                        _ => {
                            proof {
                                assert(false);
                            }
                            Ok(None)
                        },
                    },
                }
            },
            ChildContent::EmbeddedCode(code) => {
                let mut taken: Option<(Option<RValue>, bool)> = None;
                std::mem::swap(&mut taken, &mut self.script_result);
                match taken {
                    Some((_, go_on)) => Ok(if go_on { None } else { Some(StepResult::Done) }),
                    None => {
                        self.phase = StepPhase::AwaitingScript;
                        Ok(Some(StepResult::NeedsScript(code)))
                    },
                }
            },
        }
    }

    /// Runs a line (see `child_outcome`).
    fn process_child(&mut self, child: Child) -> (r: Result<Option<StepResult>, RuntimeError>)
        requires
            old(self)@.phase is Ready,
            child_safe(old(self)@.context, child@, old(self)@.condition_result),
        ensures
            outcome_holds(child_outcome(old(self)@, child@), r, final(self)@),
            child_outcome(old(self)@, child@) is Exact ==> final(self).executor_value()
                == old(self).executor_value(),
    {
        let n = child.attributes.len();
        let mut is_loop = false;
        if n > 0 {
            let is_cond = str_eq(child.attributes[n - 1].keyword.as_str(), "cond")
                || str_eq(child.attributes[n - 1].keyword.as_str(), "if")
                || str_eq(child.attributes[n - 1].keyword.as_str(), "while");
            let is_while = str_eq(child.attributes[n - 1].keyword.as_str(), "while");
            let is_loop_kw = str_eq(child.attributes[n - 1].keyword.as_str(), "loop");
            let condition: Option<String> = match &child.attributes[n - 1].condition {
                Some(c) => Some(c.clone()),
                None => None,
            };
            assert(child@.attributes[n - 1] == child.attributes@[n - 1]@);
            if is_cond {
                match condition {
                    Some(cs) => {
                        let value = match self.condition_result {
                            Some(b) => {
                                self.condition_result = None;
                                b
                            },
                            None => {
                                self.phase = StepPhase::AwaitingCondition { child };
                                return Ok(Some(StepResult::NeedsCondition(cs)));
                            },
                        };
                        if !value {
                            return Ok(None);
                        }
                        if is_while {
                            if self.context.stack().len() == 0 {
                                return Err(RuntimeError::StoryNotStarted);
                            }
                            self.context.shift_top_index(false);
                            is_loop = true;
                        }
                    },
                    None => {},
                }
            } else if is_loop_kw {
                if self.context.stack().len() == 0 {
                    return Err(RuntimeError::StoryNotStarted);
                }
                self.context.shift_top_index(false);
                is_loop = true;
            }
        }
        proof {
            if self@.context.stack.len() > 0 {
                lemma_content_safe_nonempty(self@.context, child@.content);
            }
        }
        self.process_content(child, is_loop)
    }

    /// Leaves blocks up to and including the innermost loop body; whether
    /// there was one.
    fn pop_to_loop_body(&mut self) -> (r: bool)
        ensures
            final(self)@ == with_context(
                old(self)@,
                RuntimeContextV { stack: pop_to_loop(old(self)@.context.stack).0, ..old(self)@.context },
            ),
            r == pop_to_loop(old(self)@.context.stack).1,
            final(self).executor_value() == old(self).executor_value(),
    {
        let ghost start = self@;
        loop
            invariant
                start == old(self)@,
                pop_to_loop(self@.context.stack) == pop_to_loop(start.context.stack),
                self@ == with_context(start, RuntimeContextV { stack: self@.context.stack, ..start.context }),
                self.executor_value() == old(self).executor_value(),
            decreases self@.context.stack.len(),
        {
            let ghost before = self@.context.stack;
            match self.context.pop_state() {
                Some(state) => {
                    if state.is_loop_body {
                        assert(pop_to_loop(before) == (before.drop_last(), true));
                        return true;
                    }
                    assert(pop_to_loop(before) == pop_to_loop(before.drop_last()));
                },
                None => {
                    assert(pop_to_loop(before) == (before, false));
                    return false;
                },
            }
        }
    }

    /// Runs one step of the story (see `step_outcome`). The caller repeats
    /// steps while the result is `Ok(None)`, answers the questions that a
    /// `Some` result asks, and checks `can_step` before each step.
    pub fn step_one(&mut self) -> (r: Result<Option<StepResult>, RuntimeError>)
        requires
            step_ready(old(self)@),
        ensures
            outcome_holds(step_outcome(old(self)@), r, final(self)@),
            step_outcome(old(self)@) is Exact ==> final(self).executor_value() == old(self).executor_value(),
    {
        let mut phase = StepPhase::Ready;
        std::mem::swap(&mut phase, &mut self.phase);
        match phase {
            StepPhase::Ready => {},
            StepPhase::AwaitingCondition { child } => {
                return self.process_child(child);
            },
            StepPhase::AwaitingScript => {
                let mut taken: Option<(Option<RValue>, bool)> = None;
                std::mem::swap(&mut taken, &mut self.script_result);
                return match taken {
                    Some((_, go_on)) => Ok(if go_on { None } else { Some(StepResult::Done) }),
                    None => Ok(None),
                };
            },
            StepPhase::AwaitingStoryFile { story_name, paragraph_name, arguments } => {
                let st = self.entry_state(story_name.as_str(), paragraph_name.as_str(), &arguments)?;
                self.context.push_state(st);
                return Ok(None);
            },
        }
        match self.context.take_loop_control() {
            Some(control) => {
                let ghost s0 = self@.context.stack;
                proof {
                    lemma_pop_to_loop_prefix(s0);
                }
                let found = self.pop_to_loop_body();
                if found {
                    match control {
                        LoopControl::Break => {
                            if self.context.stack().len() > 0 {
                                proof {
                                    let st = self@.context.stack;
                                    assert(st.last() == s0[st.len() - 1]);
                                    assert(s0 == old(self)@.context.stack);
                                }
                                self.context.shift_top_index(true);
                            }
                        },
                        LoopControl::Continue => {},
                    }
                }
                return Ok(None);
            },
            None => {},
        }
        if self.context.stack().len() == 0 {
            return Err(RuntimeError::StoryNotStarted);
        }
        match self.context.next_line_of_top() {
            Some(child) => {
                proof {
                    lemma_content_safe_nonempty(self@.context, child@.content);
                }
                self.process_child(child)
            },
            None => {
                self.break_current_block()?;
                Ok(None)
            },
        }
    }
}


impl<E: RuntimeExecutor> Runtime<E> {
    fn syscall_safe_exec(&self, line: &ResolvedSystemCallLine) -> (r: bool)
        ensures
            r == syscall_safe(self@.context, line@),
    {
        let cmd = line.command.as_str();
        let nonempty = self.context.stack().len() > 0;
        let story_missing = line.get_argument("story").is_none();
        proof {
            reveal_strlit("goto");
            reveal_strlit("call");
            reveal_strlit("replace");
        }
        if str_eq(cmd, "goto") || str_eq(cmd, "call") {
            assert(line@.command != "replace"@) by {
                assert("goto"@.len() == 4);
                assert("call"@.len() == 4);
                assert("replace"@.len() == 7);
            }
            assert(story_missing == (arg_text(line@.arguments, "story"@) is Missing));
            assert(nonempty == (self@.context.stack.len() > 0));
            return !story_missing || nonempty;
        }
        if str_eq(cmd, "replace") {
            let story_ok = match line.get_argument("story") {
                None => true,
                Some(v) => v.is_string(),
            };
            let paragraph_ok = match line.get_argument("paragraph") {
                None => false,
                Some(v) => v.is_string(),
            };
            return !(story_missing || (story_ok && paragraph_ok)) || nonempty;
        }
        true
    }

    fn content_safe_exec(&self, child: &Child) -> (r: bool)
        ensures
            r == content_safe(self@.context, child@.content),
    {
        match &child.content {
            ChildContent::SystemCallLine(sl) => match resolve_list(&self.context, &sl.arguments) {
                Ok(arguments) => {
                    let line = ResolvedSystemCallLine { command: sl.command.clone(), arguments };
                    self.syscall_safe_exec(&line)
                },
                Err(_) => true,
            },
            _ => true,
        }
    }

    fn child_safe_exec(&self, child: &Child) -> (r: bool)
        ensures
            r == child_safe(self@.context, child@, self@.condition_result),
    {
        let n = child.attributes.len();
        let mut repeat = false;
        let mut plain = true;
        if n > 0 {
            assert(child@.attributes[n - 1] == child.attributes@[n - 1]@);
            let kw = child.attributes[n - 1].keyword.as_str();
            let is_cond = str_eq(kw, "cond") || str_eq(kw, "if") || str_eq(kw, "while");
            if is_cond {
                if child.attributes[n - 1].condition.is_some() {
                    match self.condition_result {
                        None => {
                            plain = false;
                        },
                        Some(b) => {
                            if !b {
                                plain = false;
                            } else if str_eq(kw, "while") {
                                plain = false;
                                repeat = true;
                            }
                        },
                    }
                }
            } else if str_eq(kw, "loop") {
                plain = false;
                repeat = true;
            }
        }
        let nonempty = self.context.stack().len() > 0;
        if repeat && nonempty {
            match self.context.top() {
                Some(t) => {
                    if t.index < 1 {
                        return false;
                    }
                },
                None => {},
            }
        }
        if plain || (repeat && nonempty) {
            self.content_safe_exec(child)
        } else {
            true
        }
    }

    /// Whether `step_one` can run now (see `step_ready`).
    pub fn can_step(&self) -> (r: bool)
        ensures
            r == step_ready(self@),
    {
        let script_ok = match &self.phase {
            StepPhase::AwaitingScript => self.script_result.is_some(),
            _ => true,
        };
        if !script_ok {
            return false;
        }
        if !self.context.indices_below_max() {
            return false;
        }
        match &self.phase {
            StepPhase::AwaitingCondition { child } => self.child_safe_exec(child),
            _ => true,
        }
    }
}

} // verus!
