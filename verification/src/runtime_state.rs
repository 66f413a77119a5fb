//! The state of a running story: the stack of block positions, the loaded
//! stories, the variables and a pending loop signal.
use vstd::prelude::*;

use crate::error::{RuntimeError, RuntimeErrorV};
use crate::text::{push_char, push_str, str_eq};
use crate::formatter::{
    float_text, float_text_exec, float_texts_view, int_text, int_text_exec, FloatTexts,
};
use crate::format::{
    Block, Child, ChildV, entries_view, literals_view, Literal, LiteralV, ParagraphV, RValue,
    RValueV, Story, StoryV, TemplateLiteral, TemplateLiteralPart, TemplatePartV, Variable,
};

verus! {

/// A signal left by `#break` or `#continue` for the enclosing loop.
#[derive(Debug, Clone, Copy, PartialEq, Eq, Structural)]
pub enum LoopControl {
    /// Leave the innermost loop.
    Break,
    /// Re-evaluate the condition of the innermost loop.
    Continue,
}

/// A position inside one block of a paragraph.
pub struct ExecutionState {
    /// Story name
    pub story: String,
    /// Paragraph name
    pub paragraph: String,
    /// The block being run
    pub block: Block,
    /// Index of the next line of the block
    pub index: usize,
    /// Whether this block is the body of a loop (`while` or `loop`).
    pub is_loop_body: bool,
    /// The paragraph's parameters with the values they were given: the
    /// variables local to the paragraph, shared by its nested blocks.
    pub locals: Vec<(String, Literal)>,
}

pub struct ExecutionStateV {
    pub story: Seq<char>,
    pub paragraph: Seq<char>,
    pub block: Seq<ChildV>,
    pub index: nat,
    pub is_loop_body: bool,
    pub locals: Seq<(Seq<char>, LiteralV)>,
}

impl View for ExecutionState {
    type V = ExecutionStateV;

    open spec fn view(&self) -> ExecutionStateV {
        ExecutionStateV {
            story: self.story@,
            paragraph: self.paragraph@,
            block: self.block@,
            index: self.index as nat,
            is_loop_body: self.is_loop_body,
            locals: entries_view(self.locals),
        }
    }
}

pub open spec fn states_view(v: Seq<ExecutionState>) -> Seq<ExecutionStateV> {
    v.map_values(|s: ExecutionState| s@)
}

/// The state at the start of a block of a paragraph with these locals.
pub open spec fn fresh_state(
    story: Seq<char>,
    paragraph: Seq<char>,
    block: Seq<ChildV>,
    locals: Seq<(Seq<char>, LiteralV)>,
    is_loop_body: bool,
) -> ExecutionStateV {
    ExecutionStateV { story, paragraph, block, index: 0, is_loop_body, locals }
}

/// A copy of a list of named values.
pub(crate) fn copy_entries(v: &Vec<(String, Literal)>) -> (r: Vec<(String, Literal)>)
    ensures
        entries_view(r) == entries_view(*v),
{
    let mut out: Vec<(String, Literal)> = Vec::new();
    let mut i: usize = 0;
    while i < v.len()
        invariant
            0 <= i <= v.len(),
            out@.len() == i,
            forall|j: int| 0 <= j < i ==> (#[trigger] out@[j]).0@ == v@[j].0@ && out@[j].1@ == v@[j].1@,
        decreases v.len() - i,
    {
        out.push((v[i].0.clone(), v[i].1.copy()));
        i += 1;
    }
    assert(entries_view(out) =~= entries_view(*v));
    out
}

impl ExecutionState {
    /// The state at the first line of `block`.
    pub fn new(story: String, paragraph: String, block: Block) -> (r: ExecutionState)
        ensures
            r@ == fresh_state(story@, paragraph@, block@, Seq::empty(), false),
    {
        let locals: Vec<(String, Literal)> = Vec::new();
        assert(entries_view(locals) =~= Seq::empty());
        ExecutionState { story, paragraph, block, index: 0, is_loop_body: false, locals }
    }

    /// The state at the first line of `block`, run as the body of a loop.
    pub fn new_loop_body(story: String, paragraph: String, block: Block) -> (r: ExecutionState)
        ensures
            r@ == fresh_state(story@, paragraph@, block@, Seq::empty(), true),
    {
        let locals: Vec<(String, Literal)> = Vec::new();
        assert(entries_view(locals) =~= Seq::empty());
        ExecutionState { story, paragraph, block, index: 0, is_loop_body: true, locals }
    }

    /// The state at the first line of `block`, with the paragraph's locals.
    pub fn with_locals(
        story: String,
        paragraph: String,
        block: Block,
        locals: Vec<(String, Literal)>,
        is_loop_body: bool,
    ) -> (r: ExecutionState)
        ensures
            r@ == fresh_state(story@, paragraph@, block@, entries_view(locals), is_loop_body),
    {
        ExecutionState { story, paragraph, block, index: 0, is_loop_body, locals }
    }

    /// A copy of the state.
    pub fn copy(&self) -> (r: ExecutionState)
        ensures
            r@ == self@,
    {
        ExecutionState {
            story: self.story.clone(),
            paragraph: self.paragraph.clone(),
            block: self.block.copy(),
            index: self.index,
            is_loop_body: self.is_loop_body,
            locals: copy_entries(&self.locals),
        }
    }

    /// The next line of the block, moving past it; `None` at the end.
    pub fn next_line(&mut self) -> (r: Option<Child>)
        ensures
            old(self)@.index < old(self)@.block.len() ==> {
                &&& r matches Some(c) && c@ == old(self)@.block[old(self)@.index as int]
                &&& final(self)@ == ExecutionStateV { index: old(self)@.index + 1, ..old(self)@ }
            },
            old(self)@.index >= old(self)@.block.len() ==> r is None && final(self)@ == old(self)@,
    {
        if self.index < self.block.children.len() {
            let line = self.block.children[self.index].copy();
            self.index = self.index + 1;
            Some(line)
        } else {
            None
        }
    }
}

fn copy_states(v: &Vec<ExecutionState>) -> (r: Vec<ExecutionState>)
    ensures
        states_view(r@) == states_view(v@),
{
    let mut out: Vec<ExecutionState> = Vec::new();
    let mut i: usize = 0;
    while i < v.len()
        invariant
            0 <= i <= v.len(),
            out@.len() == i,
            forall|j: int| 0 <= j < i ==> (#[trigger] out@[j])@ == v@[j]@,
        decreases v.len() - i,
    {
        out.push(v[i].copy());
        i += 1;
    }
    assert(states_view(out@) =~= states_view(v@));
    out
}

/// The loaded stories, the stack of block positions and the variables.
pub struct RuntimeContext {
    stories: Vec<Story>,
    stack: Vec<ExecutionState>,
    archive_variables: Literal,
    global_variables: Literal,
    loop_control: Option<LoopControl>,
}

pub struct RuntimeContextV {
    pub stories: Seq<StoryV>,
    pub stack: Seq<ExecutionStateV>,
    pub archive_variables: LiteralV,
    pub global_variables: LiteralV,
    pub loop_control: Option<LoopControl>,
}

pub open spec fn stories_view(v: Seq<Story>) -> Seq<StoryV> {
    v.map_values(|s: Story| s@)
}

/// The context with the line index of the innermost block moved one line
/// forward or back.
pub open spec fn shift_top(c: RuntimeContextV, forward: bool) -> RuntimeContextV {
    RuntimeContextV {
        stack: c.stack.update(
            c.stack.len() - 1,
            ExecutionStateV {
                index: if forward {
                    (c.stack.last().index + 1) as nat
                } else {
                    (c.stack.last().index - 1) as nat
                },
                ..c.stack.last()
            },
        ),
        ..c
    }
}

/// No story, an empty stack and empty variable objects.
pub open spec fn empty_context() -> RuntimeContextV {
    RuntimeContextV {
        stories: Seq::empty(),
        stack: Seq::empty(),
        archive_variables: LiteralV::Object(Seq::empty()),
        global_variables: LiteralV::Object(Seq::empty()),
        loop_control: None,
    }
}

impl View for RuntimeContext {
    type V = RuntimeContextV;

    closed spec fn view(&self) -> RuntimeContextV {
        RuntimeContextV {
            stories: stories_view(self.stories@),
            stack: states_view(self.stack@),
            archive_variables: self.archive_variables@,
            global_variables: self.global_variables@,
            loop_control: self.loop_control,
        }
    }
}

impl RuntimeContext {
    /// A context with no story, an empty stack and empty variable objects.
    pub fn new() -> (r: RuntimeContext)
        ensures
            r@ == empty_context(),
    {
        let archive: Vec<(String, Literal)> = Vec::new();
        let global: Vec<(String, Literal)> = Vec::new();
        assert(entries_view(archive) =~= Seq::empty());
        assert(entries_view(global) =~= Seq::empty());
        let r = RuntimeContext {
            stories: Vec::new(),
            stack: Vec::new(),
            archive_variables: Literal::Object(archive),
            global_variables: Literal::Object(global),
            loop_control: None,
        };
        assert(stories_view(r.stories@) =~= Seq::empty());
        assert(states_view(r.stack@) =~= Seq::empty());
        r
    }

    /// The loaded stories.
    pub fn stories(&self) -> (r: &Vec<Story>)
        ensures
            stories_view(r@) == self@.stories,
    {
        &self.stories
    }

    /// The loaded stories, to change them.
    pub fn stories_mut(&mut self) -> (r: &mut Vec<Story>)
        ensures
            stories_view(r@) == old(self)@.stories,
            final(self)@ == (RuntimeContextV { stories: stories_view(final(r)@), ..old(self)@ }),
    {
        &mut self.stories
    }
}


impl RuntimeContext {
    /// The stack of block positions, innermost last.
    pub fn stack(&self) -> (r: &Vec<ExecutionState>)
        ensures
            states_view(r@) == self@.stack,
    {
        &self.stack
    }

    /// The stack of block positions, to change it.
    pub fn stack_mut(&mut self) -> (r: &mut Vec<ExecutionState>)
        ensures
            states_view(r@) == old(self)@.stack,
            final(self)@ == (RuntimeContextV { stack: states_view(final(r)@), ..old(self)@ }),
    {
        &mut self.stack
    }

    /// The variables of the current play session.
    pub fn archive_variables(&self) -> (r: &Literal)
        ensures
            r@ == self@.archive_variables,
    {
        &self.archive_variables
    }

    /// The variables of the current play session, to change them.
    pub fn archive_variables_mut(&mut self) -> (r: &mut Literal)
        ensures
            r@ == old(self)@.archive_variables,
            final(self)@ == (RuntimeContextV { archive_variables: final(r)@, ..old(self)@ }),
    {
        &mut self.archive_variables
    }

    /// The variables kept across sessions.
    pub fn global_variables(&self) -> (r: &Literal)
        ensures
            r@ == self@.global_variables,
    {
        &self.global_variables
    }

    /// The variables kept across sessions, to change them.
    pub fn global_variables_mut(&mut self) -> (r: &mut Literal)
        ensures
            r@ == old(self)@.global_variables,
            final(self)@ == (RuntimeContextV { global_variables: final(r)@, ..old(self)@ }),
    {
        &mut self.global_variables
    }

    /// Leaves a loop signal for the next step.
    pub fn set_loop_control(&mut self, control: LoopControl)
        ensures
            final(self)@ == (RuntimeContextV { loop_control: Some(control), ..old(self)@ }),
    {
        self.loop_control = Some(control);
    }

    /// Takes the pending loop signal, if any, and clears it.
    pub fn take_loop_control(&mut self) -> (r: Option<LoopControl>)
        ensures
            r == old(self)@.loop_control,
            final(self)@ == (RuntimeContextV { loop_control: None, ..old(self)@ }),
    {
        let r = self.loop_control;
        self.loop_control = None;
        r
    }

    pub(crate) fn find_story(&self, name: &str) -> (r: Option<usize>)
        ensures
            r matches Some(i) ==> story_index(self@.stories, name@) == Some(i as int) && i < self@.stories.len(),
            r is None ==> story_index(self@.stories, name@) is None,
    {
        let mut i: usize = 0;
        while i < self.stories.len()
            invariant
                0 <= i <= self.stories@.len(),
                forall|j: int| 0 <= j < i ==> (#[trigger] self.stories@[j]).name@ != name@,
            decreases self.stories.len() - i,
        {
            if str_eq(self.stories[i].name.as_str(), name) {
                proof { lemma_story_index(self@.stories, name@, i as int); }
                return Some(i);
            }
            i += 1;
        }
        proof { lemma_story_index(self@.stories, name@, i as int); }
        None
    }

    pub(crate) fn story_at(&self, i: usize) -> (r: &Story)
        requires
            i < self@.stories.len(),
        ensures
            r@ == self@.stories[i as int],
    {
        &self.stories[i]
    }

    pub(crate) fn push_story(&mut self, story: Story)
        ensures
            final(self)@ == (RuntimeContextV { stories: old(self)@.stories.push(story@), ..old(self)@ }),
    {
        self.stories.push(story);
        assert(stories_view(self.stories@) =~= stories_view(old(self).stories@).push(story@));
    }

    pub(crate) fn push_state(&mut self, state: ExecutionState)
        ensures
            final(self)@ == (RuntimeContextV { stack: old(self)@.stack.push(state@), ..old(self)@ }),
    {
        self.stack.push(state);
        assert(states_view(self.stack@) =~= states_view(old(self).stack@).push(state@));
    }

    pub(crate) fn pop_state(&mut self) -> (r: Option<ExecutionState>)
        ensures
            old(self)@.stack.len() == 0 ==> r is None && final(self)@ == old(self)@,
            old(self)@.stack.len() > 0 ==> {
                &&& r matches Some(s) && s@ == old(self)@.stack.last()
                &&& final(self)@ == (RuntimeContextV { stack: old(self)@.stack.drop_last(), ..old(self)@ })
            },
    {
        let r = self.stack.pop();
        proof {
            if old(self).stack@.len() > 0 {
                assert(states_view(self.stack@) =~= states_view(old(self).stack@).drop_last());
            }
        }
        r
    }

    pub(crate) fn clear_stack(&mut self)
        ensures
            final(self)@ == (RuntimeContextV { stack: Seq::empty(), ..old(self)@ }),
    {
        self.stack.clear();
        assert(states_view(self.stack@) =~= Seq::empty());
    }

    pub(crate) fn set_stack(&mut self, states: Vec<ExecutionState>)
        ensures
            final(self)@ == (RuntimeContextV { stack: states_view(states@), ..old(self)@ }),
    {
        self.stack = states;
    }

    pub(crate) fn copy_stack(&self) -> (r: Vec<ExecutionState>)
        ensures
            states_view(r@) == self@.stack,
    {
        copy_states(&self.stack)
    }

    pub(crate) fn top(&self) -> (r: Option<&ExecutionState>)
        ensures
            self@.stack.len() == 0 ==> r is None,
            self@.stack.len() > 0 ==> (r matches Some(s) && s@ == self@.stack.last()),
    {
        if self.stack.len() == 0 {
            None
        } else {
            Some(&self.stack[self.stack.len() - 1])
        }
    }

    /// Moves the line index of the innermost block one line back, or forward.
    pub(crate) fn shift_top_index(&mut self, forward: bool)
        requires
            old(self)@.stack.len() > 0,
            forward ==> old(self)@.stack.last().index < usize::MAX,
            !forward ==> old(self)@.stack.last().index >= 1,
        ensures
            final(self)@ == shift_top(old(self)@, forward),
    {
        let n = self.stack.len() - 1;
        let mut st = self.stack.remove(n);
        if forward {
            st.index = st.index + 1;
        } else {
            st.index = st.index - 1;
        }
        self.stack.push(st);
        assert(states_view(self.stack@) =~= states_view(old(self).stack@).update(
            n as int,
            st@,
        ));
    }

    /// The next line of the innermost block, moving past it.
    pub(crate) fn next_line_of_top(&mut self) -> (r: Option<Child>)
        requires
            old(self)@.stack.len() > 0,
        ensures
            old(self)@.stack.last().index < old(self)@.stack.last().block.len() ==> {
                &&& r matches Some(c) && c@ == old(self)@.stack.last().block[old(self)@.stack.last().index as int]
                &&& final(self)@ == shift_top(old(self)@, true)
            },
            old(self)@.stack.last().index >= old(self)@.stack.last().block.len() ==> {
                &&& r is None
                &&& final(self)@ == old(self)@
            },
    {
        let n = self.stack.len() - 1;
        let mut st = self.stack.remove(n);
        let r = st.next_line();
        self.stack.push(st);
        proof {
            if old(self)@.stack.last().index < old(self)@.stack.last().block.len() {
                assert(states_view(self.stack@) =~= states_view(old(self).stack@).update(n as int, st@));
            } else {
                assert(states_view(self.stack@) =~= states_view(old(self).stack@));
            }
        }
        r
    }

    /// Replaces the session variables with an empty object when they are an
    /// object; reports whether they were.
    pub(crate) fn clear_archive_object(&mut self) -> (r: bool)
        ensures
            r == old(self)@.archive_variables is Object,
            r ==> final(self)@ == (RuntimeContextV {
                archive_variables: LiteralV::Object(Seq::empty()),
                ..old(self)@
            }),
            !r ==> final(self)@ == old(self)@,
    {
        if self.archive_variables.is_object() {
            let empty: Vec<(String, Literal)> = Vec::new();
            assert(entries_view(empty) =~= Seq::empty());
            self.archive_variables = Literal::Object(empty);
            true
        } else {
            false
        }
    }
}

// ---------------------------------------------------------------------
// Finding stories and paragraphs
// ---------------------------------------------------------------------

/// The index of the first story with the given name.
pub open spec fn story_index(stories: Seq<StoryV>, name: Seq<char>) -> Option<int>
    decreases stories.len(),
{
    if stories.len() == 0 {
        None
    } else if stories[0].name == name {
        Some(0)
    } else {
        match story_index(stories.drop_first(), name) {
            Some(i) => Some(i + 1),
            None => None,
        }
    }
}

/// The index of the first paragraph with the given name.
pub open spec fn paragraph_index(paragraphs: Seq<ParagraphV>, name: Seq<char>) -> Option<int>
    decreases paragraphs.len(),
{
    if paragraphs.len() == 0 {
        None
    } else if paragraphs[0].name == name {
        Some(0)
    } else {
        match paragraph_index(paragraphs.drop_first(), name) {
            Some(i) => Some(i + 1),
            None => None,
        }
    }
}

pub proof fn lemma_story_index(stories: Seq<StoryV>, name: Seq<char>, i: int)
    requires
        0 <= i <= stories.len(),
        forall|j: int| 0 <= j < i ==> (#[trigger] stories[j]).name != name,
    ensures
        i < stories.len() && stories[i].name == name ==> story_index(stories, name) == Some(i),
        i == stories.len() ==> story_index(stories, name) is None,
        story_index(stories, name) matches Some(k) ==> 0 <= k < stories.len() && stories[k].name == name,
    decreases i,
{
    lemma_story_index_range(stories, name);
    if i > 0 {
        assert forall|j: int| 0 <= j < i - 1 implies (#[trigger] stories.drop_first()[j]).name != name by {
            assert(stories.drop_first()[j] == stories[j + 1]);
        }
        lemma_story_index(stories.drop_first(), name, i - 1);
    }
}

pub proof fn lemma_story_index_range(stories: Seq<StoryV>, name: Seq<char>)
    ensures
        story_index(stories, name) matches Some(k) ==> 0 <= k < stories.len() && stories[k].name == name,
    decreases stories.len(),
{
    if stories.len() > 0 {
        lemma_story_index_range(stories.drop_first(), name);
    }
}

pub proof fn lemma_paragraph_index(paragraphs: Seq<ParagraphV>, name: Seq<char>, i: int)
    requires
        0 <= i <= paragraphs.len(),
        forall|j: int| 0 <= j < i ==> (#[trigger] paragraphs[j]).name != name,
    ensures
        i < paragraphs.len() && paragraphs[i].name == name ==> paragraph_index(paragraphs, name) == Some(i),
        i == paragraphs.len() ==> paragraph_index(paragraphs, name) is None,
        paragraph_index(paragraphs, name) matches Some(k) ==> 0 <= k < paragraphs.len() && paragraphs[k].name == name,
    decreases i,
{
    lemma_paragraph_index_range(paragraphs, name);
    if i > 0 {
        assert forall|j: int| 0 <= j < i - 1 implies (#[trigger] paragraphs.drop_first()[j]).name != name by {
            assert(paragraphs.drop_first()[j] == paragraphs[j + 1]);
        }
        lemma_paragraph_index(paragraphs.drop_first(), name, i - 1);
    }
}

pub proof fn lemma_paragraph_index_range(paragraphs: Seq<ParagraphV>, name: Seq<char>)
    ensures
        paragraph_index(paragraphs, name) matches Some(k) ==> 0 <= k < paragraphs.len() && paragraphs[k].name == name,
    decreases paragraphs.len(),
{
    if paragraphs.len() > 0 {
        lemma_paragraph_index_range(paragraphs.drop_first(), name);
    }
}

/// The index of the paragraph named `name` in `story`, found by a loop.
pub(crate) fn find_paragraph(story: &Story, name: &str) -> (r: Option<usize>)
    ensures
        r matches Some(i) ==> paragraph_index(story@.paragraphs, name@) == Some(i as int),
        r is None ==> paragraph_index(story@.paragraphs, name@) is None,
        r matches Some(i) ==> i < story.paragraphs@.len() && i < story@.paragraphs.len(),
{
    let mut i: usize = 0;
    while i < story.paragraphs.len()
        invariant
            0 <= i <= story.paragraphs@.len(),
            story@.paragraphs.len() == story.paragraphs@.len(),
            forall|j: int| 0 <= j < i ==> (#[trigger] story@.paragraphs[j]).name != name@,
        decreases story.paragraphs.len() - i,
    {
        assert(story@.paragraphs[i as int] == story.paragraphs@[i as int]@);
        if str_eq(story.paragraphs[i].name.as_str(), name) {
            proof { lemma_paragraph_index(story@.paragraphs, name@, i as int); }
            return Some(i);
        }
        i += 1;
    }
    proof { lemma_paragraph_index(story@.paragraphs, name@, i as int); }
    None
}


// ---------------------------------------------------------------------
// Variables and the text of values
// ---------------------------------------------------------------------

/// The value stored under `key` in the first entry that has it.
pub open spec fn object_get(entries: Seq<(Seq<char>, LiteralV)>, key: Seq<char>) -> Option<LiteralV>
    decreases entries.len(),
{
    if entries.len() == 0 {
        None
    } else if entries[0].0 == key {
        Some(entries[0].1)
    } else {
        object_get(entries.drop_first(), key)
    }
}

/// The value of a variable: a one-part name is looked up in the locals
/// of the current paragraph, then in the session variables, then in the
/// global ones, and is `null` when none has it; a longer path is `null`.
/// Session variables that are not an object are an error.
pub open spec fn variable_value(c: RuntimeContextV, chain: Seq<Seq<char>>) -> Result<LiteralV, RuntimeErrorV> {
    if chain.len() != 1 {
        Ok(LiteralV::Null)
    } else if c.stack.len() > 0 && object_get(c.stack.last().locals, chain[0]) is Some {
        Ok(object_get(c.stack.last().locals, chain[0])->0)
    } else {
        match c.archive_variables {
            LiteralV::Object(a) => match object_get(a, chain[0]) {
                Some(v) => Ok(v),
                None => Ok(
                    match c.global_variables {
                        LiteralV::Object(g) => match object_get(g, chain[0]) {
                            Some(v) => v,
                            None => LiteralV::Null,
                        },
                        _ => LiteralV::Null,
                    },
                ),
            },
            _ => Err(RuntimeErrorV::NotAObject),
        }
    }
}

/// The literal an rvalue stands for.
pub open spec fn rvalue_value(c: RuntimeContextV, v: RValueV) -> Result<LiteralV, RuntimeErrorV> {
    match v {
        RValueV::Literal(l) => Ok(l),
        RValueV::Variable(chain) => variable_value(c, chain),
    }
}

/// An exec literal result agrees with a spec one.
pub open spec fn literal_result(r: Result<Literal, RuntimeError>, s: Result<LiteralV, RuntimeErrorV>) -> bool {
    match s {
        Ok(v) => r matches Ok(x) && x@ == v,
        Err(e) => r matches Err(x) && x@ == e,
    }
}

fn object_lookup<'a>(entries: &'a Vec<(String, Literal)>, key: &str) -> (r: Option<&'a Literal>)
    ensures
        match object_get(entries_view(*entries), key@) {
            Some(v) => r matches Some(x) && x@ == v,
            None => r is None,
        },
{
    let ghost all = entries_view(*entries);
    let mut i: usize = 0;
    assert(all.skip(0) =~= all);
    while i < entries.len()
        invariant
            0 <= i <= entries@.len(),
            all == entries_view(*entries),
            object_get(all.skip(i as int), key@) == object_get(all, key@),
        decreases entries.len() - i,
    {
        let ghost rest = all.skip(i as int);
        assert(rest.drop_first() =~= all.skip(i + 1));
        assert(rest[0] == (entries@[i as int].0@, entries@[i as int].1@));
        if str_eq(entries[i].0.as_str(), key) {
            return Some(&entries[i].1);
        }
        i += 1;
    }
    None
}

/// The value of a variable in `ctx` (see `variable_value`).
pub fn get_variable(ctx: &RuntimeContext, value: &Variable) -> (r: Result<Literal, RuntimeError>)
    ensures
        literal_result(r, variable_value(ctx@, value@)),
{
    if value.chain.len() != 1 {
        return Ok(Literal::Null);
    }
    let name = value.chain[0].as_str();
    assert(value@[0] == name@);
    if let Some(top) = ctx.top() {
        if let Some(v) = object_lookup(&top.locals, name) {
            return Ok(v.copy());
        }
    }
    match &ctx.archive_variables {
        Literal::Object(a) => match object_lookup(a, name) {
            Some(v) => Ok(v.copy()),
            None => match &ctx.global_variables {
                Literal::Object(g) => match object_lookup(g, name) {
                    Some(v) => Ok(v.copy()),
                    None => Ok(Literal::Null),
                },
                _ => Ok(Literal::Null),
            },
        },
        _ => Err(RuntimeError::NotAObject),
    }
}

/// The literal an rvalue stands for in `ctx`.
pub fn get_rvalue(ctx: &RuntimeContext, value: &RValue) -> (r: Result<Literal, RuntimeError>)
    ensures
        literal_result(r, rvalue_value(ctx@, value@)),
{
    match value {
        RValue::Literal(l) => Ok(l.copy()),
        RValue::Variable(v) => get_variable(ctx, v),
    }
}

/// The text of a value: `null`, a string as it is, decimal integers,
/// floats as the table gives them, `true`/`false`, and arrays and objects
/// in brackets with their items separated by `, `, object entries as
/// `"key": value`.
pub open spec fn literal_text(l: LiteralV, floats: Seq<(u64, Seq<char>)>) -> Seq<char>
    decreases l, 1nat,
{
    match l {
        LiteralV::Null => "null"@,
        LiteralV::Str(s) => s,
        LiteralV::Integer(i) => int_text(i as int),
        LiteralV::Float(b) => float_text(floats, b),
        LiteralV::Boolean(b) => if b {
            "true"@
        } else {
            "false"@
        },
        LiteralV::Array(v) => seq!['['] + items_text(v, floats) + seq![']'],
        LiteralV::Object(e) => seq!['{'] + entries_text(e, floats) + seq!['}'],
    }
}

/// The texts of array items separated by `, `.
pub open spec fn items_text(v: Seq<LiteralV>, floats: Seq<(u64, Seq<char>)>) -> Seq<char>
    decreases v, 0nat,
{
    if v.len() == 0 {
        Seq::empty()
    } else if v.len() == 1 {
        literal_text(v[0], floats)
    } else {
        items_text(v.drop_last(), floats) + ", "@ + literal_text(v.last(), floats)
    }
}

/// The texts of object entries, `"key": value`, separated by `, `.
pub open spec fn entries_text(e: Seq<(Seq<char>, LiteralV)>, floats: Seq<(u64, Seq<char>)>) -> Seq<char>
    decreases e, 0nat,
{
    if e.len() == 0 {
        Seq::empty()
    } else if e.len() == 1 {
        entry_text(e[0].0, literal_text(e[0].1, floats))
    } else {
        entries_text(e.drop_last(), floats) + ", "@ + entry_text(
            e.last().0,
            literal_text(e.last().1, floats),
        )
    }
}

pub open spec fn entry_text(key: Seq<char>, value: Seq<char>) -> Seq<char> {
    seq!['"'] + key + "\": "@ + value
}

fn write_literal(out: &mut String, l: &Literal, floats: &FloatTexts)
    ensures
        final(out)@ == old(out)@ + literal_text(l@, float_texts_view(floats@)),
    decreases l,
{
    let ghost fl = float_texts_view(floats@);
    let ghost start = out@;
    match l {
        Literal::Null => push_str(out, "null"),
        Literal::String(s) => push_str(out, s.as_str()),
        Literal::Integer(i) => {
            let t = int_text_exec(*i);
            push_str(out, t.as_str());
        },
        Literal::Float(b) => {
            let t = float_text_exec(floats, *b);
            push_str(out, t.as_str());
        },
        Literal::Boolean(b) => {
            if *b {
                push_str(out, "true");
            } else {
                push_str(out, "false");
            }
        },
        Literal::Array(v) => {
            push_char(out, '[');
            let ghost items = literals_view(*v);
            let mut i: usize = 0;
            while i < v.len()
                invariant
                    0 <= i <= v@.len(),
                    items == literals_view(*v),
                    fl == float_texts_view(floats@),
                    *l == Literal::Array(*v),
                    out@ == start + seq!['['] + items_text(items.take(i as int), fl),
                decreases v.len() - i,
            {
                assert(decreases_to!(*l => (*l)->Array_0));
                assert(decreases_to!(*v => v[i as int]));
                if i > 0 {
                    push_str(out, ", ");
                }
                write_literal(out, &v[i], floats);
                proof {
                    let t = items.take(i + 1);
                    assert(t.drop_last() =~= items.take(i as int));
                    assert(t.last() == v@[i as int]@);
                    if i == 0 {
                        assert(items.take(0) =~= Seq::<LiteralV>::empty());
                    }
                }
                i += 1;
            }
            assert(items.take(i as int) =~= items);
            push_char(out, ']');
        },
        Literal::Object(e) => {
            push_char(out, '{');
            let ghost ents = entries_view(*e);
            let mut i: usize = 0;
            while i < e.len()
                invariant
                    0 <= i <= e@.len(),
                    ents == entries_view(*e),
                    fl == float_texts_view(floats@),
                    *l == Literal::Object(*e),
                    out@ == start + seq!['{'] + entries_text(ents.take(i as int), fl),
                decreases e.len() - i,
            {
                assert(decreases_to!(*l => (*l)->Object_0));
                assert(decreases_to!(*e => e[i as int]));
                assert(decreases_to!(e[i as int] => e[i as int].1));
                if i > 0 {
                    push_str(out, ", ");
                }
                push_char(out, '"');
                push_str(out, e[i].0.as_str());
                push_str(out, "\": ");
                write_literal(out, &e[i].1, floats);
                proof {
                    let t = ents.take(i + 1);
                    assert(t.drop_last() =~= ents.take(i as int));
                    assert(t.last() == (e@[i as int].0@, e@[i as int].1@));
                    if i == 0 {
                        assert(ents.take(0) =~= Seq::<(Seq<char>, LiteralV)>::empty());
                    }
                }
                i += 1;
            }
            assert(ents.take(i as int) =~= ents);
            push_char(out, '}');
        },
    }
    proof {
        reveal_strlit("null");
        reveal_strlit("true");
        reveal_strlit("false");
        reveal_strlit(", ");
        reveal_strlit("\": ");
    }
    assert(out@ =~= start + literal_text(l@, fl));
}

/// The text of a literal (see `literal_text`).
pub fn literal_to_string(l: &Literal, floats: &FloatTexts) -> (r: String)
    ensures
        r@ == literal_text(l@, float_texts_view(floats@)),
{
    let mut out = String::new();
    write_literal(&mut out, l, floats);
    out
}

/// The text of a template: its text parts as written and each value part
/// as the text of the literal it stands for, or `[Error]` where reading a
/// variable fails.
pub open spec fn template_text(c: RuntimeContextV, parts: Seq<TemplatePartV>, floats: Seq<(u64, Seq<char>)>) -> Seq<char>
    decreases parts.len(),
{
    if parts.len() == 0 {
        Seq::empty()
    } else {
        template_text(c, parts.drop_last(), floats) + match parts.last() {
            TemplatePartV::Text(t) => t,
            TemplatePartV::Value(v) => match rvalue_value(c, v) {
                Ok(l) => literal_text(l, floats),
                Err(_) => "[Error]"@,
            },
        }
    }
}

/// The bit patterns of the floats a template shows, in order: those of
/// the values of its parts that can be read.
pub open spec fn template_floats(c: RuntimeContextV, parts: Seq<TemplatePartV>) -> Seq<u64>
    decreases parts.len(),
{
    if parts.len() == 0 {
        Seq::empty()
    } else {
        template_floats(c, parts.drop_last()) + match parts.last() {
            TemplatePartV::Text(_) => Seq::empty(),
            TemplatePartV::Value(v) => match rvalue_value(c, v) {
                Ok(l) => literal_floats(l),
                Err(_) => Seq::empty(),
            },
        }
    }
}

/// Renders a template with the values of `ctx`.
pub fn calculate_template_literal(ctx: &RuntimeContext, template: &TemplateLiteral, floats: &FloatTexts) -> (r: String)
    ensures
        r@ == template_text(ctx@, template@, float_texts_view(floats@)),
{
    let ghost fl = float_texts_view(floats@);
    let ghost parts = template@;
    let mut out = String::new();
    let mut i: usize = 0;
    while i < template.parts.len()
        invariant
            0 <= i <= template.parts@.len(),
            parts == template@,
            parts.len() == template.parts@.len(),
            fl == float_texts_view(floats@),
            out@ == template_text(ctx@, parts.take(i as int), fl),
        decreases template.parts.len() - i,
    {
        let ghost before = out@;
        assert(parts[i as int] == template.parts@[i as int]@);
        match &template.parts[i] {
            TemplateLiteralPart::Text(t) => push_str(&mut out, t.as_str()),
            TemplateLiteralPart::Value(v) => match get_rvalue(ctx, v) {
                Ok(l) => write_literal(&mut out, &l, floats),
                Err(_) => {
                    push_str(&mut out, "[Error]");
                },
            },
        }
        proof {
            assert(parts.take(i + 1).drop_last() =~= parts.take(i as int));
        }
        i += 1;
    }
    assert(parts.take(i as int) =~= parts);
    out
}

/// The bit patterns of the floats inside a literal, in order: those of
/// array items and object values included.
pub open spec fn literal_floats(l: LiteralV) -> Seq<u64>
    decreases l, 1nat,
{
    match l {
        LiteralV::Float(b) => seq![b],
        LiteralV::Array(v) => items_floats(v),
        LiteralV::Object(e) => entries_floats(e),
        _ => Seq::empty(),
    }
}

/// The floats of array items, in order.
pub open spec fn items_floats(v: Seq<LiteralV>) -> Seq<u64>
    decreases v, 0nat,
{
    if v.len() == 0 {
        Seq::empty()
    } else {
        items_floats(v.drop_last()) + literal_floats(v.last())
    }
}

/// The floats of object values, in order.
pub open spec fn entries_floats(e: Seq<(Seq<char>, LiteralV)>) -> Seq<u64>
    decreases e, 0nat,
{
    if e.len() == 0 {
        Seq::empty()
    } else {
        entries_floats(e.drop_last()) + literal_floats(e.last().1)
    }
}

/// Adds the bit patterns of the floats inside `l` to `out`.
pub(crate) fn collect_floats(l: &Literal, out: &mut Vec<u64>)
    ensures
        final(out)@ == old(out)@ + literal_floats(l@),
    decreases l,
{
    let ghost start = out@;
    match l {
        Literal::Float(b) => out.push(*b),
        Literal::Array(v) => {
            let ghost items = literals_view(*v);
            let mut i: usize = 0;
            assert(items.take(0) =~= Seq::<LiteralV>::empty());
            assert(out@ =~= start + items_floats(items.take(0)));
            while i < v.len()
                invariant
                    *l == Literal::Array(*v),
                    items == literals_view(*v),
                    i <= v.len(),
                    out@ == start + items_floats(items.take(i as int)),
                decreases v.len() - i,
            {
                assert(decreases_to!(*l => (*l)->Array_0));
                assert(decreases_to!(*v => v[i as int]));
                let ghost before = out@;
                collect_floats(&v[i], out);
                assert(items.take(i + 1).drop_last() =~= items.take(i as int));
                assert(items.take(i + 1).last() == v[i as int]@);
                assert(out@ =~= start + items_floats(items.take(i + 1)));
                i += 1;
            }
            assert(items.take(i as int) =~= items);
        },
        Literal::Object(e) => {
            let ghost entries = entries_view(*e);
            let mut i: usize = 0;
            assert(entries.take(0) =~= Seq::<(Seq<char>, LiteralV)>::empty());
            assert(out@ =~= start + entries_floats(entries.take(0)));
            while i < e.len()
                invariant
                    *l == Literal::Object(*e),
                    entries == entries_view(*e),
                    i <= e.len(),
                    out@ == start + entries_floats(entries.take(i as int)),
                decreases e.len() - i,
            {
                assert(decreases_to!(*l => (*l)->Object_0));
                assert(decreases_to!(*e => e[i as int]));
                assert(decreases_to!(e[i as int] => e[i as int].1));
                collect_floats(&e[i].1, out);
                assert(entries.take(i + 1).drop_last() =~= entries.take(i as int));
                assert(entries.take(i + 1).last().1 == e[i as int].1@);
                assert(out@ =~= start + entries_floats(entries.take(i + 1)));
                i += 1;
            }
            assert(entries.take(i as int) =~= entries);
        },
        _ => {
            assert(out@ =~= start + literal_floats(l@));
        },
    }
}


impl RuntimeContext {
    /// Whether the innermost block belongs to the given story and paragraph.
    pub(crate) fn top_is(&self, story: &str, paragraph: &str) -> (r: bool)
        ensures
            r == (self@.stack.len() > 0 && self@.stack.last().story == story@
                && self@.stack.last().paragraph == paragraph@),
    {
        match self.top() {
            Some(t) => str_eq(t.story.as_str(), story) && str_eq(t.paragraph.as_str(), paragraph),
            None => false,
        }
    }

    /// Whether every line index on the stack is below `usize::MAX`.
    pub(crate) fn indices_below_max(&self) -> (r: bool)
        ensures
            r == (forall|i: int| 0 <= i < self@.stack.len() ==> (#[trigger] self@.stack[i]).index < usize::MAX),
    {
        let mut i: usize = 0;
        while i < self.stack.len()
            invariant
                0 <= i <= self.stack@.len(),
                self@.stack.len() == self.stack@.len(),
                forall|j: int| 0 <= j < i ==> (#[trigger] self@.stack[j]).index < usize::MAX,
            decreases self.stack.len() - i,
        {
            assert(self@.stack[i as int] == self.stack@[i as int]@);
            if self.stack[i].index == usize::MAX {
                return false;
            }
            i += 1;
        }
        true
    }
}


pub broadcast proof fn lemma_states_view_update(s: Seq<ExecutionState>, i: int, v: ExecutionState)
    requires
        0 <= i < s.len(),
    ensures
        #[trigger] states_view(s.update(i, v)) == states_view(s).update(i, v@),
{
    assert(states_view(s.update(i, v)) =~= states_view(s).update(i, v@));
}

impl RuntimeContext {
    /// The innermost block position, to change it.
    pub(crate) fn top_mut(&mut self) -> (r: Option<&mut ExecutionState>)
        ensures
            old(self)@.stack.len() == 0 ==> r is None && final(self)@ == old(self)@,
            old(self)@.stack.len() > 0 ==> match r {
                Some(x) => {
                    &&& x@ == old(self)@.stack.last()
                    &&& final(self)@ == (RuntimeContextV {
                        stack: old(self)@.stack.update(old(self)@.stack.len() - 1, final(x)@),
                        ..old(self)@
                    })
                },
                None => false,
            },
    {
        broadcast use lemma_states_view_update;

        let n = self.stack.len();
        if n == 0 {
            None
        } else {
            Some(&mut self.stack[n - 1])
        }
    }
}

} // verus!
