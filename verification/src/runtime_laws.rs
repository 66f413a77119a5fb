//! Properties of the runtime that span several operations.
use vstd::prelude::*;

use crate::error::RuntimeErrorV;
use crate::format::{ChildContentV, ChildV, LiteralV, ParameterV};
use crate::runtime::{
    bind_parameters, child_outcome, content_outcome, enter_paragraph, unwind_paragraph, jump_target, resolved_get, resolved_index,
    leave_block, paragraph_entry, paragraph_spec,
    step_outcome, syscall_outcome, BlockExit, PhaseV, ResolvedArgumentV, ResolvedCallV, RuntimeV,
    StepOutcome, StepResultV, SysOutcome,
};
use crate::runtime_state::{
    shift_top, story_index, ExecutionStateV, LoopControl, RuntimeContextV,
};

verus! {

/// Restoring the stack that `save` returned gives back the same runtime.
pub proof fn law_restore_saved(rt: RuntimeV, saved: Seq<ExecutionStateV>)
    requires
        saved == rt.context.stack,
    ensures
        (RuntimeV { context: RuntimeContextV { stack: saved, ..rt.context }, ..rt }) == rt,
{
}

/// Entering a paragraph with `call` and then leaving its block comes back
/// to the context before the call, when a block was running.
pub proof fn law_call_then_leave(
    c: RuntimeContextV,
    story: Seq<char>,
    paragraph: Seq<char>,
    args: Seq<ResolvedArgumentV>,
)
    requires
        c.stack.len() > 0,
        paragraph_entry(c, story, paragraph, args) is Ok,
    ensures
        enter_paragraph(c, story, paragraph, args) matches SysOutcome::Done { result, context } && result == Ok::<
            bool,
            RuntimeErrorV,
        >(true) && leave_block(context) == (BlockExit { result: Ok(()), context: c, ended: false }),
{
    let st = paragraph_entry(c, story, paragraph, args)->Ok_0;
    let c1 = RuntimeContextV { stack: c.stack.push(st), ..c };
    assert(story_index(c.stories, story) is Some);
    assert(enter_paragraph(c, story, paragraph, args) == (SysOutcome::Done { result: Ok(true), context: c1 }));
    assert(c1.stack.drop_last() =~= c.stack);
    assert(RuntimeContextV { stack: c1.stack.drop_last(), ..c1 } == c);
}

/// The locals of a paragraph entered with some arguments hold each of its
/// parameters, in order, with the value of the first argument of that
/// name, or else its default.
pub proof fn law_locals_from_arguments(
    params: Seq<ParameterV>,
    args: Seq<ResolvedArgumentV>,
    locals: Seq<(Seq<char>, LiteralV)>,
)
    requires
        bind_parameters(params, args) == Ok::<Seq<(Seq<char>, LiteralV)>, Seq<char>>(locals),
    ensures
        locals.len() == params.len(),
        forall|i: int|
            0 <= i < params.len() ==> (#[trigger] locals[i]).0 == params[i].name && locals[i].1 == match resolved_get(
                args,
                params[i].name,
            ) {
                Some(v) => v,
                None => params[i].default_value->0,
            } && (resolved_get(args, params[i].name) is Some || params[i].default_value is Some),
    decreases params.len(),
{
    if params.len() > 0 {
        let ls = bind_parameters(params.drop_last(), args)->Ok_0;
        let p = params.last();
        assert(locals == ls.push((p.name, locals.last().1)));
        assert(locals.drop_last() =~= ls);
        law_locals_from_arguments(params.drop_last(), args, ls);
        assert forall|i: int| 0 <= i < params.len() implies (#[trigger] locals[i]).0 == params[i].name
            && locals[i].1 == match resolved_get(args, params[i].name) {
            Some(v) => v,
            None => params[i].default_value->0,
        } && (resolved_get(args, params[i].name) is Some || params[i].default_value is Some) by {
            if i < params.len() - 1 {
                assert(params.drop_last()[i] == params[i]);
                assert(ls[i] == locals[i]);
            }
        }
    }
}

/// A paragraph that cannot be given a value for a parameter is not
/// entered: the error names the story, the paragraph and the parameter,
/// and the context stays as it was.
pub proof fn law_missing_argument_enters_nothing(
    c: RuntimeContextV,
    story: Seq<char>,
    paragraph: Seq<char>,
    args: Seq<ResolvedArgumentV>,
    argument: Seq<char>,
)
    requires
        story_index(c.stories, story) is Some,
        paragraph_spec(c, story, paragraph) matches Ok(p) && bind_parameters(p.parameters, args)
            == Err::<Seq<(Seq<char>, LiteralV)>, Seq<char>>(argument),
    ensures
        enter_paragraph(c, story, paragraph, args) == (SysOutcome::Done {
            result: Err(RuntimeErrorV::MissingParagraphArgument { story, paragraph, argument }),
            context: c,
        }),
{
}

/// A nested block runs with the locals of the paragraph it belongs to.
pub proof fn law_nested_block_shares_locals(rt: RuntimeV, b: Seq<ChildV>, is_loop: bool)
    requires
        rt.context.stack.len() > 0,
    ensures
        content_outcome(rt, ChildContentV::Block(b), is_loop) matches StepOutcome::Exact { result, after }
            && after.context.stack.len() == rt.context.stack.len() + 1
            && after.context.stack.last().locals == rt.context.stack.last().locals
            && after.context.stack.drop_last() == rt.context.stack,
{
    let c = rt.context;
    let after = content_outcome(rt, ChildContentV::Block(b), is_loop)->Exact_after;
    assert(after.context.stack.drop_last() =~= c.stack);
}

/// `#replace` keeps the blocks of the paragraphs below the current one
/// as they were (their locals included): what stays of the stack is a
/// part of it from the bottom.
pub proof fn law_replace_keeps_caller_frames(stack: Seq<ExecutionStateV>, story: Seq<char>, paragraph: Seq<char>)
    ensures
        unwind_paragraph(stack, story, paragraph).len() <= stack.len(),
        unwind_paragraph(stack, story, paragraph) == stack.take(unwind_paragraph(stack, story, paragraph).len() as int),
    decreases stack.len(),
{
    if stack.len() > 0 && stack.last().story == story && stack.last().paragraph == paragraph {
        law_replace_keeps_caller_frames(stack.drop_last(), story, paragraph);
        let u = unwind_paragraph(stack, story, paragraph);
        assert(stack.drop_last().take(u.len() as int) =~= stack.take(u.len() as int));
    } else {
        assert(stack.take(stack.len() as int) =~= stack);
    }
}

/// A condition that was asked for and answered `false` skips its line: the
/// step only uses up the answer.
pub proof fn law_false_condition_skips(rt: RuntimeV, child: ChildV)
    requires
        rt.phase == PhaseV::AwaitingCondition(child),
        child.attributes.len() > 0,
        child.attributes.last().keyword == "cond"@ || child.attributes.last().keyword == "if"@
            || child.attributes.last().keyword == "while"@,
        child.attributes.last().condition is Some,
        rt.condition_result == Some(false),
    ensures
        step_outcome(rt) == (StepOutcome::Exact {
            result: Ok(None),
            after: RuntimeV { phase: PhaseV::Ready, condition_result: None, ..rt },
        }),
{
}

/// A line whose condition has not been evaluated yet is kept until the
/// answer comes: the step asks for the condition and changes nothing else.
pub proof fn law_condition_is_asked(rt: RuntimeV, child: ChildV)
    requires
        rt.phase == PhaseV::Ready,
        rt.condition_result is None,
        child.attributes.len() > 0,
        child.attributes.last().keyword == "cond"@ || child.attributes.last().keyword == "if"@
            || child.attributes.last().keyword == "while"@,
        child.attributes.last().condition is Some,
    ensures
        child_outcome(rt, child) == (StepOutcome::Exact {
            result: Ok(Some(StepResultV::NeedsCondition(child.attributes.last().condition.unwrap()))),
            after: RuntimeV { phase: PhaseV::AwaitingCondition(child), ..rt },
        }),
{
}

/// `#break` leaves the innermost loop body and moves past the loop line;
/// `#continue` leaves it and comes back to the loop line.
pub proof fn law_loop_signal(rt: RuntimeV, outer: Seq<ExecutionStateV>, body: ExecutionStateV, lc: LoopControl)
    requires
        rt.phase == PhaseV::Ready,
        rt.context.loop_control == Some(lc),
        body.is_loop_body,
        outer.len() > 0,
        rt.context.stack == outer.push(body),
    ensures
        ({
            let c = RuntimeContextV { stack: outer, loop_control: None, ..rt.context };
            step_outcome(rt) == (StepOutcome::Exact {
                result: Ok(None),
                after: RuntimeV {
                    context: if lc == LoopControl::Break {
                        shift_top(c, true)
                    } else {
                        c
                    },
                    ..rt
                },
            })
        }),
{
    assert(rt.context.stack.drop_last() =~= outer);
}

/// `#goto` to a loaded paragraph leaves only that paragraph's block on the
/// stack, with the paragraph's locals bound from the arguments.
pub proof fn law_goto_replaces_stack(
    c: RuntimeContextV,
    args: Seq<ResolvedArgumentV>,
    story: Seq<char>,
    paragraph: Seq<char>,
)
    requires
        args.len() >= 2,
        args[0] == (ResolvedArgumentV { name: "story"@, value: LiteralV::Str(story) }),
        args[1] == (ResolvedArgumentV { name: "paragraph"@, value: LiteralV::Str(paragraph) }),
        paragraph_entry(RuntimeContextV { stack: Seq::empty(), ..c }, story, paragraph, args) is Ok,
    ensures
        syscall_outcome(c, ResolvedCallV { command: "goto"@, arguments: args }) == (SysOutcome::Done {
            result: Ok(true),
            context: RuntimeContextV {
                stack: seq![paragraph_entry(RuntimeContextV { stack: Seq::empty(), ..c }, story, paragraph, args)->Ok_0],
                ..c
            },
        }),
{
    reveal_strlit("story");
    reveal_strlit("paragraph");
    reveal_strlit("goto");
    assert("story"@ != "paragraph"@) by {
        assert("story"@.len() == 5);
        assert("paragraph"@.len() == 9);
    }
    assert(args.drop_first()[0] == args[1]);
    assert(resolved_index(args, "story"@) == Some(0int));
    assert(resolved_index(args.drop_first(), "paragraph"@) == Some(0int));
    assert(resolved_index(args, "paragraph"@) == Some(1int));
    assert(jump_target(c, args) == Ok::<(Seq<char>, Seq<char>), RuntimeErrorV>((story, paragraph)));
    let c0 = RuntimeContextV { stack: Seq::empty(), ..c };
    assert(story_index(c0.stories, story) is Some);
    let st = paragraph_entry(c0, story, paragraph, args)->Ok_0;
    assert(Seq::<ExecutionStateV>::empty().push(st) =~= seq![st]);
}

} // verus!
