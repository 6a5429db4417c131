//! What holds of every run of a hook.
use crate::commands::grok_hook_commands;
use crate::dispatch::{
    dispatch_next, DispatchAction, DispatchEvent, EventView, HookRun, RunView,
};
use crate::handlers::{
    allow_answer, context_answer, empty_answer, kind_of, EffectView, HookEffect, HookKind,
};
use crate::json::{Members, Tree};
use crate::payload::{ends_turn, stop_reason_of, Payload, Surroundings};
use crate::wire::compact_json;
use vstd::prelude::*;

verus! {

/// The subcommands of the hooks that are installed are just those that a run knows.
pub proof fn installed_commands_are_known(name: Seq<char>)
    ensures
        kind_of(name) != HookKind::Unknown <==> exists|i: int|
            0 <= i < grok_hook_commands().len() && (#[trigger] grok_hook_commands()[i]).1 == name,
{
    assert(grok_hook_commands()[0].1 == "grok-sessionstart"@);
    assert(grok_hook_commands()[1].1 == "grok-userpromptsubmit"@);
    assert(grok_hook_commands()[2].1 == "grok-pretooluse"@);
    assert(grok_hook_commands()[3].1 == "grok-posttooluse"@);
    assert(grok_hook_commands()[4].1 == "grok-stop"@);
    assert(grok_hook_commands()[5].1 == "grok-subagentstart"@);
    assert(grok_hook_commands()[6].1 == "grok-subagentstop"@);
    assert(grok_hook_commands()[7].1 == "grok-sessionend"@);
}

/// Messages are handed over only at the end of a turn: when those that wait were collected for
/// a hook that says that the turn, or that of a subagent, came to its end. The answer holds
/// just these messages.
pub proof fn only_the_end_of_a_turn_delivers(run: RunView, event: EventView)
    ensures
        dispatch_next(run, event).run matches HookRun::Writing { delivers: true, .. } ==> {
            &&& run matches HookRun::Collecting { payload, .. }
            &&& kind_of(payload.hook_name) == HookKind::Stop
            &&& ends_turn(stop_reason_of(payload.raw))
            &&& event matches DispatchEvent::Pending(Some(messages))
            &&& dispatch_next(run, event).action == DispatchAction::WriteOutput {
                text: compact_json(context_answer(messages)),
            }
        },
{
}

/// At the end of a turn the messages that wait are handed over: the hook of an instance that was
/// found asks for them, writes them as its answer, and commits the delivery once the answer is
/// flushed.
pub proof fn the_end_of_a_turn_delivers(
    payload: Payload,
    env: Surroundings,
    instance: Seq<char>,
    messages: Seq<char>,
)
    requires
        kind_of(payload.hook_name) == HookKind::Stop,
        ends_turn(stop_reason_of(payload.raw)),
    ensures
        ({
            let asked = dispatch_next(
                HookRun::Resolving { payload, env },
                DispatchEvent::Resolved(Some(instance)),
            );
            let answered = dispatch_next(asked.run, DispatchEvent::Pending(Some(messages)));
            let written = dispatch_next(answered.run, DispatchEvent::Written(true));
            let flushed = dispatch_next(written.run, DispatchEvent::Flushed(true));
            &&& asked.action == (DispatchAction::PreparePending { instance })
            &&& answered.action == (DispatchAction::WriteOutput {
                text: compact_json(context_answer(messages)),
            })
            &&& written.action == DispatchAction::<Seq<char>>::FlushOutput
            &&& flushed.effects == seq![HookEffect::<Seq<char>, Members, Tree>::CommitDelivery]
            &&& flushed.action == (DispatchAction::<Seq<char>>::Exit { code: 0 })
        }),
{
}

/// A delivery is committed only after the answer with the messages was written and flushed.
pub proof fn delivery_is_committed_after_the_flush(run: RunView, event: EventView)
    ensures
        dispatch_next(run, event).effects.contains(HookEffect::CommitDelivery) ==> run
            == (HookRun::<Seq<char>, Payload, Surroundings>::Flushing { delivers: true }) && event
            == DispatchEvent::<Seq<char>, Seq<u8>, Surroundings>::Flushed(true),
        dispatch_next(run, event).run == (HookRun::<
            Seq<char>,
            Payload,
            Surroundings,
        >::Flushing { delivers: true }) ==> {
            &&& run matches HookRun::Writing { delivers: true, .. }
            &&& event == DispatchEvent::<Seq<char>, Seq<u8>, Surroundings>::Written(true)
        },
{
    let effects = dispatch_next(run, event).effects;
    if effects.contains(HookEffect::CommitDelivery) {
        let i = choose|i: int| 0 <= i < effects.len() && effects[i] == HookEffect::<
            Seq<char>,
            Members,
            Tree,
        >::CommitDelivery;
        assert(effects[i] is CommitDelivery);
    }
}

/// The answer that is written for a payload, if one is.
pub open spec fn answer_text(run: RunView, event: EventView) -> Option<Seq<char>> {
    match dispatch_next(run, event).action {
        DispatchAction::WriteOutput { text } => Some(text),
        _ => None,
    }
}

/// The payload that a run works on.
pub open spec fn payload_of(run: RunView) -> Option<Payload> {
    match run {
        HookRun::Opening { payload } => Some(payload),
        HookRun::Gating { payload } => Some(payload),
        HookRun::Binding { payload, .. } => Some(payload),
        HookRun::Resolving { payload, .. } => Some(payload),
        HookRun::Collecting { payload, .. } => Some(payload),
        _ => None,
    }
}

/// A hook other than the end of a turn hands nothing to the model: its answer is empty, or says
/// that a tool may run.
pub proof fn other_hooks_answer_nothing(run: RunView, event: EventView, payload: Payload)
    requires
        payload_of(run) == Some(payload),
        kind_of(payload.hook_name) != HookKind::Stop,
    ensures
        answer_text(run, event) matches Some(text) ==> text == compact_json(empty_answer()) || text
            == compact_json(allow_answer()),
{
}

/// A tool may always run: once the question for the instance is answered, or the hook has
/// panicked, the answer before the use of a tool is that it is allowed.
pub proof fn tools_are_always_allowed(
    payload: Payload,
    env: Surroundings,
    resolved: Option<Seq<char>>,
)
    requires
        kind_of(payload.hook_name) == HookKind::PreToolUse,
    ensures
        answer_text(HookRun::Resolving { payload, env }, DispatchEvent::Resolved(resolved)) == Some(
            compact_json(allow_answer()),
        ),
        answer_text(HookRun::Resolving { payload, env }, DispatchEvent::Panicked) == Some(
            compact_json(allow_answer()),
        ),
        dispatch_next(HookRun::Gating { payload }, DispatchEvent::Gate(Some(env))).run
            == (HookRun::<Seq<char>, Payload, Surroundings>::Resolving { payload, env }),
{
}

/// A hook that finds no instance has no effect.
pub proof fn no_instance_no_effect(payload: Payload, env: Surroundings)
    ensures
        dispatch_next(
            HookRun::Resolving { payload, env },
            DispatchEvent::Resolved(None),
        ).effects == Seq::<EffectView>::empty(),
{
}

/// The answer with messages hands them over in the two fields that Grok reads, and has no
/// `followup_message`.
pub proof fn messages_are_context_and_no_followup(messages: Seq<char>)
    ensures
        context_answer(messages).get("followup_message"@) is None,
        context_answer(messages).get("hookSpecificOutput"@) matches Some(inner) && inner.str_at(
            "additionalContext"@,
        ) == Some(messages) && inner.str_at("additional_context"@) == Some(messages),
{
    reveal_strlit("followup_message");
    reveal_strlit("hookSpecificOutput");
    reveal_strlit("additionalContext");
    reveal_strlit("additional_context");
    assert("followup_message"@.len() != "hookSpecificOutput"@.len());
    assert("additionalContext"@.len() != "additional_context"@.len());
}

/// Whatever happens, a process that runs a hook exits with success.
pub proof fn exits_with_success(run: RunView, event: EventView)
    ensures
        dispatch_next(run, event).action matches DispatchAction::Exit { code } ==> code == 0,
        dispatch_next(run, event).run is Ended <==> dispatch_next(run, event).action is Exit,
{
}

/// How many steps a run can still take.
pub open spec fn steps_left(run: RunView) -> nat {
    match run {
        HookRun::Fresh { .. } => 10,
        HookRun::Reading { .. } => 9,
        HookRun::Opening { .. } => 8,
        HookRun::Gating { .. } => 7,
        HookRun::Binding { .. } => 6,
        HookRun::Resolving { .. } => 5,
        HookRun::Collecting { .. } => 4,
        HookRun::Writing { guarded, .. } => if guarded {
            3
        } else {
            2
        },
        HookRun::Flushing { .. } => 1,
        HookRun::Ended => 0,
    }
}

/// Every run comes to its end: each step leaves fewer than there were before.
pub proof fn every_run_ends(run: RunView, event: EventView)
    ensures
        steps_left(dispatch_next(run, event).run) < steps_left(run) || run is Ended,
        run is Ended ==> dispatch_next(run, event).run is Ended && dispatch_next(
            run,
            event,
        ).effects.len() == 0,
{
}

} // verus!
