//! What each hook asks, does and answers, said step by step of a run.
use crate::dispatch::{
    dispatch_next, DispatchAction, DispatchEvent, EventView, HookRun, Progress, RunView,
};
use crate::handlers::{
    asks_instance, kind_of, post_tool_step, pre_tool_step, session_end_step, session_started,
    stop_step, subagent_start_step, user_prompt_step, EffectView, HookEffect, HookKind,
    InstanceStatus,
};
use crate::json::{Members, Tree};
use crate::payload::{
    end_reason_of, ends_turn, grok_payload, is_trigger, position_of, prompt_of, session_of,
    stop_reason_of, Payload, Surroundings,
};
use crate::wire::{compact_json, stream_reading};
use vstd::prelude::*;

verus! {

/// Each subcommand calls the hook that it is named after; a subagent that stops is a turn that
/// stops.
pub proof fn hooks_by_their_names(name: Seq<char>)
    ensures
        kind_of(name) == HookKind::SessionStart <==> name == "grok-sessionstart"@,
        kind_of(name) == HookKind::UserPromptSubmit <==> name == "grok-userpromptsubmit"@,
        kind_of(name) == HookKind::PreToolUse <==> name == "grok-pretooluse"@,
        kind_of(name) == HookKind::PostToolUse <==> name == "grok-posttooluse"@,
        kind_of(name) == HookKind::Stop <==> name == "grok-stop"@ || name == "grok-subagentstop"@,
        kind_of(name) == HookKind::SubagentStart <==> name == "grok-subagentstart"@,
        kind_of(name) == HookKind::SessionEnd <==> name == "grok-sessionend"@,
{
    reveal_strlit("grok-sessionstart");
    reveal_strlit("grok-userpromptsubmit");
    reveal_strlit("grok-pretooluse");
    reveal_strlit("grok-posttooluse");
    reveal_strlit("grok-stop");
    reveal_strlit("grok-subagentstart");
    reveal_strlit("grok-subagentstop");
    reveal_strlit("grok-sessionend");
    assert("grok-sessionstart"@.len() == 17);
    assert("grok-userpromptsubmit"@.len() == 21);
    assert("grok-pretooluse"@.len() == 15);
    assert("grok-posttooluse"@.len() == 16);
    assert("grok-stop"@.len() == 9);
    assert("grok-subagentstart"@.len() == 18);
    assert("grok-subagentstop"@.len() == 17);
    assert("grok-sessionend"@.len() == 15);
    assert("grok-sessionstart"@[6] != "grok-subagentstop"@[6]);
    assert("grok-pretooluse"@[5] != "grok-sessionend"@[5]);
}

/// What happens once it is known that hooks are to run.
pub open spec fn once_hooks_may_run(payload: Payload, env: Surroundings) -> Progress {
    dispatch_next(HookRun::Gating { payload }, DispatchEvent::Gate(Some(env)))
}

/// What happens when the question for the instance is answered.
pub open spec fn after_the_question(
    payload: Payload,
    env: Surroundings,
    resolved: Option<Seq<char>>,
) -> Progress {
    dispatch_next(HookRun::Resolving { payload, env }, DispatchEvent::Resolved(resolved))
}

/// Whether a step asks for the instance by the session of the payload, or else that of the
/// process, and by the id of the process as it is, and does nothing else.
pub open spec fn asks_for_the_instance(
    progress: Progress,
    payload: Payload,
    env: Surroundings,
) -> bool {
    &&& progress.run == (HookRun::<Seq<char>, Payload, Surroundings>::Resolving { payload, env })
    &&& progress.effects.len() == 0
    &&& progress.action == (DispatchAction::ResolveInstance {
        session_id: session_of(payload, env),
        process_id: env.process_id,
    })
}

/// Whether a step writes an answer that hands over no messages.
pub open spec fn answers(progress: Progress, output: Tree) -> bool {
    &&& progress.action == (DispatchAction::WriteOutput { text: compact_json(output) })
    &&& progress.run == (HookRun::<Seq<char>, Payload, Surroundings>::Writing {
        delivers: false,
        guarded: true,
    })
}

/// Every hook but the start of a session asks for the instance first, by the session and by the
/// process that it has.
pub proof fn hooks_ask_for_the_instance(payload: Payload, env: Surroundings)
    requires
        kind_of(payload.hook_name) != HookKind::SessionStart,
        kind_of(payload.hook_name) != HookKind::Unknown,
    ensures
        asks_for_the_instance(once_hooks_may_run(payload, env), payload, env),
{
}

/// The start of a session binds the session to the process, where it has both; it asks for the
/// instance where it has no process or could not bind the session; without a session, and where
/// the subcommand is no hook, nothing is done.
pub proof fn a_session_is_bound_first(payload: Payload, env: Surroundings, session_id: Seq<char>)
    ensures
        ({
            let step = once_hooks_may_run(payload, env);
            &&& kind_of(payload.hook_name) == HookKind::Unknown || (kind_of(payload.hook_name)
                == HookKind::SessionStart && session_of(payload, env) is None) ==> {
                &&& step.effects.len() == 0
                &&& answers(step, Tree::Object(Map::empty()))
            }
            &&& kind_of(payload.hook_name) == HookKind::SessionStart && session_of(payload, env)
                is Some ==> match env.process_id {
                Some(process_id) => {
                    &&& step.effects.len() == 0
                    &&& step.action == (DispatchAction::BindSession {
                        session_id: session_of(payload, env)->Some_0,
                        process_id,
                    })
                    &&& step.run == (HookRun::<Seq<char>, Payload, Surroundings>::Binding {
                        payload,
                        env,
                        session_id: session_of(payload, env)->Some_0,
                    })
                },
                None => asks_for_the_instance(step, payload, env),
            }
        }),
        asks_for_the_instance(
            dispatch_next(
                HookRun::Binding { payload, env, session_id },
                DispatchEvent::Bound(None),
            ),
            payload,
            env,
        ),
{
}

/// An instance that the binding gave is treated like one that was asked for.
pub proof fn a_bound_instance_is_like_a_found_one(
    payload: Payload,
    env: Surroundings,
    session_id: Seq<char>,
    instance: Seq<char>,
)
    requires
        kind_of(payload.hook_name) == HookKind::SessionStart,
        session_of(payload, env) == Some(session_id),
    ensures
        dispatch_next(
            HookRun::Binding { payload, env, session_id },
            DispatchEvent::Bound(Some(instance)),
        ) == after_the_question(payload, env, Some(instance)),
{
}

/// What the start of a session does for an instance, in this order.
pub proof fn what_a_start_does(
    payload: Payload,
    env: Surroundings,
    session_id: Seq<char>,
    instance: Seq<char>,
)
    requires
        kind_of(payload.hook_name) == HookKind::SessionStart,
        session_of(payload, env) == Some(session_id),
    ensures
        ({
            let step = after_the_question(payload, env, Some(instance));
            &&& step.effects.len() == 7
            &&& step.effects[0] == (HookEffect::<Seq<char>, Members, Tree>::RebindSession {
                instance,
                session_id,
            })
            &&& step.effects[1] == (HookEffect::<
                Seq<char>,
                Members,
                Tree,
            >::CaptureLaunchContext { instance })
            &&& step.effects[2] == (HookEffect::<Seq<char>, Members, Tree>::UpdatePosition {
                instance,
                updates: position_of(payload, env),
            })
            &&& step.effects[3] == (HookEffect::<Seq<char>, Members, Tree>::SetStatus {
                instance,
                status: InstanceStatus::Listening,
                context: "start"@,
            })
            &&& step.effects[4] == (HookEffect::<Seq<char>, Members, Tree>::SetTerminalTitle {
                instance,
            })
            &&& step.effects[5] == HookEffect::<Seq<char>, Members, Tree>::EnsureWorker
            &&& step.effects[6] == (HookEffect::<Seq<char>, Members, Tree>::Notify { instance })
            &&& answers(step, Tree::Object(Map::empty()))
        }),
{
}

/// Every hook but the start of a session first keeps where the instance stands.
pub proof fn hooks_keep_the_position(payload: Payload, env: Surroundings, instance: Seq<char>)
    requires
        kind_of(payload.hook_name) != HookKind::SessionStart,
        kind_of(payload.hook_name) != HookKind::Unknown,
    ensures
        ({
            let effects = after_the_question(payload, env, Some(instance)).effects;
            effects.len() > 0 && effects[0] == (HookEffect::<
                Seq<char>,
                Members,
                Tree,
            >::UpdatePosition { instance, updates: position_of(payload, env) })
        }),
{
}

/// What a prompt, the use of a tool, the start of a subagent and the end of a session do besides,
/// and what they answer.
pub proof fn what_the_other_hooks_do(payload: Payload, env: Surroundings, instance: Seq<char>)
    ensures
        ({
            let kind = kind_of(payload.hook_name);
            let step = after_the_question(payload, env, Some(instance));
            let empty = Tree::Object(Map::empty());
            &&& kind == HookKind::UserPromptSubmit ==> {
                &&& step.effects.len() == 2
                &&& step.effects[1] == (HookEffect::<Seq<char>, Members, Tree>::SetStatus {
                    instance,
                    status: InstanceStatus::Active,
                    context: if is_trigger(prompt_of(payload.raw)) {
                        "trigger"@
                    } else {
                        "prompt"@
                    },
                })
                &&& answers(step, empty)
            }
            &&& kind == HookKind::PreToolUse ==> {
                &&& step.effects.len() == 2
                &&& step.effects[1] == (HookEffect::<Seq<char>, Members, Tree>::UpdateToolStatus {
                    instance,
                    tool: "grok"@,
                    tool_name: payload.tool_name,
                    tool_input: payload.tool_input,
                })
                &&& answers(step, Tree::Object(map!["decision"@ => Tree::Str("allow"@)]))
            }
            &&& kind == HookKind::PostToolUse ==> step.effects.len() == 1 && answers(step, empty)
            &&& kind == HookKind::SubagentStart ==> {
                &&& step.effects.len() == 3
                &&& step.effects[1] == (HookEffect::<Seq<char>, Members, Tree>::SetStatus {
                    instance,
                    status: InstanceStatus::Listening,
                    context: "subagent-start"@,
                })
                &&& step.effects[2] == (HookEffect::<Seq<char>, Members, Tree>::Notify { instance })
                &&& answers(step, empty)
            }
            &&& kind == HookKind::SessionEnd ==> {
                &&& step.effects.len() == 2
                &&& step.effects[1] == (HookEffect::<Seq<char>, Members, Tree>::FinalizeSession {
                    instance,
                    reason: end_reason_of(payload.raw),
                })
                &&& answers(step, empty)
            }
        }),
{
}

/// What a stop does besides: the instance listens again and those that wait for it are woken. At
/// the end of the turn the messages that wait for this instance are asked for; otherwise nothing
/// is answered.
pub proof fn what_a_stop_does(payload: Payload, env: Surroundings, instance: Seq<char>)
    requires
        kind_of(payload.hook_name) == HookKind::Stop,
    ensures
        ({
            let step = after_the_question(payload, env, Some(instance));
            &&& step.effects.len() == 3
            &&& step.effects[1] == (HookEffect::<Seq<char>, Members, Tree>::SetStatus {
                instance,
                status: InstanceStatus::Listening,
                context: Seq::empty(),
            })
            &&& step.effects[2] == (HookEffect::<Seq<char>, Members, Tree>::Notify { instance })
            &&& if ends_turn(stop_reason_of(payload.raw)) {
                &&& step.action == (DispatchAction::PreparePending { instance })
                &&& step.run == (HookRun::<Seq<char>, Payload, Surroundings>::Collecting {
                    payload,
                    env,
                })
            } else {
                answers(step, Tree::Object(Map::empty()))
            }
        }),
{
}

/// What is answered where there is no instance, and where no messages wait.
pub proof fn what_is_answered_without(payload: Payload, env: Surroundings)
    ensures
        after_the_question(payload, env, None).effects.len() == 0,
        kind_of(payload.hook_name) == HookKind::PreToolUse ==> answers(
            after_the_question(payload, env, None),
            Tree::Object(map!["decision"@ => Tree::Str("allow"@)]),
        ),
        kind_of(payload.hook_name) != HookKind::PreToolUse ==> answers(
            after_the_question(payload, env, None),
            Tree::Object(Map::empty()),
        ),
        answers(
            dispatch_next(HookRun::Collecting { payload, env }, DispatchEvent::Pending(None)),
            Tree::Object(Map::empty()),
        ),
        dispatch_next(
            HookRun::Collecting { payload, env },
            DispatchEvent::Pending(None),
        ).effects.len() == 0,
{
}

/// The answer that hands messages over, in full.
pub proof fn what_is_answered_with_messages(
    payload: Payload,
    env: Surroundings,
    messages: Seq<char>,
)
    requires
        kind_of(payload.hook_name) == HookKind::Stop,
        ends_turn(stop_reason_of(payload.raw)),
    ensures
        ({
            let step = dispatch_next(
                HookRun::Collecting { payload, env },
                DispatchEvent::Pending(Some(messages)),
            );
            let context = Tree::Object(
                map![
                    "additionalContext"@ => Tree::Str(messages),
                    "additional_context"@ => Tree::Str(messages),
                ],
            );
            &&& step.effects.len() == 0
            &&& step.run == (HookRun::<Seq<char>, Payload, Surroundings>::Writing {
                delivers: true,
                guarded: true,
            })
            &&& step.action == (DispatchAction::WriteOutput {
                text: compact_json(Tree::Object(map!["hookSpecificOutput"@ => context])),
            })
        }),
{
}

/// The instance that an effect is about.
pub open spec fn instance_of(effect: EffectView) -> Option<Seq<char>> {
    match effect {
        HookEffect::RebindSession { instance, .. } => Some(instance),
        HookEffect::CaptureLaunchContext { instance } => Some(instance),
        HookEffect::UpdatePosition { instance, .. } => Some(instance),
        HookEffect::SetStatus { instance, .. } => Some(instance),
        HookEffect::SetTerminalTitle { instance } => Some(instance),
        HookEffect::Notify { instance } => Some(instance),
        HookEffect::UpdateToolStatus { instance, .. } => Some(instance),
        HookEffect::FinalizeSession { instance, .. } => Some(instance),
        _ => None,
    }
}

/// Whatever a hook does for an instance that was found is about that instance and no other.
pub proof fn effects_are_about_the_instance(
    payload: Payload,
    env: Surroundings,
    instance: Seq<char>,
    i: int,
)
    requires
        0 <= i < after_the_question(payload, env, Some(instance)).effects.len(),
    ensures
        instance_of(after_the_question(payload, env, Some(instance)).effects[i]) matches Some(
            other,
        ) ==> other == instance,
{
}

/// Whether a step ends the run with success and without effects.
pub open spec fn ends_quietly(progress: Progress) -> bool {
    &&& progress.run is Ended
    &&& progress.effects.len() == 0
    &&& progress.action == (DispatchAction::<Seq<char>>::Exit { code: 0 })
}

/// How a run begins: what Grok hands in is read, then the database is opened, then it is asked
/// whether hooks are to run. Input that is no JSON ends the run with a warning that says why.
pub proof fn how_a_run_begins(hook_name: Seq<char>, bytes: Seq<u8>, payload: Payload)
    ensures
        ({
            let started = dispatch_next(HookRun::Fresh { hook_name }, DispatchEvent::Started);
            let read = dispatch_next(
                HookRun::Reading { hook_name },
                DispatchEvent::Input(Some(bytes)),
            );
            let opened = dispatch_next(HookRun::Opening { payload }, DispatchEvent::Database(true));
            &&& started.run == (HookRun::<Seq<char>, Payload, Surroundings>::Reading { hook_name })
            &&& started.action == DispatchAction::<Seq<char>>::ReadInput
            &&& started.effects.len() == 0
            &&& match stream_reading(bytes) {
                Ok(raw) => {
                    &&& read.run == (HookRun::<Seq<char>, Payload, Surroundings>::Opening {
                        payload: grok_payload(hook_name, raw),
                    })
                    &&& read.action == DispatchAction::<Seq<char>>::OpenDatabase
                    &&& read.effects.len() == 0
                },
                Err(message) => {
                    &&& read.run is Ended
                    &&& read.action == (DispatchAction::<Seq<char>>::Exit { code: 0 })
                    &&& read.effects.len() == 1
                    &&& read.effects[0] == (HookEffect::<Seq<char>, Members, Tree>::WarnOfInput {
                        hook_name,
                        message,
                    })
                },
            }
            &&& opened.run == (HookRun::<Seq<char>, Payload, Surroundings>::Gating { payload })
            &&& opened.action == DispatchAction::<Seq<char>>::CheckGate
            &&& opened.effects.len() == 0
        }),
{
}

/// What fails, or that hooks are not to run, ends the run quietly, wherever it stands.
pub proof fn failures_end_a_run_quietly(run: RunView)
    ensures
        ends_quietly(dispatch_next(run, DispatchEvent::Input(None))),
        ends_quietly(dispatch_next(run, DispatchEvent::Database(false))),
        ends_quietly(dispatch_next(run, DispatchEvent::Gate(None))),
        ends_quietly(dispatch_next(run, DispatchEvent::Written(false))),
        ends_quietly(dispatch_next(run, DispatchEvent::Flushed(false))),
{
}

/// A hook that panics while it asks or while its effects are had answers that a tool may run,
/// hands nothing over, and has no further effect; elsewhere a panic ends the run.
pub proof fn a_panic_allows_the_tool(run: RunView)
    ensures
        ({
            let step = dispatch_next(run, DispatchEvent::Panicked);
            if run is Binding || run is Resolving || run is Collecting || (
            run matches HookRun::Writing { guarded: true, .. }) {
                &&& step.effects.len() == 0
                &&& step.run == (HookRun::<Seq<char>, Payload, Surroundings>::Writing {
                    delivers: false,
                    guarded: false,
                })
                &&& step.action == (DispatchAction::WriteOutput {
                    text: compact_json(
                        Tree::Object(map!["decision"@ => Tree::Str("allow"@)]),
                    ),
                })
            } else {
                ends_quietly(step)
            }
        }),
{
}

/// How a run ends: an answer that was written is flushed, and one that was flushed ends the run,
/// with the delivery committed just where it handed messages over.
pub proof fn how_a_run_ends(delivers: bool, guarded: bool)
    ensures
        ({
            let written = dispatch_next(
                HookRun::Writing { delivers, guarded },
                DispatchEvent::Written(true),
            );
            let flushed = dispatch_next(
                HookRun::Flushing { delivers },
                DispatchEvent::Flushed(true),
            );
            &&& written.run == (HookRun::<Seq<char>, Payload, Surroundings>::Flushing { delivers })
            &&& written.action == DispatchAction::<Seq<char>>::FlushOutput
            &&& written.effects.len() == 0
            &&& flushed.run is Ended
            &&& flushed.action == (DispatchAction::<Seq<char>>::Exit { code: 0 })
            &&& flushed.effects.len() == if delivers {
                1nat
            } else {
                0nat
            }
            &&& delivers ==> flushed.effects[0] == HookEffect::<
                Seq<char>,
                Members,
                Tree,
            >::CommitDelivery
        }),
{
}

/// A run goes on only with the event that it asked for, or with a panic; any other ends it
/// quietly.
pub proof fn other_events_end_a_run(run: RunView, event: EventView)
    requires
        !(event is Panicked),
        !(run is Fresh && event is Started),
        !(run is Reading && event is Input),
        !(run is Opening && event is Database),
        !(run is Gating && event is Gate),
        !(run is Binding && event is Bound),
        !(run is Resolving && event is Resolved),
        !(run is Collecting && event is Pending),
        !(run is Writing && event is Written),
        !(run is Flushing && event is Flushed),
    ensures
        ends_quietly(dispatch_next(run, event)),
{
}

/// What is done once a session is bound to an instance, for whatever session that is: it is tied
/// to the instance first, and the rest is what a start does.
pub proof fn what_a_bound_session_does(
    payload: Payload,
    env: Surroundings,
    session_id: Seq<char>,
    instance: Seq<char>,
)
    ensures
        ({
            let step = dispatch_next(
                HookRun::Binding { payload, env, session_id },
                DispatchEvent::Bound(Some(instance)),
            );
            &&& step == (Progress {
                effects: seq![
                    HookEffect::<Seq<char>, Members, Tree>::RebindSession { instance, session_id },
                    HookEffect::CaptureLaunchContext { instance },
                    HookEffect::UpdatePosition { instance, updates: position_of(payload, env) },
                    HookEffect::SetStatus {
                        instance,
                        status: InstanceStatus::Listening,
                        context: "start"@,
                    },
                    HookEffect::SetTerminalTitle { instance },
                    HookEffect::EnsureWorker,
                    HookEffect::Notify { instance },
                ],
                ..step
            })
            &&& answers(step, Tree::Object(Map::empty()))
        }),
{
}

/// A payload under another name of a hook.
pub open spec fn renamed(payload: Payload, hook_name: Seq<char>) -> Payload {
    Payload { hook_name, ..payload }
}

/// What is done for an instance follows from what Grok handed in and from the surroundings; by
/// which name the hook was called makes no difference to any of the handlers.
pub proof fn handlers_do_not_look_at_the_name(
    payload: Payload,
    env: Surroundings,
    session_id: Seq<char>,
    instance: Seq<char>,
    hook_name: Seq<char>,
)
    ensures
        ({
            let other = renamed(payload, hook_name);
            &&& asks_instance(other, env).next == asks_instance(payload, env).next
            &&& asks_instance(other, env).effects == asks_instance(payload, env).effects
            &&& session_started(other, env, session_id, instance) == session_started(
                payload,
                env,
                session_id,
                instance,
            )
            &&& user_prompt_step(other, env, instance) == user_prompt_step(payload, env, instance)
            &&& pre_tool_step(other, env, instance) == pre_tool_step(payload, env, instance)
            &&& post_tool_step(other, env, instance) == post_tool_step(payload, env, instance)
            &&& stop_step(other, env, instance) == stop_step(payload, env, instance)
            &&& subagent_start_step(other, env, instance) == subagent_start_step(
                payload,
                env,
                instance,
            )
            &&& session_end_step(other, env, instance) == session_end_step(payload, env, instance)
        }),
{
    let other = renamed(payload, hook_name);
    assert(position_of(other, env) == position_of(payload, env));
}

} // verus!
