//! The run of one hook, from the call of the subcommand to its exit.
//!
//! The process performs each action and hands in what came of it. Whatever fails, the run ends
//! with success: a hook must not disturb Grok.
use crate::handlers::{
    after_bind, after_pending, after_resolve, allow_answer, allow_output, begin_hook,
    context_answer, effect_views, empty_answer, first_step, step_after_bind, step_after_pending,
    step_after_resolve, Effect, EffectView, HookEffect, HookNext, HookStep, Step,
};
use crate::json::Tree;
use crate::payload::{grok_payload, HookEnv, HookPayload, Payload, Surroundings};
use crate::readback::lemma_sound_members;
use crate::text::text_of;
use crate::wire::{
    compact_json, compact_text, is_plain, message_of, parse_stream, parsed_json, sound_within,
    stream_reading, whole_number, DEPTH_LIMIT,
};
use vstd::prelude::*;

verus! {

/// How far the run of a hook has come. `S` is a text, `P` a payload, `E` the surroundings.
#[derive(Debug)]
pub enum HookRun<S, P, E> {
    /// The subcommand was called.
    Fresh { hook_name: S },
    /// What Grok hands in is being read.
    Reading { hook_name: S },
    /// The database of the message bus is being opened.
    Opening { payload: P },
    /// It is being asked whether hooks are to run at all.
    Gating { payload: P },
    /// The session is being bound to the process.
    Binding { payload: P, env: E, session_id: S },
    /// The instance is being looked up.
    Resolving { payload: P, env: E },
    /// The messages that wait are being collected.
    Collecting { payload: P, env: E },
    /// The answer is being written. Where `guarded` is true, the effects that come with the
    /// answer may still fail.
    Writing { delivers: bool, guarded: bool },
    /// The answer is being flushed.
    Flushing { delivers: bool },
    /// The run is over.
    Ended,
}

/// What has happened in the run of a hook. `B` is a stream of bytes.
#[derive(Debug)]
pub enum DispatchEvent<S, B, E> {
    /// The subcommand was called.
    Started,
    /// What Grok hands in was read; nothing where that failed.
    Input(Option<B>),
    /// The database was opened, or could not be.
    Database(bool),
    /// Hooks are to run, in the given surroundings, or they are not.
    Gate(Option<E>),
    /// The session was bound to an instance, or to none.
    Bound(Option<S>),
    /// The instance was found, or there is none.
    Resolved(Option<S>),
    /// The messages that wait were collected, or there are none.
    Pending(Option<S>),
    /// Performing what the last step asked for panicked.
    Panicked,
    /// The answer was written, or could not be.
    Written(bool),
    /// The answer was flushed, or could not be.
    Flushed(bool),
}

/// What is to be done next in the run of a hook.
#[allow(inconsistent_fields)]
#[derive(Debug)]
pub enum DispatchAction<S> {
    /// Read all that Grok hands in.
    ReadInput,
    /// Open the database of the message bus.
    OpenDatabase,
    /// Ask whether hooks are to run at all.
    CheckGate,
    /// Bind the session to the process.
    BindSession { session_id: S, process_id: S },
    /// Find the instance that the session or the process belongs to.
    ResolveInstance { session_id: Option<S>, process_id: Option<S> },
    /// Collect the messages that wait for the instance.
    PreparePending { instance: S },
    /// Write the answer.
    WriteOutput { text: S },
    /// Flush the answer.
    FlushOutput,
    /// End the process with the given code.
    Exit { code: i32 },
}

/// The run of a hook.
pub type Run = HookRun<String, HookPayload, HookEnv>;

/// The run of a hook as a mathematical value.
pub type RunView = HookRun<Seq<char>, Payload, Surroundings>;

/// An event of a run.
pub type Event = DispatchEvent<String, Vec<u8>, HookEnv>;

/// An event of a run as a mathematical value.
pub type EventView = DispatchEvent<Seq<char>, Seq<u8>, Surroundings>;

/// One step of a run: where it leads, the effects to be had, in this order, and then the action.
#[derive(Debug)]
pub struct DispatchStep {
    pub run: Run,
    pub effects: Vec<Effect>,
    pub action: DispatchAction<String>,
}

/// One step of a run as a mathematical value.
pub struct Progress {
    pub run: RunView,
    pub effects: Seq<EffectView>,
    pub action: DispatchAction<Seq<char>>,
}

/// What a run holds.
pub open spec fn run_view(run: Run) -> RunView {
    match run {
        HookRun::Fresh { hook_name } => HookRun::Fresh { hook_name: hook_name@ },
        HookRun::Reading { hook_name } => HookRun::Reading { hook_name: hook_name@ },
        HookRun::Opening { payload } => HookRun::Opening { payload: payload@ },
        HookRun::Gating { payload } => HookRun::Gating { payload: payload@ },
        HookRun::Binding { payload, env, session_id } => HookRun::Binding {
            payload: payload@,
            env: env@,
            session_id: session_id@,
        },
        HookRun::Resolving { payload, env } => HookRun::Resolving { payload: payload@, env: env@ },
        HookRun::Collecting { payload, env } => HookRun::Collecting {
            payload: payload@,
            env: env@,
        },
        HookRun::Writing { delivers, guarded } => HookRun::Writing { delivers, guarded },
        HookRun::Flushing { delivers } => HookRun::Flushing { delivers },
        HookRun::Ended => HookRun::Ended,
    }
}

/// What an event holds.
pub open spec fn event_view(event: Event) -> EventView {
    match event {
        DispatchEvent::Started => DispatchEvent::Started,
        DispatchEvent::Input(Some(bytes)) => DispatchEvent::Input(Some(bytes@)),
        DispatchEvent::Input(None) => DispatchEvent::Input(None),
        DispatchEvent::Database(ok) => DispatchEvent::Database(ok),
        DispatchEvent::Gate(Some(env)) => DispatchEvent::Gate(Some(env@)),
        DispatchEvent::Gate(None) => DispatchEvent::Gate(None),
        DispatchEvent::Bound(instance) => DispatchEvent::Bound(text_of(instance)),
        DispatchEvent::Resolved(instance) => DispatchEvent::Resolved(text_of(instance)),
        DispatchEvent::Pending(messages) => DispatchEvent::Pending(text_of(messages)),
        DispatchEvent::Panicked => DispatchEvent::Panicked,
        DispatchEvent::Written(ok) => DispatchEvent::Written(ok),
        DispatchEvent::Flushed(ok) => DispatchEvent::Flushed(ok),
    }
}

/// What an action holds.
pub open spec fn action_view(action: DispatchAction<String>) -> DispatchAction<Seq<char>> {
    match action {
        DispatchAction::ReadInput => DispatchAction::ReadInput,
        DispatchAction::OpenDatabase => DispatchAction::OpenDatabase,
        DispatchAction::CheckGate => DispatchAction::CheckGate,
        DispatchAction::BindSession { session_id, process_id } => DispatchAction::BindSession {
            session_id: session_id@,
            process_id: process_id@,
        },
        DispatchAction::ResolveInstance { session_id, process_id } =>
        DispatchAction::ResolveInstance {
            session_id: text_of(session_id),
            process_id: text_of(process_id),
        },
        DispatchAction::PreparePending { instance } => DispatchAction::PreparePending {
            instance: instance@,
        },
        DispatchAction::WriteOutput { text } => DispatchAction::WriteOutput { text: text@ },
        DispatchAction::FlushOutput => DispatchAction::FlushOutput,
        DispatchAction::Exit { code } => DispatchAction::Exit { code },
    }
}

impl View for DispatchStep {
    type V = Progress;

    open spec fn view(&self) -> Progress {
        Progress {
            run: run_view(self.run),
            effects: effect_views(self.effects@),
            action: action_view(self.action),
        }
    }
}

/// The step to a run, with an action and without effects.
pub open spec fn goes_to(run: RunView, action: DispatchAction<Seq<char>>) -> Progress {
    Progress { run, effects: Seq::empty(), action }
}

/// The end of a run.
pub open spec fn ends() -> Progress {
    goes_to(HookRun::Ended, DispatchAction::Exit { code: 0 })
}

/// The step of a run that follows from a step of its hook.
pub open spec fn proceeds(payload: Payload, env: Surroundings, step: Step) -> Progress {
    let (run, action): (RunView, DispatchAction<Seq<char>>) = match step.next {
        HookNext::BindSession { session_id, process_id } => (
            HookRun::Binding { payload, env, session_id },
            DispatchAction::BindSession { session_id, process_id },
        ),
        HookNext::ResolveInstance { session_id, process_id } => (
            HookRun::Resolving { payload, env },
            DispatchAction::ResolveInstance { session_id, process_id },
        ),
        HookNext::PreparePending { instance } => (
            HookRun::Collecting { payload, env },
            DispatchAction::PreparePending { instance },
        ),
        HookNext::Answer { output, delivers } => (
            HookRun::Writing { delivers, guarded: true },
            DispatchAction::WriteOutput { text: compact_json(output) },
        ),
    };
    Progress { run, effects: step.effects, action }
}

/// The step of a run whose hook panicked: a tool may run all the same.
pub open spec fn recovers() -> Progress {
    goes_to(
        HookRun::Writing { delivers: false, guarded: false },
        DispatchAction::WriteOutput { text: compact_json(allow_answer()) },
    )
}

/// What a run does after an event. One that it did not ask for ends it.
pub open spec fn dispatch_next(run: RunView, event: EventView) -> Progress {
    match (run, event) {
        (HookRun::Fresh { hook_name }, DispatchEvent::Started) => goes_to(
            HookRun::Reading { hook_name },
            DispatchAction::ReadInput,
        ),
        (HookRun::Reading { hook_name }, DispatchEvent::Input(Some(bytes))) => match stream_reading(
            bytes,
        ) {
            Ok(raw) => goes_to(
                HookRun::Opening { payload: grok_payload(hook_name, raw) },
                DispatchAction::OpenDatabase,
            ),
            Err(message) => Progress {
                effects: seq![HookEffect::WarnOfInput { hook_name, message }],
                ..ends()
            },
        },
        (HookRun::Opening { payload }, DispatchEvent::Database(true)) => goes_to(
            HookRun::Gating { payload },
            DispatchAction::CheckGate,
        ),
        (HookRun::Gating { payload }, DispatchEvent::Gate(Some(env))) => proceeds(
            payload,
            env,
            first_step(payload, env),
        ),
        (HookRun::Binding { payload, env, session_id }, DispatchEvent::Bound(bound)) => proceeds(
            payload,
            env,
            step_after_bind(payload, env, session_id, bound),
        ),
        (HookRun::Resolving { payload, env }, DispatchEvent::Resolved(resolved)) => proceeds(
            payload,
            env,
            step_after_resolve(payload, env, resolved),
        ),
        (HookRun::Collecting { payload, env }, DispatchEvent::Pending(pending)) => proceeds(
            payload,
            env,
            step_after_pending(payload, pending),
        ),
        (HookRun::Binding { .. }, DispatchEvent::Panicked) => recovers(),
        (HookRun::Resolving { .. }, DispatchEvent::Panicked) => recovers(),
        (HookRun::Collecting { .. }, DispatchEvent::Panicked) => recovers(),
        (HookRun::Writing { guarded: true, .. }, DispatchEvent::Panicked) => recovers(),
        (HookRun::Writing { delivers, .. }, DispatchEvent::Written(true)) => goes_to(
            HookRun::Flushing { delivers },
            DispatchAction::FlushOutput,
        ),
        (HookRun::Flushing { delivers: true }, DispatchEvent::Flushed(true)) => Progress {
            effects: seq![HookEffect::CommitDelivery],
            ..ends()
        },
        _ => ends(),
    }
}

/// The answers that a hook can give.
pub open spec fn is_answer(output: Tree) -> bool {
    ||| output == empty_answer()
    ||| output == allow_answer()
    ||| exists|messages: Seq<char>| output == #[trigger] context_answer(messages)
}

/// Whether Grok reads one of the answers from a text.
pub open spec fn reads_as_answer(text: Seq<char>) -> bool {
    match parsed_json(text) {
        Some(output) => is_answer(output) && text == compact_json(output),
        None => false,
    }
}

proof fn lemma_answer_is_plain(output: Tree)
    requires
        is_answer(output),
    ensures
        is_plain(output),
{
    let levels = DEPTH_LIMIT as nat;
    let cond = whole_number();
    let members = output->Object_0;
    if output == allow_answer() {
        assert forall|key: Seq<char>| members.dom().contains(key) implies sound_within(
            #[trigger] members[key],
            (levels - 1) as nat, cond,
        ) by {
            assert(members[key] is Str);
        }
    } else if output != empty_answer() {
        let messages = choose|messages: Seq<char>| output == #[trigger] context_answer(messages);
        let inner = members["hookSpecificOutput"@]->Object_0;
        assert forall|key: Seq<char>| inner.dom().contains(key) implies sound_within(
            #[trigger] inner[key],
            (levels - 2) as nat, cond,
        ) by {
            assert(inner[key] is Str);
        }
        lemma_sound_members(inner, (levels - 1) as nat, cond);
        assert forall|key: Seq<char>| members.dom().contains(key) implies sound_within(
            #[trigger] members[key],
            (levels - 1) as nat, cond,
        ) by {
            assert(key == "hookSpecificOutput"@);
        }
    }
    lemma_sound_members(members, levels, cond);
}

/// Whatever a hook answers is one of the answers.
proof fn lemma_step_answers(step: Step, payload: Payload, env: Surroundings)
    requires
        ({
            ||| step == first_step(payload, env)
            ||| exists|session_id: Seq<char>, bound: Option<Seq<char>>|
                step == #[trigger] step_after_bind(payload, env, session_id, bound)
            ||| exists|resolved: Option<Seq<char>>|
                step == #[trigger] step_after_resolve(payload, env, resolved)
            ||| exists|pending: Option<Seq<char>>|
                step == #[trigger] step_after_pending(payload, pending)
        }),
    ensures
        match step.next {
            HookNext::Answer { output, .. } => is_answer(output),
            _ => true,
        },
{
    if exists|pending: Option<Seq<char>>|
        step == #[trigger] step_after_pending(payload, pending) {
        let pending = choose|pending: Option<Seq<char>>|
            step == #[trigger] step_after_pending(payload, pending);
        if let Some(messages) = pending {
            assert(is_answer(context_answer(messages)));
        }
    }
}

fn proceed(payload: HookPayload, env: HookEnv, step: HookStep) -> (progress: DispatchStep)
    requires
        match step@.next {
            HookNext::Answer { output, .. } => is_answer(output),
            _ => true,
        },
    ensures
        progress@ == proceeds(payload@, env@, step@),
        match progress@.action {
            DispatchAction::WriteOutput { text } => reads_as_answer(text),
            _ => true,
        },
{
    let HookStep { effects, next } = step;
    match next {
        HookNext::BindSession { session_id, process_id } => DispatchStep {
            run: HookRun::Binding { payload, env, session_id: session_id.clone() },
            effects,
            action: DispatchAction::BindSession { session_id, process_id },
        },
        HookNext::ResolveInstance { session_id, process_id } => DispatchStep {
            run: HookRun::Resolving { payload, env },
            effects,
            action: DispatchAction::ResolveInstance { session_id, process_id },
        },
        HookNext::PreparePending { instance } => DispatchStep {
            run: HookRun::Collecting { payload, env },
            effects,
            action: DispatchAction::PreparePending { instance },
        },
        HookNext::Answer { output, delivers } => {
            proof {
                lemma_answer_is_plain(output@);
            }
            match compact_text(output) {
                Ok(text) => DispatchStep {
                    run: HookRun::Writing { delivers, guarded: true },
                    effects,
                    action: DispatchAction::WriteOutput { text },
                },
                Err(_) => end_run(),
            }
        },
    }
}

fn go_to(run: Run, action: DispatchAction<String>) -> (progress: DispatchStep)
    ensures
        progress@ == goes_to(run_view(run), action_view(action)),
{
    let effects: Vec<Effect> = Vec::new();
    assert(effect_views(effects@) =~= Seq::<EffectView>::empty());
    DispatchStep { run, effects, action }
}

fn end_run() -> (progress: DispatchStep)
    ensures
        progress@ == ends(),
{
    go_to(HookRun::Ended, DispatchAction::Exit { code: 0 })
}

fn recover() -> (progress: DispatchStep)
    ensures
        progress@ == recovers(),
        match progress@.action {
            DispatchAction::WriteOutput { text } => reads_as_answer(text),
            _ => true,
        },
{
    proof {
        lemma_answer_is_plain(allow_answer());
    }
    match compact_text(allow_output()) {
        Ok(text) => go_to(
            HookRun::Writing { delivers: false, guarded: false },
            DispatchAction::WriteOutput { text },
        ),
        Err(_) => end_run(),
    }
}

/// One step of the run of a hook: what is to be done after what has happened. Whatever is
/// written is read by Grok as one of the answers.
pub fn dispatch_grok_hook(run: Run, event: Event) -> (step: DispatchStep)
    ensures
        step@ == dispatch_next(run_view(run), event_view(event)),
        match step@.action {
            DispatchAction::WriteOutput { text } => reads_as_answer(text),
            _ => true,
        },
{
    match (run, event) {
        (HookRun::Fresh { hook_name }, DispatchEvent::Started) => go_to(
            HookRun::Reading { hook_name },
            DispatchAction::ReadInput,
        ),
        (HookRun::Reading { hook_name }, DispatchEvent::Input(Some(bytes))) => match parse_stream(
            &bytes,
        ) {
            Ok(raw) => go_to(
                HookRun::Opening { payload: HookPayload::from_grok(hook_name.as_str(), raw) },
                DispatchAction::OpenDatabase,
            ),
            Err(error) => {
                let mut effects: Vec<Effect> = Vec::new();
                effects.push(HookEffect::WarnOfInput { hook_name, message: message_of(&error) });
                let progress = DispatchStep {
                    run: HookRun::Ended,
                    effects,
                    action: DispatchAction::Exit { code: 0 },
                };
                assert(progress@.effects =~= dispatch_next(run_view(run), event_view(event)).effects);
                progress
            },
        },
        (HookRun::Opening { payload }, DispatchEvent::Database(true)) => go_to(
            HookRun::Gating { payload },
            DispatchAction::CheckGate,
        ),
        (HookRun::Gating { payload }, DispatchEvent::Gate(Some(env))) => {
            let step = begin_hook(&payload, &env);
            proof {
                lemma_step_answers(step@, payload@, env@);
            }
            proceed(payload, env, step)
        },
        (HookRun::Binding { payload, env, session_id }, DispatchEvent::Bound(bound)) => {
            let step = after_bind(&payload, &env, session_id, bound);
            proof {
                lemma_step_answers(step@, payload@, env@);
            }
            proceed(payload, env, step)
        },
        (HookRun::Resolving { payload, env }, DispatchEvent::Resolved(resolved)) => {
            let step = after_resolve(&payload, &env, resolved);
            proof {
                lemma_step_answers(step@, payload@, env@);
            }
            proceed(payload, env, step)
        },
        (HookRun::Collecting { payload, env }, DispatchEvent::Pending(pending)) => {
            let step = after_pending(&payload, pending);
            proof {
                lemma_step_answers(step@, payload@, env@);
            }
            proceed(payload, env, step)
        },
        (HookRun::Binding { .. }, DispatchEvent::Panicked) => recover(),
        (HookRun::Resolving { .. }, DispatchEvent::Panicked) => recover(),
        (HookRun::Collecting { .. }, DispatchEvent::Panicked) => recover(),
        (HookRun::Writing { guarded: true, .. }, DispatchEvent::Panicked) => recover(),
        (HookRun::Writing { delivers, .. }, DispatchEvent::Written(true)) => go_to(
            HookRun::Flushing { delivers },
            DispatchAction::FlushOutput,
        ),
        (HookRun::Flushing { delivers: true }, DispatchEvent::Flushed(true)) => {
            let mut effects: Vec<Effect> = Vec::new();
            effects.push(HookEffect::CommitDelivery);
            assert(effect_views(effects@) =~= seq![HookEffect::CommitDelivery]);
            DispatchStep {
                run: HookRun::Ended,
                effects,
                action: DispatchAction::Exit { code: 0 },
            }
        },
        _ => end_run(),
    }
}

} // verus!
