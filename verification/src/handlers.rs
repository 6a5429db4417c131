//! What each hook does: which questions it asks of the message bus, which effects it has, and
//! what it answers Grok.
//!
//! Grok discards the answer of most hooks. Messages are handed over at the end of a turn only,
//! in `hookSpecificOutput.additionalContext`.
use crate::json::{Json, JsonObject, Members, Tree};
use crate::payload::{
    end_reason_of, ends_turn, is_genuine_end_turn_stop, is_trigger, payload_is_trigger,
    position_of, prompt_of, resolve_session_id, session_end_reason, session_of, stop_reason_of,
    update_position, HookEnv, HookPayload, Payload, Surroundings,
};
use crate::text::{same_text, text_of};
use vstd::prelude::*;

verus! {

/// The hooks of Grok. A subagent that stops is treated as a turn that stops.
#[derive(Debug, Clone, Copy, PartialEq, Eq, Structural)]
pub enum HookKind {
    SessionStart,
    UserPromptSubmit,
    PreToolUse,
    PostToolUse,
    Stop,
    SubagentStart,
    SessionEnd,
    /// A subcommand that is no hook of Grok.
    Unknown,
}

/// The hook that a subcommand calls.
pub open spec fn kind_of(hook_name: Seq<char>) -> HookKind {
    if hook_name == "grok-sessionstart"@ {
        HookKind::SessionStart
    } else if hook_name == "grok-userpromptsubmit"@ {
        HookKind::UserPromptSubmit
    } else if hook_name == "grok-pretooluse"@ {
        HookKind::PreToolUse
    } else if hook_name == "grok-posttooluse"@ {
        HookKind::PostToolUse
    } else if hook_name == "grok-stop"@ || hook_name == "grok-subagentstop"@ {
        HookKind::Stop
    } else if hook_name == "grok-subagentstart"@ {
        HookKind::SubagentStart
    } else if hook_name == "grok-sessionend"@ {
        HookKind::SessionEnd
    } else {
        HookKind::Unknown
    }
}

/// The hook that a subcommand calls.
pub fn hook_kind(hook_name: &str) -> (kind: HookKind)
    ensures
        kind == kind_of(hook_name@),
{
    if same_text(hook_name, "grok-sessionstart") {
        HookKind::SessionStart
    } else if same_text(hook_name, "grok-userpromptsubmit") {
        HookKind::UserPromptSubmit
    } else if same_text(hook_name, "grok-pretooluse") {
        HookKind::PreToolUse
    } else if same_text(hook_name, "grok-posttooluse") {
        HookKind::PostToolUse
    } else if same_text(hook_name, "grok-stop") || same_text(hook_name, "grok-subagentstop") {
        HookKind::Stop
    } else if same_text(hook_name, "grok-subagentstart") {
        HookKind::SubagentStart
    } else if same_text(hook_name, "grok-sessionend") {
        HookKind::SessionEnd
    } else {
        HookKind::Unknown
    }
}

/// What an instance is doing.
#[derive(Debug, Clone, Copy, PartialEq, Eq, Structural)]
pub enum InstanceStatus {
    Active,
    Listening,
}

/// Something that a hook does. `S` is a text, `O` the members of an object, `J` a JSON value.
#[derive(Debug)]
pub enum HookEffect<S, O, J> {
    /// Tie the instance to the session.
    RebindSession { instance: S, session_id: S },
    /// Keep what is known of how the instance was launched.
    CaptureLaunchContext { instance: S },
    /// Keep where the instance stands.
    UpdatePosition { instance: S, updates: O },
    /// Keep what the instance is doing.
    SetStatus { instance: S, status: InstanceStatus, context: S },
    /// Show the instance in the title of the terminal.
    SetTerminalTitle { instance: S },
    /// See to it that the worker of the relay runs.
    EnsureWorker,
    /// Wake those that wait for the instance.
    Notify { instance: S },
    /// Keep which tool the instance uses.
    UpdateToolStatus { instance: S, tool: S, tool_name: S, tool_input: J },
    /// Close the session of the instance.
    FinalizeSession { instance: S, reason: S },
    /// Mark the messages that were handed over as delivered.
    CommitDelivery,
    /// Tell the log that what Grok handed in is no JSON, and why.
    WarnOfInput { hook_name: S, message: S },
}

/// What a hook does next: a question to the message bus, or its answer to Grok.
#[allow(inconsistent_fields)]
#[derive(Debug)]
pub enum HookNext<S, J> {
    /// Bind the session to the process; the reply is the instance that it belongs to.
    BindSession { session_id: S, process_id: S },
    /// Find the instance that the session or the process belongs to.
    ResolveInstance { session_id: Option<S>, process_id: Option<S> },
    /// Collect the messages that wait for the instance; the reply is their text.
    PreparePending { instance: S },
    /// Answer Grok. Where `delivers` is true, the answer holds the messages that wait.
    Answer { output: J, delivers: bool },
}

/// An effect of a hook.
pub type Effect = HookEffect<String, JsonObject, Json>;

/// An effect of a hook as a mathematical value.
pub type EffectView = HookEffect<Seq<char>, Members, Tree>;

/// What a hook does next.
pub type Next = HookNext<String, Json>;

/// What a hook does next, as a mathematical value.
pub type NextView = HookNext<Seq<char>, Tree>;

/// One step of a hook: what it does, in this order, and what it does next.
#[derive(Debug)]
pub struct HookStep {
    pub effects: Vec<Effect>,
    pub next: Next,
}

/// A step of a hook as a mathematical value.
pub struct Step {
    pub effects: Seq<EffectView>,
    pub next: NextView,
}

/// What an effect holds.
pub open spec fn effect_view(effect: Effect) -> EffectView {
    match effect {
        HookEffect::RebindSession { instance, session_id } => HookEffect::RebindSession {
            instance: instance@,
            session_id: session_id@,
        },
        HookEffect::CaptureLaunchContext { instance } => HookEffect::CaptureLaunchContext {
            instance: instance@,
        },
        HookEffect::UpdatePosition { instance, updates } => HookEffect::UpdatePosition {
            instance: instance@,
            updates: updates@,
        },
        HookEffect::SetStatus { instance, status, context } => HookEffect::SetStatus {
            instance: instance@,
            status,
            context: context@,
        },
        HookEffect::SetTerminalTitle { instance } => HookEffect::SetTerminalTitle {
            instance: instance@,
        },
        HookEffect::EnsureWorker => HookEffect::EnsureWorker,
        HookEffect::Notify { instance } => HookEffect::Notify { instance: instance@ },
        HookEffect::UpdateToolStatus { instance, tool, tool_name, tool_input } =>
        HookEffect::UpdateToolStatus {
            instance: instance@,
            tool: tool@,
            tool_name: tool_name@,
            tool_input: tool_input@,
        },
        HookEffect::FinalizeSession { instance, reason } => HookEffect::FinalizeSession {
            instance: instance@,
            reason: reason@,
        },
        HookEffect::CommitDelivery => HookEffect::CommitDelivery,
        HookEffect::WarnOfInput { hook_name, message } => HookEffect::WarnOfInput {
            hook_name: hook_name@,
            message: message@,
        },
    }
}

/// What the effects of a sequence hold.
pub open spec fn effect_views(effects: Seq<Effect>) -> Seq<EffectView> {
    effects.map_values(|effect: Effect| effect_view(effect))
}

/// What the next move of a hook holds.
pub open spec fn next_view(next: Next) -> NextView {
    match next {
        HookNext::BindSession { session_id, process_id } => HookNext::BindSession {
            session_id: session_id@,
            process_id: process_id@,
        },
        HookNext::ResolveInstance { session_id, process_id } => HookNext::ResolveInstance {
            session_id: text_of(session_id),
            process_id: text_of(process_id),
        },
        HookNext::PreparePending { instance } => HookNext::PreparePending { instance: instance@ },
        HookNext::Answer { output, delivers } => HookNext::Answer { output: output@, delivers },
    }
}

impl View for HookStep {
    type V = Step;

    open spec fn view(&self) -> Step {
        Step { effects: effect_views(self.effects@), next: next_view(self.next) }
    }
}

/// The answer that says nothing.
pub open spec fn empty_answer() -> Tree {
    Tree::Object(Map::empty())
}

/// The answer that lets a tool run.
pub open spec fn allow_answer() -> Tree {
    Tree::Object(map!["decision"@ => Tree::Str("allow"@)])
}

/// The answer that hands messages to the model.
pub open spec fn context_answer(messages: Seq<char>) -> Tree {
    Tree::Object(
        map![
            "hookSpecificOutput"@ => Tree::Object(
                map![
                    "additionalContext"@ => Tree::Str(messages),
                    "additional_context"@ => Tree::Str(messages),
                ],
            ),
        ],
    )
}

/// A step that answers without handing over messages.
pub open spec fn quiet(effects: Seq<EffectView>, output: Tree) -> Step {
    Step { effects, next: HookNext::Answer { output, delivers: false } }
}

/// A step that asks for the instance.
pub open spec fn asks_instance(payload: Payload, env: Surroundings) -> Step {
    Step {
        effects: Seq::empty(),
        next: HookNext::ResolveInstance {
            session_id: session_of(payload, env),
            process_id: env.process_id,
        },
    }
}

/// How a hook begins. The start of a session binds the session to the process; every other hook
/// asks for the instance.
pub open spec fn first_step(payload: Payload, env: Surroundings) -> Step {
    match kind_of(payload.hook_name) {
        HookKind::Unknown => quiet(Seq::empty(), empty_answer()),
        HookKind::SessionStart => match session_of(payload, env) {
            None => quiet(Seq::empty(), empty_answer()),
            Some(session_id) => match env.process_id {
                Some(process_id) => Step {
                    effects: Seq::empty(),
                    next: HookNext::BindSession { session_id, process_id },
                },
                None => asks_instance(payload, env),
            },
        },
        _ => asks_instance(payload, env),
    }
}

/// How a session starts for an instance.
pub open spec fn session_started(
    payload: Payload,
    env: Surroundings,
    session_id: Seq<char>,
    instance: Seq<char>,
) -> Step {
    quiet(
        seq![
            HookEffect::RebindSession { instance, session_id },
            HookEffect::CaptureLaunchContext { instance },
            position_effect(payload, env, instance),
            HookEffect::SetStatus {
                instance,
                status: InstanceStatus::Listening,
                context: "start"@,
            },
            HookEffect::SetTerminalTitle { instance },
            HookEffect::EnsureWorker,
            HookEffect::Notify { instance },
        ],
        empty_answer(),
    )
}

/// What follows the attempt to bind a session to the process. Where it gave no instance, the
/// hook asks for one.
pub open spec fn step_after_bind(
    payload: Payload,
    env: Surroundings,
    session_id: Seq<char>,
    bound: Option<Seq<char>>,
) -> Step {
    match bound {
        Some(instance) => session_started(payload, env, session_id, instance),
        None => asks_instance(payload, env),
    }
}

/// What a prompt is kept as.
pub open spec fn prompt_context(raw: Tree) -> Seq<char> {
    if is_trigger(prompt_of(raw)) {
        "trigger"@
    } else {
        "prompt"@
    }
}

/// What every hook does for the instance that was found: it keeps where that stands.
pub open spec fn position_effect(
    payload: Payload,
    env: Surroundings,
    instance: Seq<char>,
) -> EffectView {
    HookEffect::UpdatePosition { instance, updates: position_of(payload, env) }
}

/// What is done when a prompt was submitted to an instance.
pub open spec fn user_prompt_step(payload: Payload, env: Surroundings, instance: Seq<char>) -> Step {
    quiet(
        seq![
            position_effect(payload, env, instance),
            HookEffect::SetStatus {
                instance,
                status: InstanceStatus::Active,
                context: prompt_context(payload.raw),
            },
        ],
        empty_answer(),
    )
}

/// What is done when an instance is about to use a tool, which it always may.
pub open spec fn pre_tool_step(payload: Payload, env: Surroundings, instance: Seq<char>) -> Step {
    quiet(
        seq![
            position_effect(payload, env, instance),
            HookEffect::UpdateToolStatus {
                instance,
                tool: "grok"@,
                tool_name: payload.tool_name,
                tool_input: payload.tool_input,
            },
        ],
        allow_answer(),
    )
}

/// What is done when an instance has used a tool.
pub open spec fn post_tool_step(payload: Payload, env: Surroundings, instance: Seq<char>) -> Step {
    quiet(seq![position_effect(payload, env, instance)], empty_answer())
}

/// What is done when the turn of an instance stopped. At its end the hook asks for the messages
/// that wait.
pub open spec fn stop_step(payload: Payload, env: Surroundings, instance: Seq<char>) -> Step {
    let effects = seq![
        position_effect(payload, env, instance),
        HookEffect::SetStatus {
            instance,
            status: InstanceStatus::Listening,
            context: Seq::empty(),
        },
        HookEffect::Notify { instance },
    ];
    if ends_turn(stop_reason_of(payload.raw)) {
        Step { effects, next: HookNext::PreparePending { instance } }
    } else {
        quiet(effects, empty_answer())
    }
}

/// What is done when a subagent of an instance started.
pub open spec fn subagent_start_step(
    payload: Payload,
    env: Surroundings,
    instance: Seq<char>,
) -> Step {
    quiet(
        seq![
            position_effect(payload, env, instance),
            HookEffect::SetStatus {
                instance,
                status: InstanceStatus::Listening,
                context: "subagent-start"@,
            },
            HookEffect::Notify { instance },
        ],
        empty_answer(),
    )
}

/// What is done when the session of an instance ended.
pub open spec fn session_end_step(payload: Payload, env: Surroundings, instance: Seq<char>) -> Step {
    quiet(
        seq![
            position_effect(payload, env, instance),
            HookEffect::FinalizeSession { instance, reason: end_reason_of(payload.raw) },
        ],
        empty_answer(),
    )
}

/// What a hook does for an instance.
pub open spec fn step_for_instance(
    payload: Payload,
    env: Surroundings,
    instance: Seq<char>,
) -> Step {
    match kind_of(payload.hook_name) {
        HookKind::SessionStart => match session_of(payload, env) {
            Some(session_id) => session_started(payload, env, session_id, instance),
            None => quiet(Seq::empty(), empty_answer()),
        },
        HookKind::UserPromptSubmit => user_prompt_step(payload, env, instance),
        HookKind::PreToolUse => pre_tool_step(payload, env, instance),
        HookKind::PostToolUse => post_tool_step(payload, env, instance),
        HookKind::Stop => stop_step(payload, env, instance),
        HookKind::SubagentStart => subagent_start_step(payload, env, instance),
        HookKind::SessionEnd => session_end_step(payload, env, instance),
        HookKind::Unknown => quiet(Seq::empty(), empty_answer()),
    }
}

/// What a hook answers where there is no instance: a tool may run all the same.
pub open spec fn step_without_instance(payload: Payload) -> Step {
    if kind_of(payload.hook_name) == HookKind::PreToolUse {
        quiet(Seq::empty(), allow_answer())
    } else {
        quiet(Seq::empty(), empty_answer())
    }
}

/// What follows the question for the instance.
pub open spec fn step_after_resolve(
    payload: Payload,
    env: Surroundings,
    resolved: Option<Seq<char>>,
) -> Step {
    match resolved {
        Some(instance) => step_for_instance(payload, env, instance),
        None => step_without_instance(payload),
    }
}

/// What follows the question for the messages that wait. They are handed over at the end of a
/// turn, and never otherwise.
pub open spec fn step_after_pending(payload: Payload, pending: Option<Seq<char>>) -> Step {
    match pending {
        Some(messages) => if kind_of(payload.hook_name) == HookKind::Stop && ends_turn(
            stop_reason_of(payload.raw),
        ) {
            Step {
                effects: Seq::empty(),
                next: HookNext::Answer { output: context_answer(messages), delivers: true },
            }
        } else {
            quiet(Seq::empty(), empty_answer())
        },
        None => quiet(Seq::empty(), empty_answer()),
    }
}

fn empty_output() -> (output: Json)
    ensures
        output@ == empty_answer(),
{
    Json::Object(JsonObject::new())
}

/// The answer that lets a tool run.
pub fn allow_output() -> (output: Json)
    ensures
        output@ == allow_answer(),
{
    let mut object = JsonObject::new();
    object.insert("decision", Json::string("allow"));
    Json::Object(object)
}

fn context_output(messages: &str) -> (output: Json)
    ensures
        output@ == context_answer(messages@),
{
    let mut context = JsonObject::new();
    context.insert("additionalContext", Json::string(messages));
    context.insert("additional_context", Json::string(messages));
    let mut object = JsonObject::new();
    object.insert("hookSpecificOutput", Json::Object(context));
    Json::Object(object)
}

fn answer(effects: Vec<Effect>, output: Json) -> (step: HookStep)
    ensures
        step@ == quiet(effect_views(effects@), output@),
{
    HookStep { effects, next: HookNext::Answer { output, delivers: false } }
}

fn answer_only(output: Json) -> (step: HookStep)
    ensures
        step@ == quiet(Seq::empty(), output@),
{
    let effects: Vec<Effect> = Vec::new();
    assert(effect_views(effects@) =~= Seq::<EffectView>::empty());
    answer(effects, output)
}

/// Asks for the instance that a payload belongs to.
pub fn resolve_instance(payload: &HookPayload, env: &HookEnv) -> (step: HookStep)
    ensures
        step@ == asks_instance(payload@, env@),
{
    let process_id = match &env.process_id {
        Some(process_id) => Some(process_id.clone()),
        None => None,
    };
    let next = HookNext::ResolveInstance {
        session_id: resolve_session_id(payload, env),
        process_id,
    };
    let effects: Vec<Effect> = Vec::new();
    assert(effect_views(effects@) =~= Seq::<EffectView>::empty());
    HookStep { effects, next }
}

/// The effect that every hook has for the instance that was found: it keeps where that stands.
pub fn resolved_instance(payload: &HookPayload, env: &HookEnv, instance: &String) -> (effects: Vec<
    Effect,
>)
    ensures
        effect_views(effects@) == seq![position_effect(payload@, env@, instance@)],
        effects@.len() == 1,
        effect_view(effects@[0]) == position_effect(payload@, env@, instance@),
{
    let mut effects: Vec<Effect> = Vec::new();
    effects.push(
        HookEffect::UpdatePosition {
            instance: instance.clone(),
            updates: update_position(payload, env),
        },
    );
    assert(effect_views(effects@) =~= seq![position_effect(payload@, env@, instance@)]);
    effects
}

/// Starts a hook.
pub fn begin_hook(payload: &HookPayload, env: &HookEnv) -> (step: HookStep)
    ensures
        step@ == first_step(payload@, env@),
{
    match hook_kind(payload.hook_name.as_str()) {
        HookKind::Unknown => answer_only(empty_output()),
        HookKind::SessionStart => match resolve_session_id(payload, env) {
            None => answer_only(empty_output()),
            Some(session_id) => match &env.process_id {
                Some(process_id) => {
                    let effects: Vec<Effect> = Vec::new();
                    assert(effect_views(effects@) =~= Seq::<EffectView>::empty());
                    HookStep {
                        effects,
                        next: HookNext::BindSession { session_id, process_id: process_id.clone() },
                    }
                },
                None => resolve_instance(payload, env),
            },
        },
        _ => resolve_instance(payload, env),
    }
}

/// Starts a session for an instance.
pub fn handle_sessionstart(
    payload: &HookPayload,
    env: &HookEnv,
    session_id: String,
    instance: String,
) -> (step: HookStep)
    ensures
        step@ == session_started(payload@, env@, session_id@, instance@),
{
    let mut effects: Vec<Effect> = Vec::new();
    effects.push(HookEffect::RebindSession { instance: instance.clone(), session_id });
    effects.push(HookEffect::CaptureLaunchContext { instance: instance.clone() });
    effects.push(
        HookEffect::UpdatePosition {
            instance: instance.clone(),
            updates: update_position(payload, env),
        },
    );
    effects.push(
        HookEffect::SetStatus {
            instance: instance.clone(),
            status: InstanceStatus::Listening,
            context: "start".to_owned(),
        },
    );
    effects.push(HookEffect::SetTerminalTitle { instance: instance.clone() });
    effects.push(HookEffect::EnsureWorker);
    effects.push(HookEffect::Notify { instance: instance });
    let step = answer(effects, empty_output());
    assert(step@.effects =~= session_started(payload@, env@, session_id@, instance@).effects);
    step
}

/// Goes on after the attempt to bind a session to the process.
pub fn after_bind(
    payload: &HookPayload,
    env: &HookEnv,
    session_id: String,
    bound: Option<String>,
) -> (step: HookStep)
    ensures
        step@ == step_after_bind(payload@, env@, session_id@, text_of(bound)),
{
    match bound {
        Some(instance) => handle_sessionstart(payload, env, session_id, instance),
        None => resolve_instance(payload, env),
    }
}

/// A prompt was submitted to an instance.
pub fn handle_userpromptsubmit(payload: &HookPayload, env: &HookEnv, instance: String) -> (step:
    HookStep)
    ensures
        step@ == user_prompt_step(payload@, env@, instance@),
{
    let mut effects = resolved_instance(payload, env, &instance);
    let context = if payload_is_trigger(payload) {
        "trigger".to_owned()
    } else {
        "prompt".to_owned()
    };
    effects.push(HookEffect::SetStatus { instance, status: InstanceStatus::Active, context });
    let step = answer(effects, empty_output());
    assert(step@.effects =~= user_prompt_step(payload@, env@, instance@).effects);
    step
}

/// An instance is about to use a tool, which it always may.
pub fn handle_pretooluse(payload: &HookPayload, env: &HookEnv, instance: String) -> (step: HookStep)
    ensures
        step@ == pre_tool_step(payload@, env@, instance@),
{
    let mut effects = resolved_instance(payload, env, &instance);
    effects.push(
        HookEffect::UpdateToolStatus {
            instance,
            tool: "grok".to_owned(),
            tool_name: payload.tool_name.clone(),
            tool_input: payload.tool_input.clone(),
        },
    );
    let step = answer(effects, allow_output());
    assert(step@.effects =~= pre_tool_step(payload@, env@, instance@).effects);
    step
}

/// An instance has used a tool.
pub fn handle_posttooluse(payload: &HookPayload, env: &HookEnv, instance: String) -> (step:
    HookStep)
    ensures
        step@ == post_tool_step(payload@, env@, instance@),
{
    answer(resolved_instance(payload, env, &instance), empty_output())
}

/// The turn of an instance stopped. At its end the hook asks for the messages that wait.
pub fn handle_stop(payload: &HookPayload, env: &HookEnv, instance: String) -> (step: HookStep)
    ensures
        step@ == stop_step(payload@, env@, instance@),
{
    let mut effects = resolved_instance(payload, env, &instance);
    effects.push(
        HookEffect::SetStatus {
            instance: instance.clone(),
            status: InstanceStatus::Listening,
            context: String::new(),
        },
    );
    effects.push(HookEffect::Notify { instance: instance.clone() });
    assert(effect_views(effects@) =~= stop_step(payload@, env@, instance@).effects);
    if is_genuine_end_turn_stop(payload) {
        HookStep { effects, next: HookNext::PreparePending { instance } }
    } else {
        answer(effects, empty_output())
    }
}

/// A subagent of an instance started.
pub fn handle_subagentstart(payload: &HookPayload, env: &HookEnv, instance: String) -> (step:
    HookStep)
    ensures
        step@ == subagent_start_step(payload@, env@, instance@),
{
    let mut effects = resolved_instance(payload, env, &instance);
    effects.push(
        HookEffect::SetStatus {
            instance: instance.clone(),
            status: InstanceStatus::Listening,
            context: "subagent-start".to_owned(),
        },
    );
    effects.push(HookEffect::Notify { instance: instance });
    let step = answer(effects, empty_output());
    assert(step@.effects =~= subagent_start_step(payload@, env@, instance@).effects);
    step
}

/// The session of an instance ended.
pub fn handle_sessionend(payload: &HookPayload, env: &HookEnv, instance: String) -> (step: HookStep)
    ensures
        step@ == session_end_step(payload@, env@, instance@),
{
    let mut effects = resolved_instance(payload, env, &instance);
    effects.push(HookEffect::FinalizeSession { instance, reason: session_end_reason(payload) });
    let step = answer(effects, empty_output());
    assert(step@.effects =~= session_end_step(payload@, env@, instance@).effects);
    step
}

/// Goes on after the question for the instance.
pub fn after_resolve(payload: &HookPayload, env: &HookEnv, resolved: Option<String>) -> (step:
    HookStep)
    ensures
        step@ == step_after_resolve(payload@, env@, text_of(resolved)),
{
    let kind = hook_kind(payload.hook_name.as_str());
    let instance = match resolved {
        Some(instance) => instance,
        None => {
            return if kind == HookKind::PreToolUse {
                answer_only(allow_output())
            } else {
                answer_only(empty_output())
            };
        },
    };
    match kind {
        HookKind::SessionStart => match resolve_session_id(payload, env) {
            Some(session_id) => handle_sessionstart(payload, env, session_id, instance),
            None => answer_only(empty_output()),
        },
        HookKind::UserPromptSubmit => handle_userpromptsubmit(payload, env, instance),
        HookKind::PreToolUse => handle_pretooluse(payload, env, instance),
        HookKind::PostToolUse => handle_posttooluse(payload, env, instance),
        HookKind::Stop => handle_stop(payload, env, instance),
        HookKind::SubagentStart => handle_subagentstart(payload, env, instance),
        HookKind::SessionEnd => handle_sessionend(payload, env, instance),
        HookKind::Unknown => answer_only(empty_output()),
    }
}

/// Goes on after the question for the messages that wait.
pub fn after_pending(payload: &HookPayload, pending: Option<String>) -> (step: HookStep)
    ensures
        step@ == step_after_pending(payload@, text_of(pending)),
{
    match pending {
        Some(messages) => if hook_kind(payload.hook_name.as_str()) == HookKind::Stop
            && is_genuine_end_turn_stop(payload) {
            let effects: Vec<Effect> = Vec::new();
            assert(effect_views(effects@) =~= Seq::<EffectView>::empty());
            HookStep {
                effects,
                next: HookNext::Answer {
                    output: context_output(messages.as_str()),
                    delivers: true,
                },
            }
        } else {
            answer_only(empty_output())
        },
        None => answer_only(empty_output()),
    }
}

} // verus!
