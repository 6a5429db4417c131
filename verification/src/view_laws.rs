//! The mathematical values show what the values hold, field by field and variant by variant: none
//! is left out, changed or put in the place of another.
use crate::dispatch::{
    action_view, event_view, run_view, DispatchAction, DispatchEvent, DispatchStep, Event, HookRun,
    Run,
};
use crate::handlers::{
    effect_view, effect_views, next_view, Effect, HookEffect, HookNext, HookStep, Next,
};
use crate::json::{lemma_array_tree, number_value, pairs_of, trees, Json, JsonObject, Tree};
use crate::paths::{locations, places, FilePath, PathRoot, ResolvedPath};
use crate::payload::{HookEnv, HookPayload};
use crate::setup::{
    file_view, remove_action_view, remove_event_view, removal_view, setup_action_view,
    setup_event_view, ExistingFile, Failure, FileState, Removal, RemoveAction, RemoveEvent,
    SetupAction, SetupError, SetupEvent,
};
use crate::text::{str_of, text_of, texts};
use crate::wire::error_message;
use vstd::prelude::*;

verus! {

/// Whether an optional text shows an optional string.
pub open spec fn shows(text: Option<Seq<char>>, string: Option<String>) -> bool {
    match (text, string) {
        (Some(t), Some(s)) => t == s@,
        (None, None) => true,
        _ => false,
    }
}

/// Optional strings and lists of strings are shown by their texts.
pub proof fn texts_show_strings(string: String, some: Option<String>, list: Seq<String>, i: int)
    ensures
        shows(text_of(some), some),
        str_of(None) is None,
        texts(list).len() == list.len(),
        0 <= i < list.len() ==> texts(list)[i] == list[i]@,
{
}

/// A string slice is shown by its text.
pub proof fn a_text_shows_a_slice(slice: &str)
    ensures
        str_of(Some(slice)) == Some(slice@),
{
}

/// A JSON value is shown by the tree of the same form.
pub proof fn trees_show_values(
    b: bool,
    n: serde_json::Number,
    s: String,
    elements: Vec<Json>,
    object: JsonObject,
    i: int,
)
    ensures
        Json::Null@ == Tree::Null,
        Json::Bool(b)@ == Tree::Bool(b),
        Json::Number(n)@ == Tree::Number(number_value(n)),
        Json::Str(s)@ == Tree::Str(s@),
        Json::Object(object)@ == Tree::Object(object@),
        Json::Array(elements)@ matches Tree::Array(shown) && shown.len() == elements@.len() && (0
            <= i < shown.len() ==> shown[i] == elements@[i]@),
{
    lemma_array_tree(elements);
}

/// Lists of values and of entries are shown by their trees.
pub proof fn lists_show_values(values: Seq<Json>, entries: Seq<(String, Json)>, i: int)
    ensures
        trees(values).len() == values.len(),
        0 <= i < values.len() ==> trees(values)[i] == values[i]@,
        pairs_of(entries).len() == entries.len(),
        0 <= i < entries.len() ==> pairs_of(entries)[i].0 == entries[i].0@ && pairs_of(
            entries,
        )[i].1 == entries[i].1@,
{
}

/// A path is shown by its root and its names.
pub proof fn places_show_paths(path: FilePath, paths: Seq<FilePath>, i: int)
    ensures
        path@.parts == texts(path.parts@),
        match path.root {
            PathRoot::Given(text) => path@.root == PathRoot::Given(text@),
            PathRoot::ToolConfigRoot => path@.root is ToolConfigRoot,
            PathRoot::UserHome => path@.root is UserHome,
            PathRoot::Nowhere => path@.root is Nowhere,
        },
        places(paths).len() == paths.len(),
        0 <= i < paths.len() ==> places(paths)[i] == paths[i]@,
{
}

/// A resolved path is shown by its components and by whether it is absolute.
pub proof fn locations_show_paths(path: ResolvedPath, paths: Seq<ResolvedPath>, i: int)
    ensures
        path@.absolute == path.absolute,
        path@.components == texts(path.components@),
        locations(paths).len() == paths.len(),
        0 <= i < paths.len() ==> locations(paths)[i] == paths[i]@,
{
}

/// The surroundings of a hook and its payload are shown field by field.
pub proof fn payloads_are_shown(env: HookEnv, payload: HookPayload)
    ensures
        shows(env@.session_id, env.session_id),
        shows(env@.process_id, env.process_id),
        shows(env@.cwd, env.cwd),
        payload@.hook_name == payload.hook_name@,
        payload@.tool == payload.tool@,
        shows(payload@.session_id, payload.session_id),
        shows(payload@.transcript_path, payload.transcript_path),
        payload@.tool_name == payload.tool_name@,
        payload@.tool_input == payload.tool_input@,
        payload@.raw == payload.raw@,
{
}

/// A setup error is shown by the failure of the same form.
pub proof fn failures_show_errors(error: SetupError)
    ensures
        match error {
            SetupError::ExistingReadFailed { path, source } => error@
                == (Failure::ExistingReadFailed { path: path@, source: source@ }),
            SetupError::ExistingParseFailed { path, source } => error@
                == (Failure::ExistingParseFailed { path: path@, source: error_message(source) }),
            SetupError::ExistingRootNotObject { path } => error@
                == (Failure::ExistingRootNotObject { path: path@ }),
            SetupError::DirCreateFailed { path, source } => error@ == (Failure::DirCreateFailed {
                path: path@,
                source: source@,
            }),
            SetupError::SerializationFailed(source) => error@ == (Failure::SerializationFailed {
                source: error_message(source),
            }),
            SetupError::AtomicWriteFailed { path, source } => error@
                == (Failure::AtomicWriteFailed { path: path@, source: source@ }),
            SetupError::PostWriteVerifyFailed(path) => error@
                == (Failure::PostWriteVerifyFailed { path: path@ }),
        },
{
}

/// The states of a file and the events of an installation are shown by those of the same form.
pub proof fn setup_events_are_shown(text: String, file: ExistingFile, content: Option<String>)
    ensures
        file_view(FileState::Missing) is Missing,
        file_view(FileState::Unreadable(text)) == FileState::Unreadable(text@),
        file_view(FileState::Text(text)) == FileState::Text(text@),
        setup_event_view(SetupEvent::Started) is Started,
        setup_event_view(SetupEvent::Found(file)) == SetupEvent::Found(file_view(file)),
        setup_event_view(SetupEvent::DirFailed(text)) == SetupEvent::DirFailed(text@),
        setup_event_view(SetupEvent::WriteFailed(text)) == SetupEvent::WriteFailed(text@),
        setup_event_view(SetupEvent::Written) is Written,
        setup_event_view(SetupEvent::ReadBack(content)) matches SetupEvent::ReadBack(shown)
            && shows(shown, content),
{
}

/// The actions of an installation are shown by those of the same form.
pub proof fn setup_actions_are_shown(
    dir: FilePath,
    path: FilePath,
    text: String,
    error: SetupError,
)
    ensures
        setup_action_view(SetupAction::Read { path }) == (SetupAction::<_, Seq<char>, Failure>::Read {
            path: path@,
        }),
        setup_action_view(SetupAction::Write { dir, path, text }) == (SetupAction::<
            _,
            _,
            Failure,
        >::Write { dir: dir@, path: path@, text: text@ }),
        setup_action_view(SetupAction::ReadBack { path }) == (SetupAction::<
            _,
            Seq<char>,
            Failure,
        >::ReadBack { path: path@ }),
        setup_action_view(SetupAction::Finish(Ok(()))) matches SetupAction::Finish(Ok(_)),
        setup_action_view(SetupAction::Finish(Err(error))) matches SetupAction::Finish(Err(shown))
            && shown == error@,
{
}

/// What a removal decides, its events and its actions are shown by those of the same form.
pub proof fn removals_are_shown(text: String, index: usize, file: ExistingFile, ok: bool)
    ensures
        removal_view(Removal::AlreadyGone) is AlreadyGone,
        removal_view(Removal::Rewrite(text)) == Removal::Rewrite(text@),
        removal_view(Removal::Refused) is Refused,
        remove_event_view(RemoveEvent::Started) is Started,
        remove_event_view(RemoveEvent::Found { index, file }) == (RemoveEvent::Found {
            index,
            file: file_view(file),
        }),
        remove_event_view(RemoveEvent::Written { index, ok }) == (RemoveEvent::<
            Seq<char>,
        >::Written { index, ok }),
        remove_action_view(RemoveAction::Read { index }) == (RemoveAction::<Seq<char>>::Read {
            index,
        }),
        remove_action_view(RemoveAction::Write { index, text }) == (RemoveAction::Write {
            index,
            text: text@,
        }),
        remove_action_view(RemoveAction::Finish(ok)) == RemoveAction::<Seq<char>>::Finish(ok),
{
}

/// An effect of a hook is shown by the one of the same form.
pub proof fn effects_are_shown(effect: Effect, effects: Seq<Effect>, i: int)
    ensures
        effect_views(effects).len() == effects.len(),
        0 <= i < effects.len() ==> effect_views(effects)[i] == effect_view(effects[i]),
        match (effect, effect_view(effect)) {
            (
                HookEffect::RebindSession { instance, session_id },
                HookEffect::RebindSession { instance: x, session_id: y },
            ) => x == instance@ && y == session_id@,
            (
                HookEffect::CaptureLaunchContext { instance },
                HookEffect::CaptureLaunchContext { instance: x },
            ) => x == instance@,
            (
                HookEffect::UpdatePosition { instance, updates },
                HookEffect::UpdatePosition { instance: x, updates: y },
            ) => x == instance@ && y == updates@,
            (
                HookEffect::SetStatus { instance, status, context },
                HookEffect::SetStatus { instance: x, status: y, context: z },
            ) => x == instance@ && y == status && z == context@,
            (
                HookEffect::SetTerminalTitle { instance },
                HookEffect::SetTerminalTitle { instance: x },
            ) => x == instance@,
            (HookEffect::EnsureWorker, HookEffect::EnsureWorker) => true,
            (HookEffect::Notify { instance }, HookEffect::Notify { instance: x }) => x == instance@,
            (
                HookEffect::UpdateToolStatus { instance, tool, tool_name, tool_input },
                HookEffect::UpdateToolStatus { instance: w, tool: x, tool_name: y, tool_input: z },
            ) => w == instance@ && x == tool@ && y == tool_name@ && z == tool_input@,
            (
                HookEffect::FinalizeSession { instance, reason },
                HookEffect::FinalizeSession { instance: x, reason: y },
            ) => x == instance@ && y == reason@,
            (HookEffect::CommitDelivery, HookEffect::CommitDelivery) => true,
            (
                HookEffect::WarnOfInput { hook_name, message },
                HookEffect::WarnOfInput { hook_name: x, message: y },
            ) => x == hook_name@ && y == message@,
            _ => false,
        },
{
}

/// A step of a hook is shown by its effects and by the next move of the same form.
pub proof fn steps_are_shown(step: HookStep, next: Next)
    ensures
        step@.effects == effect_views(step.effects@),
        step@.next == next_view(step.next),
        match (next, next_view(next)) {
            (
                HookNext::BindSession { session_id, process_id },
                HookNext::BindSession { session_id: x, process_id: y },
            ) => x == session_id@ && y == process_id@,
            (
                HookNext::ResolveInstance { session_id, process_id },
                HookNext::ResolveInstance { session_id: x, process_id: y },
            ) => shows(x, session_id) && shows(y, process_id),
            (HookNext::PreparePending { instance }, HookNext::PreparePending { instance: x }) => x
                == instance@,
            (
                HookNext::Answer { output, delivers },
                HookNext::Answer { output: x, delivers: y },
            ) => x == output@ && y == delivers,
            _ => false,
        },
{
}

/// A step of a run is shown by its effects, its action and where it leads; how far a run has come
/// and an action are shown by those of the same form.
pub proof fn runs_are_shown(step: DispatchStep, run: Run, action: DispatchAction<String>)
    ensures
        step@.run == run_view(step.run),
        step@.effects == effect_views(step.effects@),
        step@.action == action_view(step.action),
        match (run, run_view(run)) {
            (HookRun::Fresh { hook_name }, HookRun::Fresh { hook_name: x }) => x == hook_name@,
            (HookRun::Reading { hook_name }, HookRun::Reading { hook_name: x }) => x == hook_name@,
            (HookRun::Opening { payload }, HookRun::Opening { payload: x }) => x == payload@,
            (HookRun::Gating { payload }, HookRun::Gating { payload: x }) => x == payload@,
            (
                HookRun::Binding { payload, env, session_id },
                HookRun::Binding { payload: x, env: y, session_id: z },
            ) => x == payload@ && y == env@ && z == session_id@,
            (
                HookRun::Resolving { payload, env },
                HookRun::Resolving { payload: x, env: y },
            ) => x == payload@ && y == env@,
            (
                HookRun::Collecting { payload, env },
                HookRun::Collecting { payload: x, env: y },
            ) => x == payload@ && y == env@,
            (
                HookRun::Writing { delivers, guarded },
                HookRun::Writing { delivers: x, guarded: y },
            ) => x == delivers && y == guarded,
            (HookRun::Flushing { delivers }, HookRun::Flushing { delivers: x }) => x == delivers,
            (HookRun::Ended, HookRun::Ended) => true,
            _ => false,
        },
        match (action, action_view(action)) {
            (DispatchAction::ReadInput, DispatchAction::ReadInput) => true,
            (DispatchAction::OpenDatabase, DispatchAction::OpenDatabase) => true,
            (DispatchAction::CheckGate, DispatchAction::CheckGate) => true,
            (
                DispatchAction::BindSession { session_id, process_id },
                DispatchAction::BindSession { session_id: x, process_id: y },
            ) => x == session_id@ && y == process_id@,
            (
                DispatchAction::ResolveInstance { session_id, process_id },
                DispatchAction::ResolveInstance { session_id: x, process_id: y },
            ) => shows(x, session_id) && shows(y, process_id),
            (
                DispatchAction::PreparePending { instance },
                DispatchAction::PreparePending { instance: x },
            ) => x == instance@,
            (DispatchAction::WriteOutput { text }, DispatchAction::WriteOutput { text: x }) => x
                == text@,
            (DispatchAction::FlushOutput, DispatchAction::FlushOutput) => true,
            (DispatchAction::Exit { code }, DispatchAction::Exit { code: x }) => x == code,
            _ => false,
        },
{
}

/// An event of a run is shown by the one of the same form.
pub proof fn events_are_shown(event: Event)
    ensures
        match (event, event_view(event)) {
            (DispatchEvent::Started, DispatchEvent::Started) => true,
            (DispatchEvent::Input(Some(bytes)), DispatchEvent::Input(Some(x))) => x == bytes@,
            (DispatchEvent::Input(None), DispatchEvent::Input(None)) => true,
            (DispatchEvent::Database(ok), DispatchEvent::Database(x)) => x == ok,
            (DispatchEvent::Gate(Some(env)), DispatchEvent::Gate(Some(x))) => x == env@,
            (DispatchEvent::Gate(None), DispatchEvent::Gate(None)) => true,
            (DispatchEvent::Bound(instance), DispatchEvent::Bound(x)) => shows(x, instance),
            (DispatchEvent::Resolved(instance), DispatchEvent::Resolved(x)) => shows(x, instance),
            (DispatchEvent::Pending(messages), DispatchEvent::Pending(x)) => shows(x, messages),
            (DispatchEvent::Panicked, DispatchEvent::Panicked) => true,
            (DispatchEvent::Written(ok), DispatchEvent::Written(x)) => x == ok,
            (DispatchEvent::Flushed(ok), DispatchEvent::Flushed(x)) => x == ok,
            _ => false,
        },
{
}

} // verus!
