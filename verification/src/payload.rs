//! What Grok hands to a hook, and what follows from it alone.
use crate::json::{Json, JsonObject, Members, Tree};
use crate::text::{
    ascii_lower, contains_text, has_text, lower_is, same_text, text_of, trim, trimmed,
};
use vstd::prelude::*;

verus! {

/// What Grok hands to a hook.
#[derive(Debug)]
pub struct HookPayload {
    /// The subcommand that Grok called.
    pub hook_name: String,
    /// The tool that calls: always `grok`.
    pub tool: String,
    /// The session, where Grok names one.
    pub session_id: Option<String>,
    /// The transcript of the session, where Grok names one.
    pub transcript_path: Option<String>,
    /// The tool that the model uses; empty where there is none.
    pub tool_name: String,
    /// What the model hands to the tool; null where there is nothing.
    pub tool_input: Json,
    /// All that Grok handed in.
    pub raw: Json,
}

/// A payload as a mathematical value.
pub struct Payload {
    pub hook_name: Seq<char>,
    pub tool: Seq<char>,
    pub session_id: Option<Seq<char>>,
    pub transcript_path: Option<Seq<char>>,
    pub tool_name: Seq<char>,
    pub tool_input: Tree,
    pub raw: Tree,
}

impl View for HookPayload {
    type V = Payload;

    open spec fn view(&self) -> Payload {
        Payload {
            hook_name: self.hook_name@,
            tool: self.tool@,
            session_id: text_of(self.session_id),
            transcript_path: text_of(self.transcript_path),
            tool_name: self.tool_name@,
            tool_input: self.tool_input@,
            raw: self.raw@,
        }
    }
}

/// What a hook knows of the process that it runs in.
#[derive(Debug)]
pub struct HookEnv {
    /// The session that `GROK_SESSION_ID` names.
    pub session_id: Option<String>,
    /// The process that hcom launched Grok under.
    pub process_id: Option<String>,
    /// The working directory, where it is text.
    pub cwd: Option<String>,
}

/// The surroundings of a hook as a mathematical value.
pub struct Surroundings {
    pub session_id: Option<Seq<char>>,
    pub process_id: Option<Seq<char>>,
    pub cwd: Option<Seq<char>>,
}

impl View for HookEnv {
    type V = Surroundings;

    open spec fn view(&self) -> Surroundings {
        Surroundings {
            session_id: text_of(self.session_id),
            process_id: text_of(self.process_id),
            cwd: text_of(self.cwd),
        }
    }
}

/// The first text, or where there is none the second.
pub open spec fn or_text(first: Option<Seq<char>>, second: Option<Seq<char>>) -> Option<Seq<char>> {
    match first {
        Some(text) => Some(text),
        None => second,
    }
}

/// A text that is not empty.
pub open spec fn non_empty(text: Option<Seq<char>>) -> Option<Seq<char>> {
    match text {
        Some(found) => if found.len() > 0 {
            Some(found)
        } else {
            None
        },
        None => None,
    }
}

/// The text, or where there is none the empty one.
pub open spec fn or_empty(text: Option<Seq<char>>) -> Seq<char> {
    match text {
        Some(found) => found,
        None => Seq::empty(),
    }
}

/// The payload that is read from what Grok hands in. Each field is looked up under its name in
/// camel case first, and then under its name in snake case.
pub open spec fn grok_payload(hook_name: Seq<char>, raw: Tree) -> Payload {
    Payload {
        hook_name,
        tool: "grok"@,
        session_id: or_text(raw.str_at("sessionId"@), raw.str_at("session_id"@)),
        transcript_path: or_text(raw.str_at("transcriptPath"@), raw.str_at("transcript_path"@)),
        tool_name: or_empty(or_text(raw.str_at("toolName"@), raw.str_at("tool_name"@))),
        tool_input: match raw.get("toolInput"@) {
            Some(input) => input,
            None => match raw.get("tool_input"@) {
                Some(input) => input,
                None => Tree::Null,
            },
        },
        raw,
    }
}

fn str_at_either<'a>(raw: &'a Json, first: &str, second: &str) -> (text: Option<&'a str>)
    ensures
        match text {
            Some(s) => or_text(raw@.str_at(first@), raw@.str_at(second@)) == Some(s@),
            None => or_text(raw@.str_at(first@), raw@.str_at(second@)) is None,
        },
{
    match raw.str_at(first) {
        Some(text) => Some(text),
        None => raw.str_at(second),
    }
}

fn owned(text: Option<&str>) -> (string: Option<String>)
    ensures
        match text {
            Some(s) => text_of(string) == Some(s@),
            None => string is None,
        },
{
    match text {
        Some(s) => Some(s.to_owned()),
        None => None,
    }
}

impl HookPayload {
    /// Reads the payload from what Grok hands in.
    pub fn from_grok(hook_name: &str, raw: Json) -> (payload: HookPayload)
        ensures
            payload@ == grok_payload(hook_name@, raw@),
    {
        let session_id = owned(str_at_either(&raw, "sessionId", "session_id"));
        let transcript_path = owned(str_at_either(&raw, "transcriptPath", "transcript_path"));
        let tool_name = match str_at_either(&raw, "toolName", "tool_name") {
            Some(name) => name.to_owned(),
            None => String::new(),
        };
        let tool_input = match raw.get("toolInput") {
            Some(input) => input.clone(),
            None => match raw.get("tool_input") {
                Some(input) => input.clone(),
                None => Json::Null,
            },
        };
        HookPayload {
            hook_name: hook_name.to_owned(),
            tool: "grok".to_owned(),
            session_id,
            transcript_path,
            tool_name,
            tool_input,
            raw,
        }
    }
}

/// The session of a payload; where that names none, the one of the process.
pub open spec fn session_of(payload: Payload, env: Surroundings) -> Option<Seq<char>> {
    or_text(non_empty(payload.session_id), non_empty(env.session_id))
}

fn copy_non_empty(text: &Option<String>) -> (copy: Option<String>)
    ensures
        text_of(copy) == non_empty(text_of(*text)),
{
    match text {
        Some(s) => if s.as_str().is_empty() {
            None
        } else {
            Some(s.clone())
        },
        None => None,
    }
}

/// The session of a payload; where that names none, the one of the process.
pub fn resolve_session_id(payload: &HookPayload, env: &HookEnv) -> (session_id: Option<String>)
    ensures
        text_of(session_id) == session_of(payload@, env@),
{
    match copy_non_empty(&payload.session_id) {
        Some(session_id) => Some(session_id),
        None => copy_non_empty(&env.session_id),
    }
}

/// The members with a string added under a key, where there is one.
pub open spec fn with_text(members: Members, key: Seq<char>, text: Option<Seq<char>>) -> Members {
    match text {
        Some(found) => members.insert(key, Tree::Str(found)),
        None => members,
    }
}

/// The directory that a hook runs for: the one that Grok names, else that of the process.
pub open spec fn directory_of(payload: Payload, env: Surroundings) -> Seq<char> {
    let raw = payload.raw;
    or_empty(
        or_text(
            or_text(
                or_text(raw.str_at("cwd"@), raw.str_at("workspaceRoot"@)),
                raw.str_at("workspace_root"@),
            ),
            env.cwd,
        ),
    )
}

/// What a hook tells of where an instance stands: its session, its transcript and its directory,
/// as far as they are known.
pub open spec fn position_of(payload: Payload, env: Surroundings) -> Members {
    with_text(
        with_text(
            with_text(Map::empty(), "session_id"@, session_of(payload, env)),
            "transcript_path"@,
            non_empty(payload.transcript_path),
        ),
        "directory"@,
        non_empty(Some(directory_of(payload, env))),
    )
}

/// What a hook tells of where an instance stands.
pub fn update_position(payload: &HookPayload, env: &HookEnv) -> (updates: JsonObject)
    ensures
        updates@ == position_of(payload@, env@),
{
    let mut updates = JsonObject::new();
    if let Some(session_id) = resolve_session_id(payload, env) {
        updates.insert("session_id", Json::Str(session_id));
    }
    if let Some(path) = copy_non_empty(&payload.transcript_path) {
        updates.insert("transcript_path", Json::Str(path));
    }
    let directory = match str_at_either(&payload.raw, "cwd", "workspaceRoot") {
        Some(text) => text.to_owned(),
        None => match payload.raw.str_at("workspace_root") {
            Some(text) => text.to_owned(),
            None => match &env.cwd {
                Some(text) => text.clone(),
                None => String::new(),
            },
        },
    };
    if !directory.as_str().is_empty() {
        updates.insert("directory", Json::Str(directory));
    }
    updates
}

/// The prompt that a user submitted; empty where there is none.
pub open spec fn prompt_of(raw: Tree) -> Seq<char> {
    or_empty(or_text(raw.str_at("prompt"@), raw.str_at("userPrompt"@)))
}

/// Whether a prompt comes from hcom and not from the user.
pub open spec fn is_trigger(prompt: Seq<char>) -> bool {
    ||| trim(prompt) == "<hcom>"@
    ||| ascii_lower(trim(prompt)) == "hcom: wake"@
    ||| contains_text(prompt, "[hcom"@)
    ||| contains_text(prompt, "hcom "@)
}

/// Whether a prompt comes from hcom and not from the user.
pub fn is_trigger_prompt(prompt: &str) -> (trigger: bool)
    ensures
        trigger == is_trigger(prompt@),
{
    let bare = trimmed(prompt);
    same_text(bare, "<hcom>") || lower_is(bare, "hcom: wake") || has_text(prompt, "[hcom")
        || has_text(prompt, "hcom ")
}

/// Whether the prompt of a payload comes from hcom and not from the user.
pub fn payload_is_trigger(payload: &HookPayload) -> (trigger: bool)
    ensures
        trigger == is_trigger(prompt_of(payload@.raw)),
{
    match str_at_either(&payload.raw, "prompt", "userPrompt") {
        Some(prompt) => is_trigger_prompt(prompt),
        None => {
            let prompt = String::new();
            is_trigger_prompt(prompt.as_str())
        },
    }
}

/// Why a turn stopped; empty where Grok does not say.
pub open spec fn stop_reason_of(raw: Tree) -> Seq<char> {
    or_empty(
        or_text(
            or_text(raw.str_at("reason"@), raw.str_at("stop_reason"@)),
            raw.str_at("stopReason"@),
        ),
    )
}

/// Whether a reason, its letters taken as small ones, says that the turn came to its end.
pub open spec fn ends_turn(reason: Seq<char>) -> bool {
    ||| reason.len() == 0
    ||| ascii_lower(reason) == "end_turn"@
    ||| ascii_lower(reason) == "endturn"@
    ||| ascii_lower(reason) == "completed"@
    ||| ascii_lower(reason) == "stop"@
}

/// Whether a stop is the end of a turn.
pub fn is_genuine_end_turn_stop(payload: &HookPayload) -> (genuine: bool)
    ensures
        genuine == ends_turn(stop_reason_of(payload@.raw)),
{
    let reason = match str_at_either(&payload.raw, "reason", "stop_reason") {
        Some(text) => Some(text),
        None => payload.raw.str_at("stopReason"),
    };
    match reason {
        Some(text) => text.is_empty() || lower_is(text, "end_turn") || lower_is(text, "endturn")
            || lower_is(text, "completed") || lower_is(text, "stop"),
        None => true,
    }
}

/// Why a session ended.
pub open spec fn end_reason_of(raw: Tree) -> Seq<char> {
    match raw.str_at("reason"@) {
        Some(reason) => reason,
        None => "unknown"@,
    }
}

/// Why a session ended.
pub fn session_end_reason(payload: &HookPayload) -> (reason: String)
    ensures
        reason@ == end_reason_of(payload@.raw),
{
    match payload.raw.str_at("reason") {
        Some(reason) => reason.to_owned(),
        None => "unknown".to_owned(),
    }
}

} // verus!
