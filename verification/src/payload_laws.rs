//! What is read from the payload of a hook, said of the members that Grok hands in.
use crate::json::{Members, Tree};
use crate::payload::{
    directory_of, end_reason_of, ends_turn, grok_payload, is_trigger, position_of, prompt_of,
    session_of, stop_reason_of, Payload, Surroundings,
};
use crate::text::{
    all_white, ascii_lower, contained_text_is_framed, contains_text, framed,
    framed_text_is_contained, trimming_leaves_the_core, white_space,
};
use vstd::prelude::*;

verus! {

/// The text under a key, where the value is an object that has a text there.
pub open spec fn text_under(raw: Tree, key: Seq<char>) -> Option<Seq<char>> {
    match raw {
        Tree::Object(members) => if members.dom().contains(key) {
            match members[key] {
                Tree::Str(text) => Some(text),
                _ => None,
            }
        } else {
            None
        },
        _ => None,
    }
}

/// Whether a result is the text under a key.
pub open spec fn comes_from(result: Option<Seq<char>>, raw: Tree, key: Seq<char>) -> bool {
    result == text_under(raw, key)
}

/// A payload is what Grok handed in, under the name of the hook. Each of its texts is the one
/// under the name in camel case; where there is no text, the one under the name in snake case.
pub proof fn a_payload_is_read(hook_name: Seq<char>, raw: Tree)
    ensures
        ({
            let payload = grok_payload(hook_name, raw);
            &&& payload.hook_name == hook_name
            &&& payload.raw == raw
            &&& payload.tool == "grok"@
            &&& text_under(raw, "sessionId"@) is Some ==> comes_from(
                payload.session_id,
                raw,
                "sessionId"@,
            )
            &&& text_under(raw, "sessionId"@) is None ==> comes_from(
                payload.session_id,
                raw,
                "session_id"@,
            )
            &&& text_under(raw, "transcriptPath"@) is Some ==> comes_from(
                payload.transcript_path,
                raw,
                "transcriptPath"@,
            )
            &&& text_under(raw, "transcriptPath"@) is None ==> comes_from(
                payload.transcript_path,
                raw,
                "transcript_path"@,
            )
            &&& text_under(raw, "toolName"@) matches Some(name) ==> payload.tool_name == name
            &&& text_under(raw, "toolName"@) is None ==> (text_under(
                raw,
                "tool_name"@,
            ) matches Some(name) ==> payload.tool_name == name)
            &&& text_under(raw, "toolName"@) is None && text_under(raw, "tool_name"@) is None
                ==> payload.tool_name.len() == 0
        }),
{
}

/// What is handed to a tool is the value under `toolInput`, whatever that is; where there is none,
/// the one under `tool_input`, and where there is none either, null.
pub proof fn the_input_of_a_tool_is_read(hook_name: Seq<char>, members: Members)
    ensures
        ({
            let input = grok_payload(hook_name, Tree::Object(members)).tool_input;
            if members.dom().contains("toolInput"@) {
                input == members["toolInput"@]
            } else if members.dom().contains("tool_input"@) {
                input == members["tool_input"@]
            } else {
                input == Tree::Null
            }
        }),
{
}

/// The session is the one that the payload names; where that is missing or empty, the one that
/// the process names; where that is missing or empty too, there is none.
pub proof fn the_session_of_the_payload_goes_first(payload: Payload, env: Surroundings)
    ensures
        payload.session_id matches Some(session) && session.len() > 0 ==> session_of(payload, env)
            == payload.session_id,
        !(payload.session_id matches Some(session) && session.len() > 0) && (
        env.session_id matches Some(session) && session.len() > 0) ==> session_of(payload, env)
            == env.session_id,
        !(payload.session_id matches Some(session) && session.len() > 0) && !(
        env.session_id matches Some(session) && session.len() > 0) ==> session_of(payload, env)
            is None,
{
}

/// The directory is the first text among those under `cwd`, `workspaceRoot` and
/// `workspace_root`, else that of the process, and empty where there is none of them.
pub proof fn the_directory_that_grok_names_goes_first(payload: Payload, env: Surroundings)
    ensures
        ({
            let raw = payload.raw;
            let directory = directory_of(payload, env);
            &&& text_under(raw, "cwd"@) matches Some(text) ==> directory == text
            &&& text_under(raw, "cwd"@) is None ==> {
                &&& text_under(raw, "workspaceRoot"@) matches Some(text) ==> directory == text
                &&& text_under(raw, "workspaceRoot"@) is None ==> {
                    &&& text_under(raw, "workspace_root"@) matches Some(text) ==> directory == text
                    &&& text_under(raw, "workspace_root"@) is None ==> {
                        &&& env.cwd matches Some(text) ==> directory == text
                        &&& env.cwd is None ==> directory.len() == 0
                    }
                }
            }
        }),
{
}

/// The position of an instance has a session, a transcript and a directory, each just where there
/// is one that is not empty, and nothing else.
pub proof fn the_position_holds_what_is_known(payload: Payload, env: Surroundings, key: Seq<char>)
    ensures
        ({
            let position = position_of(payload, env);
            &&& position.dom().contains(key) ==> key == "session_id"@ || key == "transcript_path"@
                || key == "directory"@
            &&& match session_of(payload, env) {
                Some(session) => position.dom().contains("session_id"@) && position["session_id"@]
                    == Tree::Str(session),
                None => !position.dom().contains("session_id"@),
            }
            &&& match payload.transcript_path {
                Some(path) => position.dom().contains("transcript_path"@) == (path.len() > 0) && (
                path.len() > 0 ==> position["transcript_path"@] == Tree::Str(path)),
                None => !position.dom().contains("transcript_path"@),
            }
            &&& position.dom().contains("directory"@) == (directory_of(payload, env).len() > 0)
            &&& directory_of(payload, env).len() > 0 ==> position["directory"@] == Tree::Str(
                directory_of(payload, env),
            )
        }),
{
    reveal_strlit("session_id");
    reveal_strlit("transcript_path");
    reveal_strlit("directory");
    assert("session_id"@.len() == 10);
    assert("transcript_path"@.len() == 15);
    assert("directory"@.len() == 9);
}

/// The prompt is the text under `prompt`; where there is no text, the one under `userPrompt`, and
/// empty where there is none either.
pub proof fn the_prompt_is_read(raw: Tree)
    ensures
        text_under(raw, "prompt"@) matches Some(text) ==> prompt_of(raw) == text,
        text_under(raw, "prompt"@) is None ==> (text_under(raw, "userPrompt"@) matches Some(text)
            ==> prompt_of(raw) == text),
        text_under(raw, "prompt"@) is None && text_under(raw, "userPrompt"@) is None ==> prompt_of(
            raw,
        ).len() == 0,
{
}

/// A prompt in which `hcom` and a space, or a bracket and `hcom`, follow one another, at whatever
/// place, comes from hcom.
pub proof fn a_prompt_that_mentions_hcom_is_a_trigger(before: Seq<char>, after: Seq<char>)
    ensures
        is_trigger(before + "hcom "@ + after),
        is_trigger(before + "[hcom"@ + after),
{
    framed_text_is_contained(before, "hcom "@, after);
    framed_text_is_contained(before, "[hcom"@, after);
}

/// A prompt comes from hcom where it is `<hcom>`, or `hcom: wake` in letters of any case, with any
/// white space around it.
pub proof fn a_prompt_that_wakes_is_a_trigger(
    before: Seq<char>,
    core: Seq<char>,
    after: Seq<char>,
)
    requires
        all_white(before),
        all_white(after),
        core == "<hcom>"@ || ascii_lower(core) == "hcom: wake"@,
    ensures
        is_trigger(before + core + after),
{
    reveal_strlit("<hcom>");
    reveal_strlit("hcom: wake");
    if core != "<hcom>"@ {
        assert(core.len() == ascii_lower(core).len());
        assert(ascii_lower(core)[0] == 'h');
        assert(ascii_lower(core)[9] == 'e');
        assert(!white_space(core[0]));
        assert(!white_space(core[9]));
    }
    trimming_leaves_the_core(before, core, after);
}

/// Every other prompt is one of the user: one that holds neither text and is, without the white
/// space around it, neither of the two words.
pub proof fn other_prompts_are_of_the_user(
    before: Seq<char>,
    core: Seq<char>,
    after: Seq<char>,
)
    requires
        all_white(before),
        all_white(after),
        core.len() > 0 ==> !white_space(core[0]) && !white_space(core[core.len() - 1]),
        is_trigger(before + core + after),
    ensures
        ({
            ||| core == "<hcom>"@
            ||| ascii_lower(core) == "hcom: wake"@
            ||| exists|x: Seq<char>, y: Seq<char>|
                before + core + after == #[trigger] framed(x, "[hcom"@, y)
            ||| exists|x: Seq<char>, y: Seq<char>|
                before + core + after == #[trigger] framed(x, "hcom "@, y)
        }),
{
    let prompt = before + core + after;
    trimming_leaves_the_core(before, core, after);
    if core != "<hcom>"@ && ascii_lower(core) != "hcom: wake"@ {
        if contains_text(prompt, "[hcom"@) {
            contained_text_is_framed(prompt, "[hcom"@);
        } else {
            contained_text_is_framed(prompt, "hcom "@);
        }
    }
}

/// Why a turn stopped is the first text among those under `reason`, `stop_reason` and
/// `stopReason`, and empty where there is none of them.
pub proof fn the_reason_of_a_stop_is_read(raw: Tree)
    ensures
        text_under(raw, "reason"@) matches Some(text) ==> stop_reason_of(raw) == text,
        text_under(raw, "reason"@) is None ==> {
            &&& text_under(raw, "stop_reason"@) matches Some(text) ==> stop_reason_of(raw) == text
            &&& text_under(raw, "stop_reason"@) is None ==> {
                &&& text_under(raw, "stopReason"@) matches Some(text) ==> stop_reason_of(raw)
                    == text
                &&& text_under(raw, "stopReason"@) is None ==> stop_reason_of(raw).len() == 0
            }
        },
{
}

/// A turn came to its end where the reason is empty or one of four words, in letters of any case,
/// and not otherwise.
pub proof fn the_reasons_that_end_a_turn(reason: Seq<char>)
    ensures
        ends_turn(reason) <==> {
            ||| reason.len() == 0
            ||| ascii_lower(reason) == "end_turn"@
            ||| ascii_lower(reason) == "endturn"@
            ||| ascii_lower(reason) == "completed"@
            ||| ascii_lower(reason) == "stop"@
        },
        ends_turn(ascii_lower(reason)) == ends_turn(reason),
{
    assert(ascii_lower(ascii_lower(reason)) =~= ascii_lower(reason));
}

/// Why a session ended is the text under `reason`, and unknown where there is none.
pub proof fn the_reason_of_an_end_is_read(raw: Tree)
    ensures
        text_under(raw, "reason"@) matches Some(text) ==> end_reason_of(raw) == text,
        text_under(raw, "reason"@) is None ==> end_reason_of(raw) == "unknown"@,
{
}

/// From what is no object no field is read.
pub proof fn nothing_is_read_from_other_values(hook_name: Seq<char>, raw: Tree)
    requires
        !(raw is Object),
    ensures
        grok_payload(hook_name, raw).session_id is None,
        grok_payload(hook_name, raw).transcript_path is None,
        grok_payload(hook_name, raw).tool_name.len() == 0,
        grok_payload(hook_name, raw).tool_input == Tree::Null,
{
}

} // verus!
