use grok_hooks::json::Json;
use grok_hooks::payload::{
    is_genuine_end_turn_stop, is_trigger_prompt, payload_is_trigger, resolve_session_id,
    session_end_reason, update_position, HookEnv, HookPayload,
};
use grok_hooks::wire::{compact_text, parse_json};

fn payload(hook_name: &str, raw: &str) -> HookPayload {
    HookPayload::from_grok(hook_name, parse_json(raw).unwrap())
}

fn env(session_id: Option<&str>, cwd: Option<&str>) -> HookEnv {
    HookEnv {
        session_id: session_id.map(|s| s.to_string()),
        process_id: None,
        cwd: cwd.map(|s| s.to_string()),
    }
}

fn position(raw: &str, env: &HookEnv) -> String {
    compact_text(Json::Object(update_position(&payload("grok-stop", raw), env))).unwrap()
}

#[test]
fn payload_from_grok_reads_camel_case() {
    let raw = r#"{
        "sessionId": "sess-abc",
        "hookEventName": "pre_tool_use",
        "toolName": "run_terminal_command",
        "toolInput": { "command": "ls" },
        "cwd": "/tmp/proj",
        "workspaceRoot": "/tmp/proj"
    }"#;
    let payload = payload("grok-pretooluse", raw);
    assert_eq!(payload.session_id.as_deref(), Some("sess-abc"));
    assert_eq!(payload.tool, "grok");
    assert_eq!(payload.tool_name, "run_terminal_command");
    assert_eq!(payload.tool_input.str_at("command"), Some("ls"));
    assert_eq!(payload.hook_name, "grok-pretooluse");
}

#[test]
fn payload_from_grok_reads_snake_case() {
    let raw = r#"{
        "session_id": "sess-xyz",
        "tool_name": "search_replace",
        "tool_input": { "file_path": "a.rs" }
    }"#;
    let payload = payload("grok-posttooluse", raw);
    assert_eq!(payload.session_id.as_deref(), Some("sess-xyz"));
    assert_eq!(payload.tool_name, "search_replace");
}

#[test]
fn end_turn_is_the_only_stop_delivery_reason() {
    assert!(is_genuine_end_turn_stop(&payload("grok-stop", r#"{ "reason": "end_turn" }"#)));
    assert!(is_genuine_end_turn_stop(&payload("grok-stop", "{}")));
    assert!(!is_genuine_end_turn_stop(&payload("grok-stop", r#"{ "reason": "channel_closed" }"#)));
}

#[test]
fn the_reasons_that_end_a_turn() {
    for reason in ["", "End_Turn", "EndTurn", "COMPLETED", "stop"] {
        let raw = format!(r#"{{"stopReason":"{reason}"}}"#);
        assert!(is_genuine_end_turn_stop(&payload("grok-stop", &raw)));
    }
    assert!(!is_genuine_end_turn_stop(&payload("grok-stop", r#"{"reason":" stop"}"#)));
    assert!(!is_genuine_end_turn_stop(&payload("grok-stop", r#"{"reason":"error","stop_reason":"stop"}"#)));
    assert!(is_genuine_end_turn_stop(&payload("grok-stop", r#"{"reason":7,"stop_reason":"stop"}"#)));
    assert!(!is_genuine_end_turn_stop(&payload("grok-stop", r#"{"stop_reason":"x","stopReason":"stop"}"#)));
    assert!(is_genuine_end_turn_stop(&payload("grok-stop", "[]")));
}

#[test]
fn camel_case_goes_before_snake_case() {
    let both = payload("grok-stop", r#"{"sessionId":"a","session_id":"b","transcript_path":"/t","toolInput":null,"tool_input":1}"#);
    assert_eq!(both.session_id.as_deref(), Some("a"));
    assert_eq!(both.transcript_path.as_deref(), Some("/t"));
    assert_eq!(both.tool_name, "");
    assert!(matches!(both.tool_input, Json::Null));
    let mistyped = payload("grok-stop", r#"{"sessionId":1,"session_id":"b"}"#);
    assert_eq!(mistyped.session_id.as_deref(), Some("b"));
    assert!(matches!(mistyped.tool_input, Json::Null));
}

#[test]
fn the_session_of_the_payload_goes_first() {
    let named = payload("grok-stop", r#"{"sessionId":"p"}"#);
    let unnamed = payload("grok-stop", r#"{"sessionId":""}"#);
    assert_eq!(resolve_session_id(&named, &env(Some("e"), None)).as_deref(), Some("p"));
    assert_eq!(resolve_session_id(&unnamed, &env(Some("e"), None)).as_deref(), Some("e"));
    assert_eq!(resolve_session_id(&unnamed, &env(Some(""), None)), None);
    assert_eq!(resolve_session_id(&unnamed, &env(None, None)), None);
}

#[test]
fn the_position_holds_what_is_known() {
    let raw = r#"{"sessionId":"s","transcriptPath":"/t","cwd":"/c","workspaceRoot":"/w"}"#;
    assert_eq!(
        position(raw, &env(None, Some("/p"))),
        r#"{"directory":"/c","session_id":"s","transcript_path":"/t"}"#
    );
    assert_eq!(
        position(r#"{"workspaceRoot":"/w","workspace_root":"/v"}"#, &env(None, None)),
        r#"{"directory":"/w"}"#
    );
    assert_eq!(
        position(r#"{"cwd":5,"workspace_root":"/v"}"#, &env(None, None)),
        r#"{"directory":"/v"}"#
    );
    assert_eq!(position("{}", &env(Some("e"), Some("/p"))), r#"{"directory":"/p","session_id":"e"}"#);
    assert_eq!(position(r#"{"cwd":"","transcript_path":""}"#, &env(None, Some("/p"))), "{}");
    assert_eq!(position("{}", &env(None, None)), "{}");
}

#[test]
fn prompts_of_hcom_are_told_from_those_of_the_user() {
    assert!(is_trigger_prompt("  <hcom>\n"));
    assert!(is_trigger_prompt("HCOM: Wake"));
    assert!(is_trigger_prompt("see [hcom:luna]"));
    assert!(is_trigger_prompt("run hcom send"));
    assert!(!is_trigger_prompt("<HCOM>"));
    assert!(!is_trigger_prompt("hcom: wake up"));
    assert!(!is_trigger_prompt("what is hcom?"));
    assert!(!is_trigger_prompt(""));
    assert!(payload_is_trigger(&payload("grok-userpromptsubmit", r#"{"userPrompt":"<hcom>"}"#)));
    assert!(!payload_is_trigger(&payload("grok-userpromptsubmit", r#"{"prompt":"","userPrompt":"<hcom>"}"#)));
    assert!(!payload_is_trigger(&payload("grok-userpromptsubmit", "{}")));
}

#[test]
fn the_reason_for_the_end_of_a_session() {
    assert_eq!(session_end_reason(&payload("grok-sessionend", r#"{"reason":"exit"}"#)), "exit");
    assert_eq!(session_end_reason(&payload("grok-sessionend", r#"{"reason":1}"#)), "unknown");
    assert_eq!(session_end_reason(&payload("grok-sessionend", "{}")), "unknown");
}
