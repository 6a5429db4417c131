use grok_hooks::commands::hook_commands;
use grok_hooks::dispatch::{
    dispatch_grok_hook, DispatchAction, DispatchEvent, DispatchStep, Event, HookRun, Run,
};
use grok_hooks::handlers::{
    after_pending, handle_stop, hook_kind, Effect, HookEffect, HookKind, HookNext, InstanceStatus,
};
use grok_hooks::json::Json;
use grok_hooks::payload::{HookEnv, HookPayload};
use grok_hooks::wire::{compact_text, parse_json};
use serde_json::Value;

fn env(process_id: Option<&str>) -> HookEnv {
    HookEnv {
        session_id: None,
        process_id: process_id.map(|s| s.to_string()),
        cwd: Some("/work".to_string()),
    }
}

fn text(s: &str) -> Option<String> {
    Some(s.to_string())
}

/// One line for each effect.
fn describe(effect: &Effect) -> String {
    match effect {
        HookEffect::RebindSession { instance, session_id } => {
            format!("rebind {instance} {session_id}")
        }
        HookEffect::CaptureLaunchContext { instance } => format!("capture {instance}"),
        HookEffect::UpdatePosition { instance, updates } => {
            format!("position {instance} {}", compact_text(Json::Object(updates.clone())).unwrap())
        }
        HookEffect::SetStatus { instance, status, context } => match status {
            InstanceStatus::Active => format!("active {instance} {context}"),
            InstanceStatus::Listening => format!("listening {instance} {context}"),
        },
        HookEffect::SetTerminalTitle { instance } => format!("title {instance}"),
        HookEffect::EnsureWorker => "worker".to_string(),
        HookEffect::Notify { instance } => format!("notify {instance}"),
        HookEffect::UpdateToolStatus { instance, tool, tool_name, tool_input } => format!(
            "tool {instance} {tool} {tool_name} {}",
            compact_text(tool_input.clone()).unwrap()
        ),
        HookEffect::FinalizeSession { instance, reason } => format!("finalize {instance} {reason}"),
        HookEffect::CommitDelivery => "commit".to_string(),
        HookEffect::WarnOfInput { hook_name, message } => format!("warn {hook_name} {message}"),
    }
}

/// What a run of a hook did: its effects and the text that it wrote.
struct Outcome {
    effects: Vec<String>,
    written: Option<String>,
    code: i32,
}

/// Runs a hook; `reply` answers each action.
fn run(hook_name: &str, reply: &dyn Fn(&DispatchAction<String>) -> Event) -> Outcome {
    let mut outcome = Outcome { effects: vec![], written: None, code: -1 };
    let mut state: Run = HookRun::Fresh { hook_name: hook_name.to_string() };
    let mut event = DispatchEvent::Started;
    for _ in 0..12 {
        let DispatchStep { run, effects, action } = dispatch_grok_hook(state, event);
        outcome.effects.extend(effects.iter().map(describe));
        if let DispatchAction::Exit { code } = action {
            outcome.code = code;
            return outcome;
        }
        event = reply(&action);
        if let DispatchAction::WriteOutput { text } = action {
            outcome.written = Some(text);
        }
        state = run;
    }
    panic!("a run that does not end");
}

/// The replies of a process in which all goes well.
fn usual(action: &DispatchAction<String>, raw: &str, env: HookEnv, pending: Option<&str>) -> Event {
    match action {
        DispatchAction::ReadInput => DispatchEvent::Input(Some(raw.as_bytes().to_vec())),
        DispatchAction::OpenDatabase => DispatchEvent::Database(true),
        DispatchAction::CheckGate => DispatchEvent::Gate(Some(env)),
        DispatchAction::BindSession { .. } => DispatchEvent::Bound(text("nova")),
        DispatchAction::ResolveInstance { .. } => DispatchEvent::Resolved(text("nova")),
        DispatchAction::PreparePending { .. } => {
            DispatchEvent::Pending(pending.map(|s| s.to_string()))
        }
        DispatchAction::WriteOutput { .. } => DispatchEvent::Written(true),
        DispatchAction::FlushOutput => DispatchEvent::Flushed(true),
        DispatchAction::Exit { .. } => unreachable!(),
    }
}

fn run_usual(hook_name: &str, raw: &str, pending: Option<&str>) -> Outcome {
    run(hook_name, &|action| usual(action, raw, env(None), pending))
}

const AT_WORK: &str = r#"position nova {"directory":"/work"}"#;

#[test]
fn stop_output_uses_additional_context_not_followup() {
    let env = HookEnv {
        session_id: None,
        process_id: Some("proc-nova".to_string()),
        cwd: Some(".".to_string()),
    };
    let raw = parse_json(r#"{ "reason": "end_turn" }"#).unwrap();
    let payload = HookPayload::from_grok("grok-stop", raw);
    let step = handle_stop(&payload, &env, "nova".to_string());
    let instance = match step.next {
        HookNext::PreparePending { instance } => instance,
        _ => panic!("the end of a turn asks for messages"),
    };
    assert_eq!(instance, "nova");
    let step = after_pending(&payload, text("[luna] hello from bus"));
    let (out, delivers) = match step.next {
        HookNext::Answer { output, delivers } => (output, delivers),
        _ => panic!("the messages are the last question"),
    };
    let out: Value = serde_json::from_str(&compact_text(out).unwrap()).unwrap();

    assert!(out.get("followup_message").is_none());
    let body = out["hookSpecificOutput"]["additionalContext"].as_str().unwrap_or("");
    assert!(body.contains("hello from bus"));
    assert!(out["hookSpecificOutput"]["additional_context"]
        .as_str()
        .is_some_and(|s| s.contains("hello from bus")));
    assert!(delivers);
}

#[test]
fn the_end_of_a_turn_hands_over_and_commits() {
    let outcome = run_usual("grok-stop", r#"{"reason":"end_turn"}"#, Some("hi \"there\""));
    assert_eq!(outcome.effects, vec![AT_WORK, "listening nova ", "notify nova", "commit"]);
    assert_eq!(
        outcome.written.as_deref(),
        Some(r#"{"hookSpecificOutput":{"additionalContext":"hi \"there\"","additional_context":"hi \"there\""}}"#)
    );
    assert_eq!(outcome.code, 0);
}

#[test]
fn a_subagent_that_stops_is_a_turn_that_stops() {
    let outcome = run_usual("grok-subagentstop", "{}", Some("hi"));
    assert_eq!(outcome.effects, vec![AT_WORK, "listening nova ", "notify nova", "commit"]);
}

#[test]
fn nothing_waits_at_the_end_of_a_turn() {
    let outcome = run_usual("grok-stop", "{}", None);
    assert_eq!(outcome.effects, vec![AT_WORK, "listening nova ", "notify nova"]);
    assert_eq!(outcome.written.as_deref(), Some("{}"));
}

#[test]
fn a_turn_that_was_cut_off_hands_nothing_over() {
    let outcome = run_usual("grok-stop", r#"{"reason":"channel_closed"}"#, Some("hi"));
    assert_eq!(outcome.effects, vec![AT_WORK, "listening nova ", "notify nova"]);
    assert_eq!(outcome.written.as_deref(), Some("{}"));
}

#[test]
fn a_delivery_that_was_not_flushed_is_not_committed() {
    for failing in 0..2 {
        let outcome = run("grok-stop", &|action| match action {
            DispatchAction::WriteOutput { .. } if failing == 0 => DispatchEvent::Written(false),
            DispatchAction::FlushOutput if failing == 1 => DispatchEvent::Flushed(false),
            _ => usual(action, "{}", env(None), Some("hi")),
        });
        assert!(!outcome.effects.contains(&"commit".to_string()));
        assert_eq!(outcome.code, 0);
    }
}

#[test]
fn a_session_starts_with_the_process() {
    let outcome = run("grok-sessionstart", &|action| {
        if let DispatchAction::BindSession { session_id, process_id } = action {
            assert_eq!(session_id, "s");
            assert_eq!(process_id, "proc");
        }
        assert!(!matches!(action, DispatchAction::ResolveInstance { .. }));
        usual(action, r#"{"sessionId":"s"}"#, env(Some("proc")), None)
    });
    assert_eq!(
        outcome.effects,
        vec![
            "rebind nova s",
            "capture nova",
            r#"position nova {"directory":"/work","session_id":"s"}"#,
            "listening nova start",
            "title nova",
            "worker",
            "notify nova",
        ]
    );
    assert_eq!(outcome.written.as_deref(), Some("{}"));
}

#[test]
fn a_session_that_cannot_be_bound_is_looked_up() {
    let outcome = run("grok-sessionstart", &|action| match action {
        DispatchAction::BindSession { .. } => DispatchEvent::Bound(None),
        DispatchAction::ResolveInstance { session_id, process_id } => {
            assert_eq!(session_id.as_deref(), Some("s"));
            assert_eq!(process_id.as_deref(), Some("proc"));
            DispatchEvent::Resolved(text("luna"))
        }
        _ => usual(action, r#"{"sessionId":"s"}"#, env(Some("proc")), None),
    });
    assert_eq!(outcome.effects.len(), 7);
    assert_eq!(outcome.effects[0], "rebind luna s");
}

#[test]
fn a_session_without_a_process_is_looked_up() {
    let outcome = run("grok-sessionstart", &|action| {
        assert!(!matches!(action, DispatchAction::BindSession { .. }));
        usual(action, r#"{"sessionId":"s"}"#, env(None), None)
    });
    assert_eq!(outcome.effects.len(), 7);
}

#[test]
fn a_start_without_a_session_does_nothing() {
    let outcome = run_usual("grok-sessionstart", "{}", None);
    assert!(outcome.effects.is_empty());
    assert_eq!(outcome.written.as_deref(), Some("{}"));
}

#[test]
fn a_prompt_makes_the_instance_active() {
    let outcome = run_usual("grok-userpromptsubmit", r#"{"prompt":"do it"}"#, Some("hi"));
    assert_eq!(outcome.effects, vec![AT_WORK, "active nova prompt"]);
    assert_eq!(outcome.written.as_deref(), Some("{}"));
    let outcome = run_usual("grok-userpromptsubmit", r#"{"prompt":"<hcom>"}"#, Some("hi"));
    assert_eq!(outcome.effects, vec![AT_WORK, "active nova trigger"]);
}

#[test]
fn a_tool_is_kept_and_allowed() {
    let raw = r#"{"toolName":"sh","toolInput":{"command":"ls","n":1.5}}"#;
    let outcome = run_usual("grok-pretooluse", raw, Some("hi"));
    assert_eq!(outcome.effects, vec![AT_WORK, r#"tool nova grok sh {"command":"ls","n":1.5}"#]);
    assert_eq!(outcome.written.as_deref(), Some(r#"{"decision":"allow"}"#));
}

#[test]
fn the_other_hooks() {
    let outcome = run_usual("grok-posttooluse", "{}", Some("hi"));
    assert_eq!(outcome.effects, vec![AT_WORK]);
    assert_eq!(outcome.written.as_deref(), Some("{}"));
    let outcome = run_usual("grok-subagentstart", "{}", Some("hi"));
    assert_eq!(outcome.effects, vec![AT_WORK, "listening nova subagent-start", "notify nova"]);
    let outcome = run_usual("grok-sessionend", r#"{"reason":"exit"}"#, Some("hi"));
    assert_eq!(outcome.effects, vec![AT_WORK, "finalize nova exit"]);
    let outcome = run_usual("grok-other", "{}", Some("hi"));
    assert!(outcome.effects.is_empty());
    assert_eq!(outcome.written.as_deref(), Some("{}"));
}

#[test]
fn without_an_instance_there_is_no_effect() {
    for (_, command) in hook_commands() {
        let outcome = run(command, &|action| match action {
            DispatchAction::ResolveInstance { .. } => DispatchEvent::Resolved(None),
            _ => usual(action, r#"{"sessionId":"s"}"#, env(None), Some("hi")),
        });
        assert!(outcome.effects.is_empty());
        let answer = if command == "grok-pretooluse" { r#"{"decision":"allow"}"# } else { "{}" };
        assert_eq!(outcome.written.as_deref(), Some(answer));
    }
}

#[test]
fn a_hook_that_panics_allows_the_tool() {
    for (_, command) in hook_commands() {
        let outcome = run(command, &|action| match action {
            DispatchAction::ResolveInstance { .. } => DispatchEvent::Panicked,
            _ => usual(action, r#"{"sessionId":"s"}"#, env(None), Some("hi")),
        });
        assert_eq!(outcome.written.as_deref(), Some(r#"{"decision":"allow"}"#));
        assert!(outcome.effects.is_empty());
        assert_eq!(outcome.code, 0);
    }
}

#[test]
fn effects_that_panic_take_the_answer_back() {
    let writing = HookRun::Writing { delivers: true, guarded: true };
    let step = dispatch_grok_hook(writing, DispatchEvent::Panicked);
    assert!(matches!(step.run, HookRun::Writing { delivers: false, guarded: false }));
    match step.action {
        DispatchAction::WriteOutput { text } => assert_eq!(text, r#"{"decision":"allow"}"#),
        _ => panic!("the answer is written"),
    }
    let step = dispatch_grok_hook(step.run, DispatchEvent::Panicked);
    assert!(matches!(step.action, DispatchAction::Exit { code: 0 }));
}

#[test]
fn what_fails_before_the_hook_ends_the_run_in_silence() {
    let failures: [fn(&DispatchAction<String>) -> Option<Event>; 4] = [
        |action| matches!(action, DispatchAction::ReadInput).then_some(DispatchEvent::Input(None)),
        |action| {
            matches!(action, DispatchAction::OpenDatabase).then_some(DispatchEvent::Database(false))
        },
        |action| matches!(action, DispatchAction::CheckGate).then_some(DispatchEvent::Gate(None)),
        |action| matches!(action, DispatchAction::CheckGate).then_some(DispatchEvent::Started),
    ];
    for failure in failures {
        let outcome = run("grok-stop", &|action| match failure(action) {
            Some(event) => event,
            None => usual(action, "{}", env(None), Some("hi")),
        });
        assert!(outcome.effects.is_empty());
        assert_eq!(outcome.written, None);
        assert_eq!(outcome.code, 0);
    }
}

#[test]
fn input_that_is_no_json_is_warned_of() {
    let outcome = run("grok-stop", &|action| usual(action, "{", env(None), Some("hi")));
    assert_eq!(
        outcome.effects,
        vec!["warn grok-stop EOF while parsing an object at line 1 column 1"]
    );
    assert_eq!(outcome.written, None);
    assert_eq!(outcome.code, 0);
}

#[test]
fn the_warning_says_what_the_stream_reader_says() {
    let inputs: [&[u8]; 6] = [b"", b"[1e999]", b"{} x", b"\"\xff\"", b"\xff", b"{\"a\":\n1,}"];
    for input in inputs {
        let message = serde_json::from_reader::<_, Value>(input).unwrap_err().to_string();
        let reading: Run = HookRun::Reading { hook_name: "grok-stop".to_string() };
        let step = dispatch_grok_hook(reading, DispatchEvent::Input(Some(input.to_vec())));
        let effects: Vec<String> = step.effects.iter().map(describe).collect();
        assert_eq!(effects, vec![format!("warn grok-stop {message}")]);
        assert!(matches!(step.action, DispatchAction::Exit { code: 0 }));
    }
    let outcome = run("grok-stop", &|action| usual(action, "[1e999]", env(None), None));
    assert_eq!(outcome.effects, vec!["warn grok-stop number out of range at line 1 column 7"]);
}

#[test]
fn messages_are_handed_over_for_a_stop_only() {
    let raw = parse_json("{}").unwrap();
    let payload = HookPayload::from_grok("grok-posttooluse", raw);
    let step = after_pending(&payload, text("hi"));
    assert!(matches!(step.next, HookNext::Answer { delivers: false, .. }));
}

#[test]
fn every_command_of_the_table_is_a_hook() {
    for (_, command) in hook_commands() {
        assert!(hook_kind(command) != HookKind::Unknown);
    }
    assert_eq!(hook_kind("grok-stop"), HookKind::Stop);
    assert_eq!(hook_kind("grok-subagentstop"), HookKind::Stop);
    assert_eq!(hook_kind("stop"), HookKind::Unknown);
}
