use grok_hooks::commands::{build_grok_hook_command, hook_commands, is_hcom_grok_command};
use grok_hooks::install::{
    expected_command_hook, has_hcom_hooks, merge_hcom_hooks, remove_hcom_hooks,
    uninstall_hcom_hooks,
};
use grok_hooks::paths::{FilePath, PathRoot};
use grok_hooks::setup::{
    read_json_object, remove_grok_hooks, remove_grok_hooks_at, try_setup_grok_hooks,
    verify_grok_hooks_installed, ExistingFile, FileState, Removal, RemoveAction, RemoveEvent,
    SetupAction, SetupError, SetupEvent,
};
use grok_hooks::wire::{compact_text, parse_json};
use serde_json::Value;

fn prefix() -> Vec<String> {
    vec!["hcom".to_string()]
}

fn existing(content: &Option<String>) -> ExistingFile {
    match content {
        Some(text) => FileState::Text(text.clone()),
        None => FileState::Missing,
    }
}

/// Drives an installation over a file that is held in memory.
fn setup(file: &mut Option<String>) -> Result<(), SetupError> {
    let mut event = SetupEvent::Started;
    loop {
        event = match try_setup_grok_hooks(false, None, &prefix(), event) {
            SetupAction::Read { .. } => SetupEvent::Found(existing(file)),
            SetupAction::Write { text, .. } => {
                *file = Some(text);
                SetupEvent::Written
            }
            SetupAction::ReadBack { .. } => SetupEvent::ReadBack(file.clone()),
            SetupAction::Finish(result) => return result,
        };
    }
}

/// Drives a removal over files that are held in memory.
fn remove(files: &mut Vec<Option<String>>) -> bool {
    let mut event = RemoveEvent::Started;
    loop {
        event = match remove_grok_hooks(files.len(), event) {
            RemoveAction::Read { index } => {
                RemoveEvent::Found { index, file: existing(&files[index]) }
            }
            RemoveAction::Write { index, text } => {
                files[index] = Some(text);
                RemoveEvent::Written { index, ok: true }
            }
            RemoveAction::Finish(done) => return done,
        };
    }
}

fn value(file: &Option<String>) -> Value {
    serde_json::from_str(file.as_ref().unwrap()).unwrap()
}

fn hooks_path() -> FilePath {
    FilePath {
        root: PathRoot::ToolConfigRoot,
        parts: vec![".grok".to_string(), "hooks".to_string(), "hcom.json".to_string()],
    }
}

#[test]
fn setup_is_idempotent_and_preserves_existing_hooks() {
    let mut file = Some(
        r#"{"hooks": {"SessionStart": [{
            "hooks": [{ "type": "command", "command": "./custom-start.sh" }]
        }]}}"#
            .to_string(),
    );

    setup(&mut file).unwrap();
    let first = file.clone().unwrap();
    setup(&mut file).unwrap();
    let second = file.clone().unwrap();

    assert_eq!(first, second);
    assert!(verify_grok_hooks_installed(false, file.as_deref(), &prefix()));
    let root = value(&file);
    let session_start = root["hooks"]["SessionStart"].as_array().unwrap();
    assert!(session_start.iter().any(|group| {
        group["hooks"]
            .as_array()
            .unwrap()
            .iter()
            .any(|hook| hook["command"] == "./custom-start.sh")
    }));
    assert!(session_start.iter().any(|group| {
        group["hooks"].as_array().unwrap().iter().any(|hook| {
            hook["command"] == build_grok_hook_command(&prefix(), "grok-sessionstart")
        })
    }));
}

#[test]
fn setup_replaces_stale_hcom_commands() {
    let mut file = Some(
        r#"{"hooks": {"Stop": [{"hooks": [
            { "type": "command", "command": "hcom grok-stop" },
            { "type": "command", "command": "uvx hcom grok-stop" },
            { "type": "command", "command": "./custom-stop.sh" }
        ]}]}}"#
            .to_string(),
    );

    setup(&mut file).unwrap();

    let root = value(&file);
    let stop = root["hooks"]["Stop"].as_array().unwrap();
    let all_commands: Vec<&str> = stop
        .iter()
        .flat_map(|g| g["hooks"].as_array().unwrap())
        .filter_map(|h| h["command"].as_str())
        .collect();
    assert_eq!(all_commands.iter().filter(|c| is_hcom_grok_command(c)).count(), 1);
    assert!(!all_commands.contains(&"uvx hcom grok-stop"));
    assert!(all_commands.contains(&"./custom-stop.sh"));
}

#[test]
fn remove_preserves_unrelated_hooks() {
    let mut file = Some(
        r#"{"hooks": {"SessionEnd": [{
            "hooks": [{ "type": "command", "command": "./custom-end.sh" }]
        }]}}"#
            .to_string(),
    );

    setup(&mut file).unwrap();
    let mut files = vec![None, file];
    assert!(remove(&mut files));

    let root = value(&files[1]);
    let expected: Value = serde_json::from_str(
        r#"[{ "hooks": [{ "type": "command", "command": "./custom-end.sh" }] }]"#,
    )
    .unwrap();
    assert_eq!(root["hooks"]["SessionEnd"], expected);
    assert!(root["hooks"].as_object().unwrap().get("SessionStart").is_none());
}

#[test]
fn setup_of_a_missing_file_writes_all_the_events() {
    let mut file = None;
    setup(&mut file).unwrap();
    let root = value(&file);
    for (event, command) in hook_commands() {
        let expected: Value = serde_json::from_str(&format!(
            r#"[{{"hooks":[{{"type":"command","command":"hcom {command}","timeout":15}}]}}]"#
        ))
        .unwrap();
        assert_eq!(root["hooks"][event], expected);
    }
    assert_eq!(root["hooks"].as_object().unwrap().len(), 8);
}

#[test]
fn the_steps_of_a_setup() {
    let no_permissions = false;
    let home = Some(" /opt/grok ");
    let dir = FilePath {
        root: PathRoot::Given("/opt/grok".to_string()),
        parts: vec!["hooks".to_string()],
    };
    let path = FilePath {
        root: PathRoot::Given("/opt/grok".to_string()),
        parts: vec!["hooks".to_string(), "hcom.json".to_string()],
    };
    let step = |event| try_setup_grok_hooks(no_permissions, home, &prefix(), event);
    assert!(matches!(step(SetupEvent::Started), SetupAction::Read { path: p } if p == path));
    match step(SetupEvent::Found(FileState::Missing)) {
        SetupAction::Write { dir: d, path: p, text } => {
            assert_eq!(d, dir);
            assert_eq!(p, path);
            assert!(verify_grok_hooks_installed(true, Some(&text), &prefix()));
        }
        _ => panic!("a missing file is written"),
    }
    assert!(matches!(step(SetupEvent::Written), SetupAction::ReadBack { path: p } if p == path));
}

#[test]
fn every_setup_error() {
    let step = |event| try_setup_grok_hooks(false, None, &prefix(), event);
    match step(SetupEvent::Found(FileState::Unreadable("denied".to_string()))) {
        SetupAction::Finish(Err(SetupError::ExistingReadFailed { path, source })) => {
            assert_eq!(path, hooks_path());
            assert_eq!(source, "denied");
        }
        _ => panic!("unreadable"),
    }
    match step(SetupEvent::Found(FileState::Text("{".to_string()))) {
        SetupAction::Finish(Err(SetupError::ExistingParseFailed { path, source })) => {
            assert_eq!(path, hooks_path());
            assert_eq!(source.to_string(), "EOF while parsing an object at line 1 column 1");
        }
        _ => panic!("no JSON"),
    }
    match step(SetupEvent::Found(FileState::Text("[]".to_string()))) {
        SetupAction::Finish(Err(SetupError::ExistingRootNotObject { path })) => {
            assert_eq!(path, hooks_path());
        }
        _ => panic!("no object"),
    }
    match step(SetupEvent::DirFailed("full".to_string())) {
        SetupAction::Finish(Err(SetupError::DirCreateFailed { path, source })) => {
            assert_eq!(path.parts, vec![".grok".to_string(), "hooks".to_string()]);
            assert_eq!(source, "full");
        }
        _ => panic!("no directory"),
    }
    match step(SetupEvent::WriteFailed("full".to_string())) {
        SetupAction::Finish(Err(SetupError::AtomicWriteFailed { path, source })) => {
            assert_eq!(path, hooks_path());
            assert_eq!(source, "full");
        }
        _ => panic!("not written"),
    }
    match step(SetupEvent::ReadBack(Some("{}".to_string()))) {
        SetupAction::Finish(Err(SetupError::PostWriteVerifyFailed(path))) => {
            assert_eq!(path, hooks_path());
        }
        _ => panic!("not there"),
    }
    assert!(matches!(
        step(SetupEvent::ReadBack(None)),
        SetupAction::Finish(Err(SetupError::PostWriteVerifyFailed(_)))
    ));
}

#[test]
fn verifying_asks_for_every_event_and_for_the_type() {
    let mut file = None;
    setup(&mut file).unwrap();
    let text = file.unwrap();
    assert!(verify_grok_hooks_installed(false, Some(&text), &prefix()));
    let other = vec!["uvx".to_string(), "hcom".to_string()];
    assert!(!verify_grok_hooks_installed(false, Some(&text), &other));
    let without = text.replace("\"PreToolUse\"", "\"Other\"");
    assert!(!verify_grok_hooks_installed(false, Some(&without), &prefix()));
    let mistyped = text.replacen("\"type\": \"command\"", "\"type\": \"http\"", 1);
    assert!(!verify_grok_hooks_installed(false, Some(&mistyped), &prefix()));
    assert!(!verify_grok_hooks_installed(false, None, &prefix()));
    assert!(!verify_grok_hooks_installed(false, Some("no json"), &prefix()));
    assert!(!verify_grok_hooks_installed(false, Some("[]"), &prefix()));
    assert!(!verify_grok_hooks_installed(false, Some(r#"{"hooks":[]}"#), &prefix()));
}

fn merged(text: &str, prefix: &Vec<String>) -> String {
    let mut root = parse_json(text).unwrap();
    merge_hcom_hooks(&mut root, prefix);
    assert!(has_hcom_hooks(&root, prefix));
    compact_text(root).unwrap()
}

fn uninstalled(text: &str) -> String {
    compact_text(uninstall_hcom_hooks(parse_json(text).unwrap())).unwrap()
}

#[test]
fn a_later_merge_replaces_an_earlier_one() {
    let text = r#"{"a":1,"hooks":{"Stop":[7,{"hooks":[{"command":"x"}],"matcher":"m"}],"Other":"y"}}"#;
    let earlier = vec!["uvx".to_string(), "hcom".to_string()];
    assert_eq!(merged(&merged(text, &earlier), &prefix()), merged(text, &prefix()));
}

#[test]
fn merging_keeps_what_is_not_its_own() {
    let text = r#"{"version":3,"hooks":{"Custom":[{"hooks":[{"command":"hcom grok-stop"}]}],"Stop":{"odd":1}}}"#;
    let root: Value = serde_json::from_str(&merged(text, &prefix())).unwrap();
    assert_eq!(root["version"], 3);
    assert_eq!(root["hooks"]["Custom"][0]["hooks"][0]["command"], "hcom grok-stop");
    assert_eq!(root["hooks"]["Stop"].as_array().unwrap().len(), 1);
}

#[test]
fn merging_drops_idle_groups_unless_they_are_annotated() {
    let text = r#"{"hooks":{"Stop":[
        {"hooks":[{"command":"hcom grok-stop"}],"matcher":"*"},
        {"hooks":[{"command":"hcom grok-stop"}],"name":"kept"},
        {"hooks":[]},
        {"matcher":"no entries"},
        "text"
    ]}}"#;
    let root: Value = serde_json::from_str(&merged(text, &prefix())).unwrap();
    let stop = root["hooks"]["Stop"].as_array().unwrap();
    assert_eq!(stop.len(), 4);
    assert_eq!(stop[0]["name"], "kept");
    assert_eq!(stop[0]["hooks"].as_array().unwrap().len(), 0);
    assert_eq!(stop[1]["matcher"], "no entries");
    assert_eq!(stop[2], "text");
    assert_eq!(stop[3]["hooks"][0]["command"], "hcom grok-stop");
}

#[test]
fn merging_into_what_is_no_object_starts_anew() {
    assert_eq!(merged("[1,2]", &prefix()), merged("{}", &prefix()));
    assert_eq!(merged(r#"{"hooks":null}"#, &prefix()), merged("{}", &prefix()));
}

#[test]
fn the_expected_entry() {
    let entry = compact_text(expected_command_hook(&prefix(), "grok-stop")).unwrap();
    assert_eq!(entry, r#"{"command":"hcom grok-stop","timeout":15,"type":"command"}"#);
}

#[test]
fn removal_undoes_merging() {
    let texts = vec![
        r#"{}"#,
        r#"[]"#,
        r#"{"hooks":5,"a":1}"#,
        r#"{"a":1,"hooks":{"Stop":[{"hooks":[{"command":"x"}]},{"hooks":[]}],"Other":[{"hooks":[{"command":"hcom grok-stop"},{"command":"z"}]}]}}"#,
    ];
    for text in texts {
        assert_eq!(uninstalled(&merged(text, &prefix())), uninstalled(text));
        assert_eq!(uninstalled(&uninstalled(text)), uninstalled(text));
        let root = parse_json(&uninstalled(text)).unwrap();
        assert!(!has_hcom_hooks(&root, &prefix()));
    }
}

#[test]
fn removal_reaches_every_event_and_drops_those_left_empty() {
    let text = r#"{"a":1,"hooks":{"Mine":[{"hooks":[{"command":"hcom grok-stop"}],"name":"n"}],"Kept":[{"hooks":[{"command":"x"},{"command":"uvx hcom grok-stop"}]}],"Odd":3,"Empty":[]}}"#;
    assert_eq!(uninstalled(text), r#"{"a":1,"hooks":{"Kept":[{"hooks":[{"command":"x"}]}]}}"#);
}

#[test]
fn a_file_with_no_event_left_becomes_the_empty_one() {
    assert_eq!(uninstalled(r#"{"a":1,"hooks":{}}"#), r#"{"hooks":{}}"#);
    assert_eq!(uninstalled(r#"{"a":1}"#), r#"{"hooks":{}}"#);
    assert_eq!(uninstalled(&merged("{}", &prefix())), r#"{"hooks":{}}"#);
}

#[test]
fn removing_leaves_a_file_without_events_as_it_is() {
    let mut root = parse_json(r#"{"a":1,"hooks":[2]}"#).unwrap();
    remove_hcom_hooks(&mut root);
    assert_eq!(compact_text(root).unwrap(), r#"{"a":1,"hooks":[2]}"#);
}

#[test]
fn removal_from_one_file() {
    assert!(matches!(remove_grok_hooks_at(&FileState::Missing), Removal::AlreadyGone));
    let unreadable = FileState::Unreadable("denied".to_string());
    assert!(matches!(remove_grok_hooks_at(&unreadable), Removal::Refused));
    assert!(matches!(remove_grok_hooks_at(&FileState::Text("{".to_string())), Removal::Refused));
    assert!(matches!(remove_grok_hooks_at(&FileState::Text("[]".to_string())), Removal::Refused));
    match remove_grok_hooks_at(&FileState::Text("{}".to_string())) {
        Removal::Rewrite(text) => assert_eq!(text, "{\n  \"hooks\": {}\n}"),
        _ => panic!("an object is rewritten"),
    }
}

#[test]
fn removal_stops_at_the_first_file_that_fails() {
    let mut installed = None;
    setup(&mut installed).unwrap();
    let mut files = vec![None, Some("[]".to_string()), installed.clone()];
    assert!(!remove(&mut files));
    assert_eq!(files[2], installed);
    assert!(remove(&mut vec![None, installed, None]));
    assert!(remove(&mut vec![]));
    assert!(matches!(
        remove_grok_hooks(2, RemoveEvent::Written { index: 0, ok: false }),
        RemoveAction::Finish(false)
    ));
    assert!(matches!(
        remove_grok_hooks(2, RemoveEvent::Written { index: 0, ok: true }),
        RemoveAction::Read { index: 1 }
    ));
}

#[test]
fn reading_the_object_of_a_file() {
    let object = read_json_object(hooks_path(), &FileState::Text(r#"{"a":1}"#.to_string())).unwrap();
    assert!(object.get("a").is_some());
    assert!(read_json_object(hooks_path(), &FileState::Missing).unwrap().is_empty());
    assert!(read_json_object(hooks_path(), &FileState::Text("1".to_string())).is_err());
}

#[test]
fn decimals_do_not_disturb_an_installation() {
    let mut file = Some(r#"{"a":1.5,"b":[-0.0,1e200,5e-324,1e300]}"#.to_string());
    setup(&mut file).unwrap();
    assert!(verify_grok_hooks_installed(false, file.as_deref(), &prefix()));
    let root = value(&file);
    assert_eq!(root["a"], 1.5);
    let mut files = vec![file];
    assert!(remove(&mut files));
    assert!(!verify_grok_hooks_installed(false, files[0].as_deref(), &prefix()));
}

#[test]
fn removal_undoes_an_installation_to_the_letter() {
    let texts = vec![
        r#"{"a":1,"hooks":{"Stop":[{"hooks":[{"command":"x"}]}],"Other":[{"hooks":[]}]}}"#,
        r#"{"a":-7}"#,
        "{}",
    ];
    for text in texts {
        let mut before = vec![Some(text.to_string())];
        assert!(remove(&mut before));
        let mut file = Some(text.to_string());
        setup(&mut file).unwrap();
        let mut after = vec![file];
        assert!(remove(&mut after));
        assert_eq!(after, before);
        assert!(remove(&mut after));
        assert_eq!(after, before);
    }
}

#[test]
fn after_a_removal_the_test_fails_whatever_the_numbers() {
    let texts = vec![
        r#"{"a":1.7976931348623157e308,"hooks":{"Stop":[{"hooks":[{"command":"x"}],"n":1.7976931348623157e308}]}}"#,
        r#"{"a":0.1,"hooks":{"Stop":[{"hooks":[{"command":"hcom grok-stop","type":"command"}]}]}}"#,
    ];
    for text in texts {
        let mut files = vec![None, Some(text.to_string())];
        assert!(remove(&mut files));
        for file in files {
            assert!(!verify_grok_hooks_installed(true, file.as_deref(), &prefix()));
        }
    }
}

#[test]
fn a_large_decimal_may_come_back_as_its_neighbour() {
    let mut file = Some(r#"{"a":7.1e295}"#.to_string());
    setup(&mut file).unwrap();
    let first = file.clone();
    setup(&mut file).unwrap();
    assert_ne!(file, first);
    assert!(verify_grok_hooks_installed(false, file.as_deref(), &prefix()));
}

#[test]
fn a_decimal_that_comes_back_as_it_was_settles() {
    let text = r#"{"a":1.5,"hooks":{"Stop":[{"hooks":[{"command":"x","timeout":0.25}]}]}}"#;
    let mut file = Some(text.to_string());
    setup(&mut file).unwrap();
    let first = file.clone();
    setup(&mut file).unwrap();
    assert_eq!(file, first);
    let mut after = vec![file];
    let mut before = vec![Some(text.to_string())];
    assert!(remove(&mut after));
    assert!(remove(&mut before));
    assert_eq!(after, before);
    assert!(remove(&mut after));
    assert_eq!(after, before);
}
