use grok_hooks::commands::{build_grok_hook_command, hook_commands, is_hcom_grok_command};

#[test]
fn is_hcom_grok_command_matches_prefix_variants() {
    assert!(is_hcom_grok_command("hcom grok-stop"));
    assert!(is_hcom_grok_command("uvx hcom grok-stop"));
    assert!(is_hcom_grok_command("hcom grok-subagentstop"));
    assert!(!is_hcom_grok_command("./custom-stop.sh"));
}

#[test]
fn only_the_last_word_counts() {
    assert!(is_hcom_grok_command("grok-sessionend"));
    assert!(is_hcom_grok_command("  hcom\tgrok-pretooluse \n"));
    assert!(is_hcom_grok_command("hcom\u{2003}grok-stop\u{a0}"));
    assert!(!is_hcom_grok_command(""));
    assert!(!is_hcom_grok_command("   "));
    assert!(!is_hcom_grok_command("hcom grok-stop --verbose"));
    assert!(!is_hcom_grok_command("hcom-grok-stop"));
    assert!(!is_hcom_grok_command("hcom GROK-STOP"));
}

#[test]
fn a_command_line_is_the_prefix_and_the_subcommand() {
    let prefix = vec!["uvx".to_string(), "hcom".to_string()];
    assert_eq!(build_grok_hook_command(&prefix, "grok-stop"), "uvx hcom grok-stop");
    assert_eq!(build_grok_hook_command(&Vec::new(), "grok-stop"), "grok-stop");
}

#[test]
fn every_built_command_is_recognised() {
    let prefixes = vec![
        vec![],
        vec!["hcom".to_string()],
        vec!["uvx".to_string(), "hcom".to_string()],
        vec!["".to_string()],
    ];
    for prefix in prefixes {
        for (_, command) in hook_commands() {
            assert!(is_hcom_grok_command(&build_grok_hook_command(&prefix, command)));
        }
    }
}

#[test]
fn there_are_eight_events() {
    let table = hook_commands();
    assert_eq!(table.len(), 8);
    assert_eq!(table[0], ("SessionStart", "grok-sessionstart"));
    assert_eq!(table[7], ("SessionEnd", "grok-sessionend"));
}
