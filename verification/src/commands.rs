//! The hook events of Grok and the hcom commands that answer them.
use crate::text::{
    all_white, ascii_lower, join_spaced, joining_goes_on_behind_a_space, last_word,
    last_word_stands_at_the_end,
    lemma_last_word_behind_space, no_white, same_text, spaced, texts, white_space, word_at_end,
};
use vstd::prelude::*;

verus! {

/// How many seconds Grok waits for a hook.
pub const HOOK_TIMEOUT_SECS: u64 = 15;

/// Each Grok event that has a hook, with the hcom subcommand that answers it.
pub open spec fn grok_hook_commands() -> Seq<(Seq<char>, Seq<char>)> {
    seq![
        ("SessionStart"@, "grok-sessionstart"@),
        ("UserPromptSubmit"@, "grok-userpromptsubmit"@),
        ("PreToolUse"@, "grok-pretooluse"@),
        ("PostToolUse"@, "grok-posttooluse"@),
        ("Stop"@, "grok-stop"@),
        ("SubagentStart"@, "grok-subagentstart"@),
        ("SubagentStop"@, "grok-subagentstop"@),
        ("SessionEnd"@, "grok-sessionend"@),
    ]
}

/// Whether a command line calls one of the hcom subcommands: its last word is one of them.
pub open spec fn calls_hcom(line: Seq<char>) -> bool {
    exists|i: int|
        0 <= i < grok_hook_commands().len() && (#[trigger] grok_hook_commands()[i]).1 == last_word(
            line,
        )
}

/// The command line of a subcommand: how hcom is called, and behind it the subcommand.
pub open spec fn command_line(prefix: Seq<Seq<char>>, command: Seq<char>) -> Seq<char> {
    spaced(prefix.push(command))
}

/// The table of events and subcommands.
pub fn hook_commands() -> (table: Vec<(&'static str, &'static str)>)
    ensures
        table@.len() == grok_hook_commands().len(),
        forall|i: int|
            0 <= i < table@.len() ==> ((#[trigger] table@[i]).0@, table@[i].1@)
                == grok_hook_commands()[i],
{
    vec![
        ("SessionStart", "grok-sessionstart"),
        ("UserPromptSubmit", "grok-userpromptsubmit"),
        ("PreToolUse", "grok-pretooluse"),
        ("PostToolUse", "grok-posttooluse"),
        ("Stop", "grok-stop"),
        ("SubagentStart", "grok-subagentstart"),
        ("SubagentStop", "grok-subagentstop"),
        ("SessionEnd", "grok-sessionend"),
    ]
}

/// Whether a command line calls one of the hcom subcommands.
pub fn is_hcom_grok_command(command: &str) -> (ours: bool)
    ensures
        ours == calls_hcom(command@),
{
    let last = word_at_end(command);
    let table = hook_commands();
    let mut i: usize = 0;
    while i < table.len()
        invariant
            i <= table@.len() == grok_hook_commands().len(),
            forall|k: int|
                0 <= k < table@.len() ==> ((#[trigger] table@[k]).0@, table@[k].1@)
                    == grok_hook_commands()[k],
            last@ == last_word(command@),
            forall|k: int| 0 <= k < i ==> (#[trigger] grok_hook_commands()[k]).1 != last@,
        decreases table@.len() - i,
    {
        assert((table@[i as int].0@, table@[i as int].1@) == grok_hook_commands()[i as int]);
        if same_text(last, table[i].1) {
            return true;
        }
        i = i + 1;
    }
    false
}

/// The command line of a subcommand.
pub fn build_grok_hook_command(prefix: &Vec<String>, command: &str) -> (line: String)
    ensures
        line@ == command_line(texts(prefix@), command@),
{
    let mut parts: Vec<String> = Vec::new();
    let mut i: usize = 0;
    while i < prefix.len()
        invariant
            i <= prefix@.len(),
            parts@.len() == i,
            forall|k: int| 0 <= k < i ==> (#[trigger] parts@[k])@ == prefix@[k]@,
        decreases prefix@.len() - i,
    {
        parts.push(prefix[i].clone());
        i = i + 1;
    }
    parts.push(command.to_owned());
    assert(texts(parts@) =~= texts(prefix@).push(command@));
    join_spaced(&parts)
}

/// The words of the table: no two events are the same, and a subcommand is a single word.
pub proof fn lemma_table()
    ensures
        forall|i: int, j: int|
            0 <= i < j < grok_hook_commands().len() ==> (#[trigger] grok_hook_commands()[i]).0 != (
            #[trigger] grok_hook_commands()[j]).0,
        forall|i: int|
            0 <= i < grok_hook_commands().len() ==> (#[trigger] grok_hook_commands()[i]).1.len()
                > 0,
        forall|i: int, k: int|
            0 <= i < grok_hook_commands().len() && 0 <= k < grok_hook_commands()[i].1.len()
                ==> !white_space(#[trigger] grok_hook_commands()[i].1[k]),
{
    reveal_strlit("SessionStart");
    reveal_strlit("UserPromptSubmit");
    reveal_strlit("PreToolUse");
    reveal_strlit("PostToolUse");
    reveal_strlit("Stop");
    reveal_strlit("SubagentStart");
    reveal_strlit("SubagentStop");
    reveal_strlit("SessionEnd");
    let table = grok_hook_commands();
    assert("SessionStart"@.len() == 12);
    assert("UserPromptSubmit"@.len() == 16);
    assert("PreToolUse"@.len() == 10);
    assert("PostToolUse"@.len() == 11);
    assert("Stop"@.len() == 4);
    assert("SubagentStart"@.len() == 13);
    assert("SubagentStop"@.len() == 12);
    assert("SessionEnd"@.len() == 10);
    assert("SessionStart"@[1] != "SubagentStop"@[1]);
    assert("PreToolUse"@[0] != "SessionEnd"@[0]);
    assert forall|i: int, j: int| 0 <= i < j < table.len() implies (#[trigger] table[i]).0 != (
    #[trigger] table[j]).0 by {
        if table[i].0.len() == table[j].0.len() {
            assert((i == 0 && j == 6) || (i == 2 && j == 7));
        }
    }
    reveal_strlit("grok-sessionstart");
    reveal_strlit("grok-userpromptsubmit");
    reveal_strlit("grok-pretooluse");
    reveal_strlit("grok-posttooluse");
    reveal_strlit("grok-stop");
    reveal_strlit("grok-subagentstart");
    reveal_strlit("grok-subagentstop");
    reveal_strlit("grok-sessionend");
}

/// Every command line that is built for an event is recognised as a call of hcom, whatever
/// hcom is called by.
pub proof fn built_command_is_recognised(prefix: Seq<Seq<char>>, i: int)
    requires
        0 <= i < grok_hook_commands().len(),
    ensures
        calls_hcom(command_line(prefix, grok_hook_commands()[i].1)),
{
    lemma_table();
    let command = grok_hook_commands()[i].1;
    assert(prefix.push(command).drop_last() =~= prefix);
    lemma_last_word_behind_space(spaced(prefix), command);
    assert(last_word(command_line(prefix, command)) == command);
}

/// The events that have a hook.
pub proof fn events_with_a_hook(event: Seq<char>)
    ensures
        (exists|i: int|
            0 <= i < grok_hook_commands().len() && (#[trigger] grok_hook_commands()[i]).0 == event)
            <==> {
            ||| event == "SessionStart"@
            ||| event == "UserPromptSubmit"@
            ||| event == "PreToolUse"@
            ||| event == "PostToolUse"@
            ||| event == "Stop"@
            ||| event == "SubagentStart"@
            ||| event == "SubagentStop"@
            ||| event == "SessionEnd"@
        },
{
    let table = grok_hook_commands();
    assert(table[0].0 == "SessionStart"@);
    assert(table[1].0 == "UserPromptSubmit"@);
    assert(table[2].0 == "PreToolUse"@);
    assert(table[3].0 == "PostToolUse"@);
    assert(table[4].0 == "Stop"@);
    assert(table[5].0 == "SubagentStart"@);
    assert(table[6].0 == "SubagentStop"@);
    assert(table[7].0 == "SessionEnd"@);
}

/// A subcommand is named after its event: `grok-` and then the event in small letters.
pub proof fn commands_are_named_after_events(i: int)
    requires
        0 <= i < grok_hook_commands().len(),
    ensures
        grok_hook_commands()[i].1 == "grok-"@ + ascii_lower(grok_hook_commands()[i].0),
{
    reveal_strlit("grok-");
    reveal_strlit("SessionStart");
    reveal_strlit("UserPromptSubmit");
    reveal_strlit("PreToolUse");
    reveal_strlit("PostToolUse");
    reveal_strlit("Stop");
    reveal_strlit("SubagentStart");
    reveal_strlit("SubagentStop");
    reveal_strlit("SessionEnd");
    reveal_strlit("grok-sessionstart");
    reveal_strlit("grok-userpromptsubmit");
    reveal_strlit("grok-pretooluse");
    reveal_strlit("grok-posttooluse");
    reveal_strlit("grok-stop");
    reveal_strlit("grok-subagentstart");
    reveal_strlit("grok-subagentstop");
    reveal_strlit("grok-sessionend");
    assert(grok_hook_commands()[i].1 =~= "grok-"@ + ascii_lower(grok_hook_commands()[i].0));
}

/// Whatever stands before it and whatever white space follows it, the last word alone decides
/// whether a command line calls hcom.
pub proof fn the_last_word_decides(before: Seq<char>, word: Seq<char>, after: Seq<char>)
    requires
        before.len() > 0 ==> white_space(before[before.len() - 1]),
        no_white(word),
        word.len() > 0 || before.len() == 0,
        all_white(after),
    ensures
        calls_hcom(before + word + after) <==> {
            ||| word == "grok-sessionstart"@
            ||| word == "grok-userpromptsubmit"@
            ||| word == "grok-pretooluse"@
            ||| word == "grok-posttooluse"@
            ||| word == "grok-stop"@
            ||| word == "grok-subagentstart"@
            ||| word == "grok-subagentstop"@
            ||| word == "grok-sessionend"@
        },
{
    last_word_stands_at_the_end(before, word, after);
    let table = grok_hook_commands();
    assert(table[0].1 == "grok-sessionstart"@);
    assert(table[1].1 == "grok-userpromptsubmit"@);
    assert(table[2].1 == "grok-pretooluse"@);
    assert(table[3].1 == "grok-posttooluse"@);
    assert(table[4].1 == "grok-stop"@);
    assert(table[5].1 == "grok-subagentstart"@);
    assert(table[6].1 == "grok-subagentstop"@);
    assert(table[7].1 == "grok-sessionend"@);
}

/// A command line is the words that call hcom, in their order, and behind them the subcommand,
/// with single spaces between: putting a word in front of the others puts it and a space in front
/// of the line.
pub proof fn command_lines_grow_at_the_front(
    first: Seq<char>,
    prefix: Seq<Seq<char>>,
    command: Seq<char>,
)
    ensures
        command_line(Seq::empty(), command) == command,
        command_line(seq![first] + prefix, command) == first + seq![' '] + command_line(
            prefix,
            command,
        ),
{
    joining_goes_on_behind_a_space(command, Seq::empty());
    joining_goes_on_behind_a_space(first, prefix.push(command));
    assert(Seq::<Seq<char>>::empty().push(command) =~= seq![command]);
    assert((seq![first] + prefix).push(command) =~= seq![first] + prefix.push(command));
}

} // verus!
