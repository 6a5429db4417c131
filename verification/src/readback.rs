//! Which hooks files are read back as they were written.
use crate::commands::{command_line, grok_hook_commands, HOOK_TIMEOUT_SECS};
use crate::install::{
    all_without_hcom, cleared, cleared_events, command_of, elements_or_none, empty_file,
    entries_run_line, event_runs_line, foreign_entries, group_runs_line, hcom_entry, hcom_group,
    is_annotated, is_hcom_entry, is_hook_event, is_idle, is_installed, kept_by_merge,
    kept_by_removal, members_or_none, merged, merged_events, runs_line, uninstalled, without_hcom,
};
use crate::install_laws::lemma_filter_members;
use crate::json::{Members, Num, Tree};
use crate::wire::{
    alike_within, elements_alike_within, elements_nested_within, elements_numbers_within,
    members_alike_within, members_nested_within, members_numbers_within, numbers_within,
    sound_within, DEPTH_LIMIT,
};
use vstd::prelude::*;

verus! {

/// An array is sound where each element is, one level less deep.
proof fn lemma_sound_elements(elements: Seq<Tree>, levels: nat, cond: spec_fn(Num) -> bool)
    ensures
        sound_within(Tree::Array(elements), levels, cond) <==> levels > 0 && forall|i: int|
            0 <= i < elements.len() ==> sound_within(#[trigger] elements[i], (levels - 1) as nat, cond),
{
    if levels > 0 {
        let below = (levels - 1) as nat;
        if sound_within(Tree::Array(elements), levels, cond) {
            assert(elements_nested_within(elements, below));
            assert(elements_numbers_within(elements, below, cond));
        }
        if forall|i: int| 0 <= i < elements.len() ==> sound_within(#[trigger] elements[i], below, cond) {
            assert(elements_nested_within(elements, below));
            assert(elements_numbers_within(elements, below, cond));
        }
    }
}

/// An object is sound where each member is, one level less deep.
pub proof fn lemma_sound_members(members: Members, levels: nat, cond: spec_fn(Num) -> bool)
    ensures
        sound_within(Tree::Object(members), levels, cond) <==> levels > 0 && forall|key: Seq<char>|
            members.dom().contains(key) ==> sound_within(#[trigger] members[key], (levels - 1) as nat, cond),
{
    if levels > 0 {
        let below = (levels - 1) as nat;
        if sound_within(Tree::Object(members), levels, cond) {
            assert(members_nested_within(members, below));
            assert(members_numbers_within(members, below, cond));
        }
        if forall|key: Seq<char>|
            members.dom().contains(key) ==> sound_within(#[trigger] members[key], below, cond) {
            assert(members_nested_within(members, below));
            assert(members_numbers_within(members, below, cond));
        }
    }
}

proof fn lemma_sound_group(group: Tree, levels: nat, cond: spec_fn(Num) -> bool)
    requires
        sound_within(group, levels, cond),
    ensures
        sound_within(without_hcom(group), levels, cond),
{
    if let Some(entries) = group.array_at("hooks"@) {
        let members = group->Object_0;
        lemma_sound_members(members, levels, cond);
        assert(sound_within(members["hooks"@], (levels - 1) as nat, cond));
        let below = (levels - 1) as nat;
        lemma_sound_elements(entries, below, cond);
        let kept = foreign_entries(entries);
        lemma_filter_members(entries, |entry: Tree| !is_hcom_entry(entry));
        assert forall|i: int| 0 <= i < kept.len() implies sound_within(
            #[trigger] kept[i],
            (below - 1) as nat, cond,
        ) by {
            let k = choose|k: int| 0 <= k < entries.len() && entries[k] == kept[i];
            assert(sound_within(entries[k], (below - 1) as nat, cond));
        }
        lemma_sound_elements(kept, below, cond);
        let stripped = members.insert("hooks"@, Tree::Array(kept));
        assert forall|key: Seq<char>| stripped.dom().contains(key) implies sound_within(
            #[trigger] stripped[key],
            below,
            cond,
        ) by {
            if key != "hooks"@ {
                assert(sound_within(members[key], below, cond));
            }
        }
        lemma_sound_members(stripped, levels, cond);
    }
}

proof fn lemma_sound_groups(
    groups: Seq<Tree>,
    pred: spec_fn(Tree) -> bool,
    levels: nat,
    cond: spec_fn(Num) -> bool,
)
    requires
        forall|i: int| 0 <= i < groups.len() ==> sound_within(#[trigger] groups[i], levels, cond),
    ensures
        forall|i: int|
            0 <= i < all_without_hcom(groups).filter(pred).len() ==> sound_within(
                #[trigger] all_without_hcom(groups).filter(pred)[i],
                levels,
                cond,
            ),
{
    let stripped = all_without_hcom(groups);
    lemma_filter_members(stripped, pred);
    assert forall|i: int| 0 <= i < stripped.filter(pred).len() implies sound_within(
        #[trigger] stripped.filter(pred)[i],
        levels,
        cond,
    ) by {
        let k = choose|k: int| 0 <= k < stripped.len() && stripped[k] == stripped.filter(pred)[i];
        assert(sound_within(groups[k], levels, cond));
        lemma_sound_group(groups[k], levels, cond);
        assert(stripped[k] == without_hcom(groups[k]));
    }
}

proof fn lemma_sound_hcom_group(
    prefix: Seq<Seq<char>>,
    command: Seq<char>,
    levels: nat,
    cond: spec_fn(Num) -> bool,
)
    requires
        levels >= 3,
        cond(Num::Unsigned(HOOK_TIMEOUT_SECS)),
    ensures
        sound_within(hcom_group(prefix, command), levels, cond),
{
    let entry = hcom_entry(prefix, command);
    let fields = entry->Object_0;
    assert forall|key: Seq<char>| fields.dom().contains(key) implies sound_within(
        #[trigger] fields[key],
        (levels - 3) as nat, cond,
    ) by {
        assert(key == "type"@ || key == "command"@ || key == "timeout"@);
        assert(!(fields[key] is Array) && !(fields[key] is Object));
    }
    lemma_sound_members(fields, (levels - 2) as nat, cond);
    lemma_sound_elements(seq![entry], (levels - 1) as nat, cond);
    let members = hcom_group(prefix, command)->Object_0;
    assert forall|key: Seq<char>| members.dom().contains(key) implies sound_within(
        #[trigger] members[key],
        (levels - 1) as nat, cond,
    ) by {
        assert(key == "hooks"@);
    }
    lemma_sound_members(members, levels, cond);
}

/// The groups of an event of a sound file.
proof fn lemma_sound_event_groups(
    hooks: Members,
    event: Seq<char>,
    levels: nat,
    cond: spec_fn(Num) -> bool,
)
    requires
        levels > 0,
        forall|key: Seq<char>|
            hooks.dom().contains(key) ==> sound_within(#[trigger] hooks[key], levels, cond),
    ensures
        forall|i: int|
            0 <= i < elements_or_none(Tree::Object(hooks).get(event)).len() ==> sound_within(
                #[trigger] elements_or_none(Tree::Object(hooks).get(event))[i],
                (levels - 1) as nat, cond,
            ),
{
    if hooks.dom().contains(event) {
        assert(sound_within(hooks[event], levels, cond));
        if let Tree::Array(groups) = hooks[event] {
            lemma_sound_elements(groups, levels, cond);
        }
    }
}

/// The events of a sound file.
proof fn lemma_sound_hooks(root: Tree, levels: nat, cond: spec_fn(Num) -> bool)
    requires
        sound_within(root, levels, cond),
        levels >= 2,
    ensures
        forall|key: Seq<char>|
            members_or_none(root.get("hooks"@)).dom().contains(key) ==> sound_within(
                #[trigger] members_or_none(root.get("hooks"@))[key],
                (levels - 2) as nat, cond,
            ),
{
    if let Tree::Object(members) = root {
        lemma_sound_members(members, levels, cond);
        if members.dom().contains("hooks"@) {
            assert(sound_within(members["hooks"@], (levels - 1) as nat, cond));
            if let Tree::Object(hooks) = members["hooks"@] {
                lemma_sound_members(hooks, (levels - 1) as nat, cond);
            }
        }
    }
}

/// Putting the hooks in makes a file neither too deep to be read nor brings other numbers into
/// it than the time that Grok waits.
pub proof fn merged_file_is_sound(
    root: Tree,
    prefix: Seq<Seq<char>>,
    cond: spec_fn(Num) -> bool,
)
    requires
        cond(Num::Unsigned(HOOK_TIMEOUT_SECS)),
        sound_within(root, DEPTH_LIMIT as nat, cond),
    ensures
        sound_within(merged(root, prefix), DEPTH_LIMIT as nat, cond),
{
    let levels = DEPTH_LIMIT as nat;
    let below = (levels - 2) as nat;
    let members = members_or_none(Some(root));
    let hooks = members_or_none(Tree::Object(members).get("hooks"@));
    assert(hooks =~= members_or_none(root.get("hooks"@)));
    lemma_sound_hooks(root, levels, cond);
    let events = merged_events(hooks, prefix);
    assert forall|event: Seq<char>| events.dom().contains(event) implies sound_within(
        #[trigger] events[event],
        below,
        cond,
    ) by {
        if is_hook_event(event) {
            let groups = elements_or_none(Tree::Object(hooks).get(event));
            lemma_sound_event_groups(hooks, event, below, cond);
            let pred = |group: Tree| !is_idle(group) || is_annotated(group);
            lemma_sound_groups(groups, pred, (below - 1) as nat, cond);
            let group = hcom_group(prefix, command_of(event));
            lemma_sound_hcom_group(prefix, command_of(event), (below - 1) as nat, cond);
            let after = kept_by_merge(groups).push(group);
            assert forall|i: int| 0 <= i < after.len() implies sound_within(
                #[trigger] after[i],
                (below - 1) as nat, cond,
            ) by {
                if i < kept_by_merge(groups).len() {
                    assert(after[i] == all_without_hcom(groups).filter(pred)[i]);
                }
            }
            lemma_sound_elements(after, below, cond);
        } else {
            assert(sound_within(hooks[event], below, cond));
        }
    }
    lemma_sound_members(events, (levels - 1) as nat, cond);
    let after = members.insert("hooks"@, Tree::Object(events));
    if root is Object {
        lemma_sound_members(members, levels, cond);
    }
    assert forall|key: Seq<char>| after.dom().contains(key) implies sound_within(
        #[trigger] after[key],
        (levels - 1) as nat, cond,
    ) by {
        if key != "hooks"@ {
            assert(sound_within(members[key], (levels - 1) as nat, cond));
        }
    }
    lemma_sound_members(after, levels, cond);
}

/// Taking the hooks out makes a file neither too deep to be read nor brings other numbers into
/// it.
pub proof fn uninstalled_file_is_sound(root: Tree, cond: spec_fn(Num) -> bool)
    requires
        sound_within(root, DEPTH_LIMIT as nat, cond),
    ensures
        sound_within(uninstalled(root), DEPTH_LIMIT as nat, cond),
{
    let levels = DEPTH_LIMIT as nat;
    let below = (levels - 2) as nat;
    let empty = empty_file()->Object_0;
    lemma_sound_members(Members::empty(), (levels - 1) as nat, cond);
    assert forall|key: Seq<char>| empty.dom().contains(key) implies sound_within(
        #[trigger] empty[key],
        (levels - 1) as nat, cond,
    ) by {
        assert(key == "hooks"@);
    }
    lemma_sound_members(empty, levels, cond);
    if let Some(hooks) = root.object_at("hooks"@) {
        lemma_sound_hooks(root, levels, cond);
        assert(hooks == members_or_none(root.get("hooks"@)));
        let events = cleared_events(hooks);
        assert forall|event: Seq<char>| events.dom().contains(event) implies sound_within(
            #[trigger] events[event],
            below,
            cond,
        ) by {
            let groups = elements_or_none(Tree::Object(hooks).get(event));
            assert(groups == hooks[event]->Array_0);
            lemma_sound_event_groups(hooks, event, below, cond);
            lemma_sound_groups(groups, |group: Tree| !is_idle(group), (below - 1) as nat, cond);
            lemma_sound_elements(kept_by_removal(groups), below, cond);
        }
        lemma_sound_members(events, (levels - 1) as nat, cond);
        let members = root->Object_0;
        lemma_sound_members(members, levels, cond);
        let after = members.insert("hooks"@, Tree::Object(events));
        assert forall|key: Seq<char>| after.dom().contains(key) implies sound_within(
            #[trigger] after[key],
            (levels - 1) as nat, cond,
        ) by {
            if key != "hooks"@ {
                assert(sound_within(members[key], (levels - 1) as nat, cond));
            }
        }
        lemma_sound_members(after, levels, cond);
        assert(cleared(root) == Tree::Object(after));
    }
}

/// Every number.
pub open spec fn any_number() -> spec_fn(Num) -> bool {
    |n: Num| true
}

/// The numbers of every value are numbers.
pub proof fn lemma_any_number(tree: Tree, levels: nat)
    ensures
        numbers_within(tree, levels, any_number()),
    decreases levels,
{
    if levels > 0 {
        let below = (levels - 1) as nat;
        match tree {
            Tree::Array(elements) => {
                assert forall|i: int| 0 <= i < elements.len() implies numbers_within(
                    #[trigger] elements[i],
                    below,
                    any_number(),
                ) by {
                    lemma_any_number(elements[i], below);
                }
                assert(elements_numbers_within(elements, below, any_number()));
            },
            Tree::Object(members) => {
                assert forall|key: Seq<char>| members.dom().contains(key) implies numbers_within(
                    #[trigger] members[key],
                    below,
                    any_number(),
                ) by {
                    lemma_any_number(members[key], below);
                }
                assert(members_numbers_within(members, below, any_number()));
            },
            _ => {},
        }
    }
}

/// Values that are alike have the same text in each member.
proof fn lemma_alike_text(a: Tree, b: Tree, key: Seq<char>, levels: nat)
    requires
        alike_within(a, b, levels),
        levels > 0,
    ensures
        a.str_at(key) == b.str_at(key),
{
    if let (Tree::Object(x), Tree::Object(y)) = (a, b) {
        assert(members_alike_within(x, y, (levels - 1) as nat));
        if x.dom().contains(key) {
            assert(alike_within(x[key], y[key], (levels - 1) as nat));
        }
    }
}

/// Values that are alike have alike members.
proof fn lemma_alike_member(a: Tree, b: Tree, key: Seq<char>, levels: nat)
    requires
        alike_within(a, b, levels),
        levels > 0,
    ensures
        a.get(key) is Some <==> b.get(key) is Some,
        a.get(key) is Some ==> alike_within(
            a.get(key)->Some_0,
            b.get(key)->Some_0,
            (levels - 1) as nat,
        ),
{
    if let (Tree::Object(x), Tree::Object(y)) = (a, b) {
        assert(members_alike_within(x, y, (levels - 1) as nat));
        if x.dom().contains(key) {
            assert(alike_within(x[key], y[key], (levels - 1) as nat));
        }
    }
}

proof fn lemma_alike_group(a: Tree, b: Tree, line: Seq<char>, levels: nat)
    requires
        alike_within(a, b, levels),
        levels > 2,
        group_runs_line(a, line),
    ensures
        group_runs_line(b, line),
{
    lemma_alike_member(a, b, "hooks"@, levels);
    let x = a.array_at("hooks"@)->Some_0;
    let y = b.array_at("hooks"@)->Some_0;
    assert(elements_alike_within(x, y, (levels - 2) as nat));
    assert(entries_run_line(x, line));
    let i = choose|i: int| 0 <= i < x.len() && runs_line(#[trigger] x[i], line);
    lemma_alike_text(x[i], y[i], "command"@, (levels - 2) as nat);
    lemma_alike_text(x[i], y[i], "type"@, (levels - 2) as nat);
    assert(runs_line(y[i], line));
    assert(entries_run_line(y, line));
}

proof fn lemma_alike_installed(a: Tree, b: Tree, prefix: Seq<Seq<char>>, levels: nat)
    requires
        alike_within(a, b, levels),
        levels > 5,
        is_installed(a, prefix),
    ensures
        is_installed(b, prefix),
{
    lemma_alike_member(a, b, "hooks"@, levels);
    let x = a.object_at("hooks"@)->Some_0;
    let y = b.object_at("hooks"@)->Some_0;
    assert(b.object_at("hooks"@) == Some(y));
    assert forall|i: int| 0 <= i < grok_hook_commands().len() implies event_runs_line(
        y,
        (#[trigger] grok_hook_commands()[i]).0,
        command_line(prefix, grok_hook_commands()[i].1),
    ) by {
        let event = grok_hook_commands()[i].0;
        let line = command_line(prefix, grok_hook_commands()[i].1);
        assert(event_runs_line(x, event, line));
        lemma_alike_member(Tree::Object(x), Tree::Object(y), event, (levels - 1) as nat);
        let before = elements_or_none(Tree::Object(x).get(event));
        let after = elements_or_none(Tree::Object(y).get(event));
        let k = choose|k: int| 0 <= k < before.len() && group_runs_line(#[trigger] before[k], line);
        assert(elements_alike_within(before, after, (levels - 3) as nat));
        assert(alike_within(before[k], after[k], (levels - 3) as nat));
        lemma_alike_group(before[k], after[k], line, (levels - 3) as nat);
        assert(group_runs_line(after[k], line));
    }
}

/// Being alike goes both ways.
proof fn lemma_alike_symmetric(a: Tree, b: Tree, levels: nat)
    requires
        alike_within(a, b, levels),
    ensures
        alike_within(b, a, levels),
    decreases levels,
{
    match (a, b) {
        (Tree::Array(x), Tree::Array(y)) => if levels > 0 {
            let below = (levels - 1) as nat;
            assert(elements_alike_within(x, y, below));
            assert forall|i: int| 0 <= i < y.len() implies alike_within(
                #[trigger] y[i],
                x[i],
                below,
            ) by {
                assert(alike_within(x[i], y[i], below));
                lemma_alike_symmetric(x[i], y[i], below);
            }
            assert(elements_alike_within(y, x, below));
        },
        (Tree::Object(x), Tree::Object(y)) => if levels > 0 {
            let below = (levels - 1) as nat;
            assert(members_alike_within(x, y, below));
            assert forall|key: Seq<char>| y.dom().contains(key) implies alike_within(
                #[trigger] y[key],
                x[key],
                below,
            ) by {
                assert(alike_within(x[key], y[key], below));
                lemma_alike_symmetric(x[key], y[key], below);
            }
            assert(members_alike_within(y, x, below));
        },
        _ => {},
    }
}

/// Whether the hooks are there does not depend on the decimals of a file.
pub proof fn decimals_do_not_matter(a: Tree, b: Tree, prefix: Seq<Seq<char>>)
    requires
        alike_within(a, b, DEPTH_LIMIT as nat),
    ensures
        is_installed(a, prefix) == is_installed(b, prefix),
{
    let levels = DEPTH_LIMIT as nat;
    if is_installed(a, prefix) {
        lemma_alike_installed(a, b, prefix, levels);
    }
    if is_installed(b, prefix) {
        lemma_alike_symmetric(a, b, levels);
        lemma_alike_installed(b, a, prefix, levels);
    }
}

} // verus!
