//! What putting the hooks in and taking them out keep, undo and leave alone.
use crate::commands::{
    built_command_is_recognised, command_line, grok_hook_commands, lemma_table,
};
use crate::install::{
    all_without_hcom, cleared, cleared_events, command_of, elements_or_none, empty_file,
    entries_run_line, event_runs_line, foreign_entries, group_runs_line, hcom_entry, hcom_group,
    is_annotated, is_hcom_entry, is_hook_event, is_idle, is_installed, kept_by_merge,
    kept_by_removal, lemma_command_of, members_or_none, merged, merged_events, runs_line,
    survives_removal, uninstalled, without_hcom,
};
use crate::json::{Members, Tree};
use vstd::prelude::*;

verus! {

/// The entries of a group; none where it has no array of them.
pub open spec fn entries_of(group: Tree) -> Seq<Tree> {
    match group.array_at("hooks"@) {
        Some(entries) => entries,
        None => Seq::empty(),
    }
}

/// The entries of all the groups, one after the other.
pub open spec fn all_entries(groups: Seq<Tree>) -> Seq<Tree>
    decreases groups.len(),
{
    if groups.len() == 0 {
        Seq::empty()
    } else {
        all_entries(groups.drop_last()) + entries_of(groups.last())
    }
}

/// The entries that call hcom.
pub open spec fn hcom_entries(entries: Seq<Tree>) -> Seq<Tree> {
    entries.filter(|entry: Tree| is_hcom_entry(entry))
}

/// Filtering two sequences one behind the other filters each of them.
pub proof fn lemma_filter_of_sum(a: Seq<Tree>, b: Seq<Tree>, pred: spec_fn(Tree) -> bool)
    ensures
        (a + b).filter(pred) == a.filter(pred) + b.filter(pred),
    decreases b.len(),
{
    reveal(Seq::filter);
    if b.len() == 0 {
        assert(a + b =~= a);
        assert(a.filter(pred) + b.filter(pred) =~= a.filter(pred));
    } else {
        lemma_filter_of_sum(a, b.drop_last(), pred);
        assert((a + b).drop_last() =~= a + b.drop_last());
        assert((a + b).last() == b.last());
        assert((a + b).filter(pred) =~= a.filter(pred) + b.filter(pred));
    }
}

/// Filtering twice by one condition is filtering once.
proof fn lemma_filter_all(s: Seq<Tree>, pred: spec_fn(Tree) -> bool)
    requires
        forall|i: int| 0 <= i < s.len() ==> pred(#[trigger] s[i]),
    ensures
        s.filter(pred) == s,
    decreases s.len(),
{
    reveal(Seq::filter);
    if s.len() > 0 {
        lemma_filter_all(s.drop_last(), pred);
        assert(pred(s[s.len() - 1]));
        assert(s.drop_last().push(s.last()) =~= s);
    }
}

proof fn lemma_filter_none(s: Seq<Tree>, pred: spec_fn(Tree) -> bool)
    requires
        forall|i: int| 0 <= i < s.len() ==> !pred(#[trigger] s[i]),
    ensures
        s.filter(pred) == Seq::<Tree>::empty(),
    decreases s.len(),
{
    reveal(Seq::filter);
    if s.len() > 0 {
        lemma_filter_none(s.drop_last(), pred);
        assert(!pred(s[s.len() - 1]));
    }
}

/// Every element that a filter lets through meets its condition and was there before.
pub proof fn lemma_filter_members(s: Seq<Tree>, pred: spec_fn(Tree) -> bool)
    ensures
        forall|i: int|
            0 <= i < s.filter(pred).len() ==> pred(#[trigger] s.filter(pred)[i]) && s.contains(
                s.filter(pred)[i],
            ),
    decreases s.len(),
{
    reveal(Seq::filter);
    if s.len() > 0 {
        let rest = s.drop_last();
        lemma_filter_members(rest, pred);
        assert forall|i: int| 0 <= i < s.filter(pred).len() implies pred(
            #[trigger] s.filter(pred)[i],
        ) && s.contains(s.filter(pred)[i]) by {
            if i < rest.filter(pred).len() {
                assert(s.filter(pred)[i] == rest.filter(pred)[i]);
                let k = choose|k: int| 0 <= k < rest.len() && rest[k] == rest.filter(pred)[i];
                assert(s[k] == rest[k]);
            } else {
                assert(s[s.len() - 1] == s.filter(pred)[i]);
            }
        }
    }
}

/// The keys of an entry differ.
proof fn lemma_entry_keys()
    ensures
        "type"@ != "command"@,
        "type"@ != "timeout"@,
        "command"@ != "timeout"@,
{
    reveal_strlit("type");
    reveal_strlit("command");
    reveal_strlit("timeout");
    assert("type"@.len() != "command"@.len());
    assert("type"@.len() != "timeout"@.len());
    assert("command"@[0] != "timeout"@[0]);
}

/// Taking the hcom entries out of a group leaves its foreign entries, and a second time changes
/// nothing.
proof fn lemma_without_hcom(group: Tree)
    ensures
        entries_of(without_hcom(group)) == foreign_entries(entries_of(group)),
        without_hcom(without_hcom(group)) == without_hcom(group),
        hcom_entries(entries_of(without_hcom(group))) == Seq::<Tree>::empty(),
{
    let foreign = |entry: Tree| !is_hcom_entry(entry);
    let entries = entries_of(group);
    lemma_filter_members(entries, foreign);
    lemma_filter_all(entries.filter(foreign), foreign);
    lemma_filter_none(entries.filter(foreign), |entry: Tree| is_hcom_entry(entry));
    reveal(Seq::filter);
    match group.array_at("hooks"@) {
        Some(found) => {
            let members = group->Object_0;
            let stripped = members.insert("hooks"@, Tree::Array(foreign_entries(found)));
            assert(stripped.insert("hooks"@, Tree::Array(foreign_entries(found))) =~= stripped);
        },
        None => {
            assert(foreign_entries(entries) =~= Seq::<Tree>::empty());
        },
    }
}

/// The group of a subcommand holds one entry, which calls hcom; without it the group is idle.
proof fn lemma_hcom_group(prefix: Seq<Seq<char>>, i: int)
    requires
        0 <= i < grok_hook_commands().len(),
    ensures
        ({
            let command = grok_hook_commands()[i].1;
            let entry = hcom_entry(prefix, command);
            let group = hcom_group(prefix, command);
            &&& runs_line(entry, command_line(prefix, command))
            &&& is_hcom_entry(entry)
            &&& entries_of(group) == seq![entry]
            &&& is_idle(without_hcom(group))
            &&& !is_annotated(without_hcom(group))
        }),
{
    let command = grok_hook_commands()[i].1;
    let entry = hcom_entry(prefix, command);
    let group = hcom_group(prefix, command);
    lemma_entry_keys();
    built_command_is_recognised(prefix, i);
    assert(entry.str_at("command"@) == Some(command_line(prefix, command)));
    assert(group.array_at("hooks"@) == Some(seq![entry]));
    lemma_filter_none(seq![entry], |entry: Tree| !is_hcom_entry(entry));
}

/// A condition that every group meets which has entries.
spec fn keeps_busy_groups(pred: spec_fn(Tree) -> bool) -> bool {
    forall|group: Tree| !#[trigger] pred(group) ==> entries_of(group).len() == 0
}

proof fn lemma_entries_of_kept(groups: Seq<Tree>, pred: spec_fn(Tree) -> bool)
    requires
        keeps_busy_groups(pred),
    ensures
        all_entries(all_without_hcom(groups).filter(pred)) == foreign_entries(all_entries(groups)),
    decreases groups.len(),
{
    reveal(Seq::filter);
    let stripped = all_without_hcom(groups);
    if groups.len() == 0 {
        assert(foreign_entries(all_entries(groups)) =~= Seq::<Tree>::empty());
        assert(stripped.filter(pred) =~= Seq::<Tree>::empty());
    } else {
        let rest = groups.drop_last();
        let last = without_hcom(groups.last());
        lemma_entries_of_kept(rest, pred);
        lemma_without_hcom(groups.last());
        assert(stripped.drop_last() =~= all_without_hcom(rest));
        assert(stripped.last() == last);
        lemma_filter_of_sum(
            all_entries(rest),
            entries_of(groups.last()),
            |entry: Tree| !is_hcom_entry(entry),
        );
        let kept = all_without_hcom(rest).filter(pred);
        if pred(last) {
            assert(kept.push(last).drop_last() =~= kept);
            assert(kept.push(last).last() == last);
        } else {
            assert(all_entries(kept) + entries_of(last) =~= all_entries(kept));
        }
    }
}

/// Groups out of which the hcom entries were taken stay as they are when that is done again.
proof fn lemma_kept_again(groups: Seq<Tree>, pred: spec_fn(Tree) -> bool)
    ensures
        all_without_hcom(all_without_hcom(groups).filter(pred)) == all_without_hcom(groups).filter(
            pred,
        ),
{
    let stripped = all_without_hcom(groups);
    let kept = stripped.filter(pred);
    lemma_filter_members(stripped, pred);
    assert forall|i: int| 0 <= i < kept.len() implies without_hcom(#[trigger] kept[i]) == kept[i] by {
        let k = choose|k: int| 0 <= k < stripped.len() && stripped[k] == kept[i];
        lemma_without_hcom(groups[k]);
        assert(stripped[k] == without_hcom(groups[k]));
    }
    assert(all_without_hcom(kept) =~= kept);
}

/// Of two conditions of which the second asks more, the second decides.
proof fn lemma_filter_filter(
    s: Seq<Tree>,
    first: spec_fn(Tree) -> bool,
    second: spec_fn(Tree) -> bool,
)
    requires
        forall|tree: Tree| #[trigger] second(tree) ==> first(tree),
    ensures
        s.filter(first).filter(second) == s.filter(second),
    decreases s.len(),
{
    reveal(Seq::filter);
    if s.len() > 0 {
        lemma_filter_filter(s.drop_last(), first, second);
        let rest = s.drop_last().filter(first);
        if first(s.last()) {
            assert(rest.push(s.last()).drop_last() =~= rest);
        }
    }
}

/// A group that goes when its hcom entries are taken out makes no difference behind others.
proof fn lemma_pushed_group_goes(groups: Seq<Tree>, group: Tree, pred: spec_fn(Tree) -> bool)
    requires
        !pred(without_hcom(group)),
    ensures
        all_without_hcom(groups.push(group)).filter(pred) == all_without_hcom(groups).filter(pred),
{
    reveal(Seq::filter);
    let longer = all_without_hcom(groups.push(group));
    assert(longer.drop_last() =~= all_without_hcom(groups));
    assert(longer.last() == without_hcom(group));
}

/// The groups of an event, with the hooks put in and then put in again, are those that putting
/// them in once gives.
proof fn lemma_merge_groups_again(groups: Seq<Tree>, prefix: Seq<Seq<char>>, i: int)
    requires
        0 <= i < grok_hook_commands().len(),
    ensures
        kept_by_merge(
            kept_by_merge(groups).push(hcom_group(prefix, grok_hook_commands()[i].1)),
        ) == kept_by_merge(groups),
        kept_by_removal(
            kept_by_merge(groups).push(hcom_group(prefix, grok_hook_commands()[i].1)),
        ) == kept_by_removal(groups),
        kept_by_removal(kept_by_removal(groups)) == kept_by_removal(groups),
{
    let by_merge = |group: Tree| !is_idle(group) || is_annotated(group);
    let by_removal = |group: Tree| !is_idle(group);
    let group = hcom_group(prefix, grok_hook_commands()[i].1);
    let stripped = all_without_hcom(groups);
    let kept = kept_by_merge(groups);
    lemma_hcom_group(prefix, i);
    lemma_pushed_group_goes(kept, group, by_merge);
    lemma_pushed_group_goes(kept, group, by_removal);
    lemma_kept_again(groups, by_merge);
    lemma_kept_again(groups, by_removal);
    lemma_filter_filter(stripped, by_merge, by_merge);
    lemma_filter_filter(stripped, by_merge, by_removal);
    lemma_filter_filter(stripped, by_removal, by_removal);
}

/// What putting the hooks in does to one event of the table.
pub proof fn lemma_merged_event(hooks: Members, prefix: Seq<Seq<char>>, event: Seq<char>) -> (i: int)
    requires
        is_hook_event(event),
    ensures
        0 <= i < grok_hook_commands().len(),
        grok_hook_commands()[i].0 == event,
        command_of(event) == grok_hook_commands()[i].1,
        merged_events(hooks, prefix).dom().contains(event),
        merged_events(hooks, prefix)[event] == Tree::Array(
            kept_by_merge(elements_or_none(Tree::Object(hooks).get(event))).push(
                hcom_group(prefix, grok_hook_commands()[i].1),
            ),
        ),
{
    let i = choose|i: int|
        0 <= i < grok_hook_commands().len() && (#[trigger] grok_hook_commands()[i]).0 == event;
    lemma_command_of(i);
    i
}

/// Putting the hooks in replaces whatever hooks of hcom were there, however hcom was called
/// then: only the last call counts.
pub proof fn merge_replaces_earlier_merge(
    root: Tree,
    earlier: Seq<Seq<char>>,
    prefix: Seq<Seq<char>>,
)
    ensures
        merged(merged(root, earlier), prefix) == merged(root, prefix),
{
    let members = members_or_none(Some(root));
    let hooks = members_or_none(Tree::Object(members).get("hooks"@));
    let once = merged_events(hooks, earlier);
    let twice = merged_events(once, prefix);
    let direct = merged_events(hooks, prefix);
    assert forall|event: Seq<char>| #[trigger] twice.dom().contains(event) implies twice[event]
        == direct[event] by {
        if is_hook_event(event) {
            let i = lemma_merged_event(hooks, earlier, event);
            let j = lemma_merged_event(once, prefix, event);
            let groups = elements_or_none(Tree::Object(hooks).get(event));
            lemma_merge_groups_again(groups, earlier, i);
            assert(elements_or_none(Tree::Object(once).get(event)) == kept_by_merge(groups).push(
                hcom_group(earlier, grok_hook_commands()[i].1),
            ));
        }
    }
    assert(twice =~= direct);
    let after = members.insert("hooks"@, Tree::Object(once));
    assert(members_or_none(Some(merged(root, earlier))) == after);
    assert(Tree::Object(after).get("hooks"@) == Some(Tree::Object(once)));
    assert(after.insert("hooks"@, Tree::Object(twice)) =~= members.insert(
        "hooks"@,
        Tree::Object(direct),
    ));
}

/// Putting the hooks in a second time changes nothing.
pub proof fn merge_is_idempotent(root: Tree, prefix: Seq<Seq<char>>)
    ensures
        merged(merged(root, prefix), prefix) == merged(root, prefix),
{
    merge_replaces_earlier_merge(root, prefix, prefix);
}

/// A file into which the hooks were put passes the test that they are there.
pub proof fn merged_file_is_installed(root: Tree, prefix: Seq<Seq<char>>)
    ensures
        is_installed(merged(root, prefix), prefix),
{
    let members = members_or_none(Some(root));
    let hooks = members_or_none(Tree::Object(members).get("hooks"@));
    let events = merged_events(hooks, prefix);
    assert(merged(root, prefix).object_at("hooks"@) == Some(events));
    assert forall|i: int| 0 <= i < grok_hook_commands().len() implies event_runs_line(
        events,
        (#[trigger] grok_hook_commands()[i]).0,
        command_line(prefix, grok_hook_commands()[i].1),
    ) by {
        let (event, command) = grok_hook_commands()[i];
        let line = command_line(prefix, command);
        assert(is_hook_event(event));
        let j = lemma_merged_event(hooks, prefix, event);
        lemma_table();
        assert(i == j) by {
            if i < j {
                assert(grok_hook_commands()[i].0 != grok_hook_commands()[j].0);
            } else if j < i {
                assert(grok_hook_commands()[j].0 != grok_hook_commands()[i].0);
            }
        }
        lemma_hcom_group(prefix, i);
        let group = hcom_group(prefix, command);
        let entries = seq![hcom_entry(prefix, command)];
        assert(group.array_at("hooks"@) == Some(entries));
        assert(runs_line(entries[0], line));
        assert(entries_run_line(entries, line));
        let groups = elements_or_none(Tree::Object(events).get(event));
        assert(groups[groups.len() - 1] == group);
        assert(group_runs_line(groups[groups.len() - 1], line));
    }
}

/// The groups that a hooks file has for an event.
pub open spec fn groups_of(root: Tree, event: Seq<char>) -> Seq<Tree> {
    elements_or_none(Tree::Object(members_or_none(root.get("hooks"@))).get(event))
}

/// The groups of an event of the table after the hooks were put in.
pub proof fn lemma_groups_of_merged(root: Tree, prefix: Seq<Seq<char>>, event: Seq<char>) -> (i: int)
    requires
        is_hook_event(event),
    ensures
        0 <= i < grok_hook_commands().len(),
        grok_hook_commands()[i].0 == event,
        command_of(event) == grok_hook_commands()[i].1,
        groups_of(merged(root, prefix), event) == kept_by_merge(groups_of(root, event)).push(
            hcom_group(prefix, grok_hook_commands()[i].1),
        ),
{
    let members = members_or_none(Some(root));
    let hooks = members_or_none(Tree::Object(members).get("hooks"@));
    assert(members_or_none(root.get("hooks"@)) == hooks) by {
        if !(root is Object) {
            assert(members_or_none(root.get("hooks"@)) =~= hooks);
        }
    }
    assert(merged(root, prefix).get("hooks"@) == Some(Tree::Object(merged_events(hooks, prefix))));
    lemma_merged_event(hooks, prefix, event)
}

/// Putting the hooks in keeps the entries of others: of each event all those that do not call
/// hcom, in their order.
pub proof fn merge_keeps_foreign_entries(root: Tree, prefix: Seq<Seq<char>>, event: Seq<char>)
    requires
        is_hook_event(event),
    ensures
        foreign_entries(all_entries(groups_of(merged(root, prefix), event))) == foreign_entries(
            all_entries(groups_of(root, event)),
        ),
{
    lemma_merge_entries(root, prefix, event);
}

/// Putting the hooks in leaves each event with just one entry that calls hcom: the expected one.
pub proof fn merge_leaves_one_hcom_entry(root: Tree, prefix: Seq<Seq<char>>, event: Seq<char>)
    requires
        is_hook_event(event),
    ensures
        hcom_entries(all_entries(groups_of(merged(root, prefix), event))) == seq![
            hcom_entry(prefix, command_of(event)),
        ],
{
    lemma_merge_entries(root, prefix, event);
}

#[verifier::spinoff_prover]
#[verifier::rlimit(40)]
proof fn lemma_merge_entries(root: Tree, prefix: Seq<Seq<char>>, event: Seq<char>)
    requires
        is_hook_event(event),
    ensures
        foreign_entries(all_entries(groups_of(merged(root, prefix), event))) == foreign_entries(
            all_entries(groups_of(root, event)),
        ),
        hcom_entries(all_entries(groups_of(merged(root, prefix), event))) == seq![
            hcom_entry(prefix, command_of(event)),
        ],
{
    let ours = |entry: Tree| is_hcom_entry(entry);
    let foreign = |entry: Tree| !is_hcom_entry(entry);
    let i = lemma_groups_of_merged(root, prefix, event);
    let before = groups_of(root, event);
    let kept = kept_by_merge(before);
    let group = hcom_group(prefix, grok_hook_commands()[i].1);
    let entry = hcom_entry(prefix, grok_hook_commands()[i].1);
    lemma_hcom_group(prefix, i);
    lemma_entries_of_kept(before, |group: Tree| !is_idle(group) || is_annotated(group));
    let rest = all_entries(kept);
    let others = all_entries(before).filter(foreign);
    assert(rest == others);
    assert(kept.push(group).drop_last() =~= kept);
    assert(all_entries(kept.push(group)) == rest + seq![entry]);
    lemma_filter_of_sum(rest, seq![entry], ours);
    lemma_filter_of_sum(rest, seq![entry], foreign);
    lemma_filter_members(all_entries(before), foreign);
    lemma_filter_none(rest, ours);
    lemma_filter_all(rest, foreign);
    lemma_filter_all(seq![entry], ours);
    lemma_filter_none(seq![entry], foreign);
    assert(rest.filter(ours) + seq![entry].filter(ours) =~= seq![entry]);
    assert(rest.filter(foreign) + seq![entry].filter(foreign) =~= rest);
}

/// Putting the hooks in touches nothing else: neither the other members of the file nor an
/// event that has no hook.
pub proof fn merge_leaves_the_rest(
    root: Members,
    prefix: Seq<Seq<char>>,
    key: Seq<char>,
    event: Seq<char>,
)
    ensures
        key != "hooks"@ ==> merged(Tree::Object(root), prefix).get(key) == Tree::Object(root).get(
            key,
        ),
        !is_hook_event(event) ==> Tree::Object(
            members_or_none(merged(Tree::Object(root), prefix).get("hooks"@)),
        ).get(event) == Tree::Object(members_or_none(Tree::Object(root).get("hooks"@))).get(event),
{
}

/// Taking the hooks out keeps the other members of a file that has an event left; where none is
/// left, the whole file becomes the empty one.
pub proof fn removal_leaves_the_rest(root: Tree, key: Seq<char>)
    ensures
        (forall|event: Seq<char>| !survives_removal(members_or_none(root.get("hooks"@)), event))
            ==> uninstalled(root) == empty_file(),
        (exists|event: Seq<char>| survives_removal(members_or_none(root.get("hooks"@)), event))
            && key != "hooks"@ ==> uninstalled(root).get(key) == root.get(key),
{
    let hooks = members_or_none(root.get("hooks"@));
    let after = cleared_events(hooks);
    if exists|event: Seq<char>| survives_removal(hooks, event) {
        let event = choose|event: Seq<char>| survives_removal(hooks, event);
        assert(after.dom().contains(event));
        assert(root.object_at("hooks"@) == Some(hooks));
        assert(cleared(root).object_at("hooks"@) == Some(after));
    } else {
        assert(after =~= Members::empty());
        if root.object_at("hooks"@) is Some {
            assert(cleared(root).object_at("hooks"@) == Some(after));
        }
    }
}

/// Taking the hooks out keeps the entries of others, of every event and in their order, and
/// leaves none that calls hcom.
pub proof fn removal_keeps_foreign_entries(root: Tree, event: Seq<char>)
    ensures
        all_entries(groups_of(uninstalled(root), event)) == foreign_entries(
            all_entries(groups_of(root, event)),
        ),
        hcom_entries(all_entries(groups_of(uninstalled(root), event))) == Seq::<Tree>::empty(),
{
    let foreign = |entry: Tree| !is_hcom_entry(entry);
    let before = groups_of(root, event);
    lemma_groups_after_removal(root, event);
    lemma_entries_of_kept(before, |group: Tree| !is_idle(group));
    lemma_filter_members(all_entries(before), foreign);
    lemma_filter_none(all_entries(before).filter(foreign), |entry: Tree| is_hcom_entry(entry));
}

/// The groups of an event after the hooks were taken out.
pub proof fn lemma_groups_after_removal(root: Tree, event: Seq<char>)
    ensures
        groups_of(uninstalled(root), event) == kept_by_removal(groups_of(root, event)),
{
    reveal(Seq::filter);
    let hooks = members_or_none(root.get("hooks"@));
    let after = cleared_events(hooks);
    let before = groups_of(root, event);
    assert(kept_by_removal(Seq::empty()) =~= Seq::<Tree>::empty());
    assert(elements_or_none(Tree::Object(after).get(event)) =~= kept_by_removal(before));
    assert(Tree::Object(Map::<Seq<char>, Tree>::empty()).get(event) is None);
    assert(empty_file().get("hooks"@) == Some(Tree::Object(Members::empty())));
    if root.object_at("hooks"@) is Some {
        assert(cleared(root).object_at("hooks"@) == Some(after));
    } else {
        assert(uninstalled(root) == empty_file());
        assert(before =~= Seq::<Tree>::empty());
    }
}

/// A file out of which the hooks were taken fails the test that they are there.
pub proof fn removed_file_is_not_installed(root: Tree, prefix: Seq<Seq<char>>)
    ensures
        !is_installed(uninstalled(root), prefix),
{
    let file = uninstalled(root);
    if is_installed(file, prefix) {
        let (event, command) = grok_hook_commands()[0];
        let line = command_line(prefix, command);
        let hooks = file.object_at("hooks"@)->Some_0;
        assert(event_runs_line(hooks, grok_hook_commands()[0].0, line));
        let groups = elements_or_none(Tree::Object(hooks).get(event));
        assert(groups == groups_of(file, event));
        let i = choose|i: int|
            0 <= i < groups.len() && group_runs_line(#[trigger] groups[i], line);
        let entries = entries_of(groups[i]);
        assert(entries_run_line(entries, line));
        let k = choose|k: int| 0 <= k < entries.len() && runs_line(#[trigger] entries[k], line);
        built_command_is_recognised(prefix, 0);
        assert(is_hcom_entry(entries[k]));
        lemma_groups_after_removal(root, event);
        let stripped = all_without_hcom(groups_of(root, event));
        lemma_filter_members(stripped, |group: Tree| !is_idle(group));
        let j = choose|j: int| 0 <= j < stripped.len() && stripped[j] == groups[i];
        let origin = groups_of(root, event)[j];
        assert(stripped[j] == without_hcom(origin));
        lemma_without_hcom(origin);
        lemma_filter_members(entries_of(origin), |entry: Tree| !is_hcom_entry(entry));
        assert(entries == foreign_entries(entries_of(origin)));
        assert(!is_hcom_entry(entries[k]));
    }
}

/// Taking the hooks out undoes putting them in: what is left is what taking them out would
/// have left before.
pub proof fn removal_undoes_merge(root: Tree, prefix: Seq<Seq<char>>)
    ensures
        uninstalled(merged(root, prefix)) == uninstalled(root),
{
    reveal(Seq::filter);
    let members = members_or_none(Some(root));
    let hooks = members_or_none(Tree::Object(members).get("hooks"@));
    let events = merged_events(hooks, prefix);
    let after = cleared_events(events);
    let direct = cleared_events(hooks);
    assert(kept_by_removal(Seq::empty()) =~= Seq::<Tree>::empty());
    assert forall|event: Seq<char>|
        #![trigger survives_removal(events, event)]
        #![trigger after[event]]
        survives_removal(events, event) == survives_removal(hooks, event) && (survives_removal(
            hooks,
            event,
        ) ==> after[event] == direct[event]) by {
        if is_hook_event(event) {
            let i = lemma_merged_event(hooks, prefix, event);
            lemma_merge_groups_again(elements_or_none(Tree::Object(hooks).get(event)), prefix, i);
        }
    }
    assert forall|event: Seq<char>| after.dom().contains(event) == direct.dom().contains(event) by {
        assert(after.dom().contains(event) == survives_removal(events, event));
        assert(direct.dom().contains(event) == survives_removal(hooks, event));
    }
    assert(after =~= direct);
    let file = merged(root, prefix);
    assert(file.object_at("hooks"@) == Some(events));
    assert(cleared(file).object_at("hooks"@) == Some(after));
    if root.object_at("hooks"@) is Some {
        assert(cleared(root).object_at("hooks"@) == Some(direct));
        assert(cleared(file)->Object_0 =~= cleared(root)->Object_0);
    } else {
        assert(hooks =~= Members::empty());
        assert(direct =~= Members::empty());
    }
}

/// Taking the hooks out a second time changes nothing.
pub proof fn removal_is_idempotent(root: Tree)
    ensures
        uninstalled(uninstalled(root)) == uninstalled(root),
{
    reveal(Seq::filter);
    let file = uninstalled(root);
    let hooks = members_or_none(root.get("hooks"@));
    let after = cleared_events(hooks);
    let again = cleared_events(after);
    assert forall|event: Seq<char>|
        #![trigger survives_removal(after, event)]
        #![trigger again[event]]
        survives_removal(after, event) == after.dom().contains(event) && (after.dom().contains(
            event,
        ) ==> again[event] == after[event]) by {
        if after.dom().contains(event) {
            lemma_merge_groups_again(hooks[event]->Array_0, Seq::empty(), 0);
        }
    }
    assert forall|event: Seq<char>| again.dom().contains(event) == after.dom().contains(event) by {
        assert(survives_removal(after, event) == after.dom().contains(event));
    }
    assert(again =~= after);
    assert(cleared_events(Members::empty()) =~= Members::empty());
    assert(empty_file().object_at("hooks"@) == Some(Members::empty()));
    assert(cleared(empty_file())->Object_0 =~= empty_file()->Object_0);
    if file != empty_file() {
        assert(file.object_at("hooks"@) == Some(after));
        assert(cleared(file)->Object_0 =~= file->Object_0);
    }
}

/// Taking the hooks out, with or without having put them in before, leaves the groups of an
/// event as they were, where none of them calls hcom or is idle.
pub proof fn removal_keeps_foreign_groups(root: Tree, prefix: Seq<Seq<char>>, event: Seq<char>)
    requires
        forall|i: int|
            0 <= i < groups_of(root, event).len() ==> !is_idle(
                #[trigger] groups_of(root, event)[i],
            ) && hcom_entries(entries_of(groups_of(root, event)[i])).len() == 0,
    ensures
        groups_of(uninstalled(root), event) == groups_of(root, event),
        groups_of(uninstalled(merged(root, prefix)), event) == groups_of(root, event),
{
    let groups = groups_of(root, event);
    removal_undoes_merge(root, prefix);
    lemma_groups_after_removal(root, event);
    assert forall|i: int| 0 <= i < groups.len() implies without_hcom(#[trigger] groups[i])
        == groups[i] by {
        lemma_no_hcom_entries(entries_of(groups[i]));
        if let Some(entries) = groups[i].array_at("hooks"@) {
            let members = groups[i]->Object_0;
            assert(members.insert("hooks"@, Tree::Array(entries)) =~= members);
        }
    }
    assert(all_without_hcom(groups) =~= groups);
    lemma_filter_all(groups, |group: Tree| !is_idle(group));
}

proof fn lemma_no_hcom_entries(entries: Seq<Tree>)
    requires
        hcom_entries(entries).len() == 0,
    ensures
        foreign_entries(entries) == entries,
    decreases entries.len(),
{
    reveal(Seq::filter);
    if entries.len() > 0 {
        assert(!is_hcom_entry(entries.last()));
        lemma_no_hcom_entries(entries.drop_last());
        assert(entries.drop_last().push(entries.last()) =~= entries);
    }
}

} // verus!
