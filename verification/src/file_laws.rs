//! What becomes of each group of a hooks file, and which files count as installed: said of the
//! members, elements and texts of the file.
use crate::commands::{
    calls_hcom, command_line, commands_are_named_after_events, events_with_a_hook,
    grok_hook_commands,
};
use crate::install::{
    all_without_hcom, cleared, cleared_events, command_of, elements_or_none, empty_file,
    entries_run_line, event_runs_line, foreign_entries, group_runs_line, hcom_entry,
    is_annotated, is_hcom_entry, is_hook_event, is_idle, is_installed, kept_by_merge, kept_by_removal,
    members_or_none, merged, merged_events, runs_line, uninstalled, without_hcom,
};
use crate::install_laws::{
    groups_of, lemma_filter_members, lemma_filter_of_sum, lemma_groups_after_removal,
    lemma_groups_of_merged, lemma_merged_event,
};
use crate::json::{Members, Num, Tree};
use crate::text::ascii_lower;
use vstd::prelude::*;

verus! {

/// The members of the object under `hooks` in a file; none where there is no such object.
pub open spec fn events_in(root: Tree) -> Members {
    match root {
        Tree::Object(members) => if members.dom().contains("hooks"@) {
            match members["hooks"@] {
                Tree::Object(events) => events,
                _ => Map::empty(),
            }
        } else {
            Map::empty()
        },
        _ => Map::empty(),
    }
}

/// The elements of the array under an event of a file; none where there is no such array.
pub open spec fn groups_at(root: Tree, event: Seq<char>) -> Seq<Tree> {
    if events_in(root).dom().contains(event) {
        match events_in(root)[event] {
            Tree::Array(groups) => groups,
            _ => Seq::empty(),
        }
    } else {
        Seq::empty()
    }
}

/// The elements of the array under `hooks` in a group.
pub open spec fn entries_in(group: Tree) -> Option<Seq<Tree>> {
    match group {
        Tree::Object(members) => if members.dom().contains("hooks"@) {
            match members["hooks"@] {
                Tree::Array(entries) => Some(entries),
                _ => None,
            }
        } else {
            None
        },
        _ => None,
    }
}

/// Whether an entry is an object whose `command` is a text that calls hcom.
pub open spec fn calls(entry: Tree) -> bool {
    match entry {
        Tree::Object(fields) => fields.dom().contains("command"@) && match fields["command"@] {
            Tree::Str(line) => calls_hcom(line),
            _ => false,
        },
        _ => false,
    }
}

/// Whether two values have the same member, or none, under each key but `hooks`.
pub open spec fn same_members_besides_hooks(before: Tree, after: Tree) -> bool {
    match (before, after) {
        (Tree::Object(x), Tree::Object(y)) => forall|key: Seq<char>|
            key != "hooks"@ ==> (#[trigger] y.dom().contains(key) == x.dom().contains(key)) && (
            x.dom().contains(key) ==> y[key] == x[key]),
        _ => before == after,
    }
}

/// Whether a group has lost the entries that call hcom and is otherwise as it was: its other
/// entries, in their order, and all its other members.
pub open spec fn lost_its_calls_only(before: Tree, after: Tree) -> bool {
    &&& same_members_besides_hooks(before, after)
    &&& match entries_in(before) {
        Some(entries) => entries_in(after) == Some(entries.filter(|entry: Tree| !calls(entry))),
        None => after == before,
    }
}

/// Whether a group has an array of entries, all of which call hcom.
pub open spec fn only_calls(group: Tree) -> bool {
    match entries_in(group) {
        Some(entries) => forall|i: int| 0 <= i < entries.len() ==> calls(#[trigger] entries[i]),
        None => false,
    }
}

/// Whether a group has a member besides `hooks` and `matcher`.
pub open spec fn has_more_members(group: Tree) -> bool {
    match group {
        Tree::Object(members) => exists|key: Seq<char>| #[trigger]
            members.dom().contains(key) && key != "hooks"@ && key != "matcher"@,
        _ => false,
    }
}

/// The group that is put in for an event: one entry, which has Grok run the subcommand that is
/// named after the event and wait fifteen seconds for it.
pub open spec fn group_for(prefix: Seq<Seq<char>>, event: Seq<char>) -> Tree {
    Tree::Object(
        map![
            "hooks"@ => Tree::Array(
                seq![
                    Tree::Object(
                        map![
                            "type"@ => Tree::Str("command"@),
                            "command"@ => Tree::Str(
                                command_line(prefix, "grok-"@ + ascii_lower(event)),
                            ),
                            "timeout"@ => Tree::Number(Num::Unsigned(15)),
                        ],
                    ),
                ],
            ),
        ],
    )
}

/// Whether Grok has a hook for the event.
pub open spec fn has_hook(event: Seq<char>) -> bool {
    ||| event == "SessionStart"@
    ||| event == "UserPromptSubmit"@
    ||| event == "PreToolUse"@
    ||| event == "PostToolUse"@
    ||| event == "Stop"@
    ||| event == "SubagentStart"@
    ||| event == "SubagentStop"@
    ||| event == "SessionEnd"@
}

proof fn lemma_same_words(root: Tree, event: Seq<char>)
    ensures
        members_or_none(root.get("hooks"@)) == events_in(root),
        groups_of(root, event) == groups_at(root, event),
        has_hook(event) == is_hook_event(event),
        has_hook(event) ==> command_of(event) == "grok-"@ + ascii_lower(event),
{
    events_with_a_hook(event);
    if is_hook_event(event) {
        let i = lemma_merged_event(Map::empty(), Seq::empty(), event);
        commands_are_named_after_events(i);
    }
}

/// The elements that a filter lets through, for conditions that agree.
proof fn lemma_foreign_entries(entries: Seq<Tree>)
    ensures
        foreign_entries(entries) == entries.filter(|entry: Tree| !calls(entry)),
{
    let p = |entry: Tree| !is_hcom_entry(entry);
    let q = |entry: Tree| !calls(entry);
    assert forall|entry: Tree| #[trigger] p(entry) == q(entry) by {}
    assert(p =~= q);
}

/// A filter lets nothing through just where no element meets the condition.
proof fn lemma_filter_empty(s: Seq<Tree>, pred: spec_fn(Tree) -> bool)
    ensures
        s.filter(pred).len() == 0 <==> forall|i: int| 0 <= i < s.len() ==> !pred(#[trigger] s[i]),
    decreases s.len(),
{
    reveal(Seq::filter);
    if s.len() > 0 {
        let rest = s.drop_last();
        lemma_filter_empty(rest, pred);
        if forall|i: int| 0 <= i < s.len() ==> !pred(#[trigger] s[i]) {
            assert forall|i: int| 0 <= i < rest.len() implies !pred(#[trigger] rest[i]) by {
                assert(rest[i] == s[i]);
            }
            assert(!pred(s[s.len() - 1]));
        }
        if s.filter(pred).len() == 0 {
            assert forall|i: int| 0 <= i < s.len() implies !pred(#[trigger] s[i]) by {
                if i < rest.len() {
                    assert(rest[i] == s[i]);
                }
            }
        }
    }
}

/// What a filter makes of a single element.
proof fn lemma_filter_one(tree: Tree, pred: spec_fn(Tree) -> bool)
    ensures
        seq![tree].filter(pred) == if pred(tree) {
            seq![tree]
        } else {
            Seq::empty()
        },
{
    reveal(Seq::filter);
    let one = seq![tree];
    assert(one.drop_last() =~= Seq::<Tree>::empty());
    assert(one.last() == tree);
    assert(one.drop_last().filter(pred) =~= Seq::<Tree>::empty());
    assert(one.filter(pred) =~= if pred(tree) {
        seq![tree]
    } else {
        Seq::empty()
    });
}

proof fn lemma_stripped(group: Tree)
    ensures
        lost_its_calls_only(group, without_hcom(group)),
        is_idle(without_hcom(group)) == only_calls(group),
        is_annotated(without_hcom(group)) == has_more_members(group),
{
    if let Some(entries) = entries_in(group) {
        lemma_foreign_entries(entries);
        let pred = |entry: Tree| !calls(entry);
        lemma_filter_empty(entries, pred);
        assert(only_calls(group) == (entries.filter(pred).len() == 0)) by {
            if only_calls(group) {
                assert forall|i: int| 0 <= i < entries.len() implies !pred(
                    #[trigger] entries[i],
                ) by {}
            }
            if entries.filter(pred).len() == 0 {
                assert forall|i: int| 0 <= i < entries.len() implies calls(#[trigger] entries[i]) by {
                    assert(!pred(entries[i]));
                }
            }
        }
        let after = without_hcom(group);
        assert(group.array_at("hooks"@) == Some(entries));
        let x = group->Object_0;
        let y = after->Object_0;
        if is_annotated(after) {
            let key = choose|key: Seq<char>|
                #[trigger] y.dom().contains(key) && key != "hooks"@ && key != "matcher"@;
            assert(x.dom().contains(key));
        }
        if has_more_members(group) {
            let key = choose|key: Seq<char>|
                #[trigger] x.dom().contains(key) && key != "hooks"@ && key != "matcher"@;
            assert(y.dom().contains(key));
        }
    } else {
        if group is Object {
            assert(group.array_at("hooks"@) is None);
        }
        assert(without_hcom(group) == group);
    }
}

/// The groups of a file after the hooks were put in, where it has none for the event: the group
/// of hcom and nothing else.
pub proof fn an_event_without_groups_is_filled(
    root: Tree,
    prefix: Seq<Seq<char>>,
    event: Seq<char>,
)
    requires
        has_hook(event),
        groups_at(root, event).len() == 0,
    ensures
        groups_at(merged(root, prefix), event) == seq![group_for(prefix, event)],
{
    lemma_same_words(root, event);
    lemma_same_words(merged(root, prefix), event);
    let i = lemma_groups_of_merged(root, prefix, event);
    reveal(Seq::filter);
    assert(kept_by_merge(groups_of(root, event)) =~= Seq::<Tree>::empty());
    assert(groups_at(merged(root, prefix), event) =~= seq![group_for(prefix, event)]);
}

/// What becomes of a group when the hooks are put in. It goes only if it held nothing but calls of
/// hcom and has no member besides its entries and its matcher. Otherwise it loses its calls of
/// hcom and nothing else: neither its matcher or any other member nor an entry of others. The
/// group of hcom stands behind it.
pub proof fn a_group_is_merged(root: Tree, prefix: Seq<Seq<char>>, event: Seq<char>, group: Tree)
    requires
        has_hook(event),
        groups_at(root, event) == seq![group],
    ensures
        ({
            let after = groups_at(merged(root, prefix), event);
            if only_calls(group) && !has_more_members(group) {
                after == seq![group_for(prefix, event)]
            } else {
                &&& after.len() == 2
                &&& lost_its_calls_only(group, after[0])
                &&& after[1] == group_for(prefix, event)
            }
        }),
{
    lemma_same_words(root, event);
    lemma_same_words(merged(root, prefix), event);
    let i = lemma_groups_of_merged(root, prefix, event);
    lemma_stripped(group);
    assert(all_without_hcom(seq![group]) =~= seq![without_hcom(group)]);
    lemma_filter_one(
        without_hcom(group),
        |group: Tree| !is_idle(group) || is_annotated(group),
    );
    let after = groups_at(merged(root, prefix), event);
    if only_calls(group) && !has_more_members(group) {
        assert(after =~= seq![group_for(prefix, event)]);
    } else {
        assert(after =~= seq![without_hcom(group), group_for(prefix, event)]);
    }
}

/// Each group is merged by itself and the groups keep their order: where the groups of one file
/// are those of two others, one behind the other, so are the groups that stay.
pub proof fn groups_are_merged_one_by_one(
    root: Tree,
    front: Tree,
    back: Tree,
    prefix: Seq<Seq<char>>,
    event: Seq<char>,
)
    requires
        has_hook(event),
        groups_at(root, event) == groups_at(front, event) + groups_at(back, event),
    ensures
        groups_at(merged(front, prefix), event).len() > 0,
        groups_at(merged(root, prefix), event) == groups_at(
            merged(front, prefix),
            event,
        ).drop_last() + groups_at(merged(back, prefix), event),
{
    lemma_same_words(root, event);
    lemma_same_words(front, event);
    lemma_same_words(back, event);
    lemma_same_words(merged(root, prefix), event);
    lemma_same_words(merged(front, prefix), event);
    lemma_same_words(merged(back, prefix), event);
    let i = lemma_groups_of_merged(root, prefix, event);
    let j = lemma_groups_of_merged(front, prefix, event);
    let k = lemma_groups_of_merged(back, prefix, event);
    let x = groups_at(front, event);
    let y = groups_at(back, event);
    assert(all_without_hcom(x + y) =~= all_without_hcom(x) + all_without_hcom(y));
    lemma_filter_of_sum(
        all_without_hcom(x),
        all_without_hcom(y),
        |group: Tree| !is_idle(group) || is_annotated(group),
    );
    assert(groups_at(merged(root, prefix), event) =~= groups_at(
        merged(front, prefix),
        event,
    ).drop_last() + groups_at(merged(back, prefix), event));
}

/// An element that meets the condition of a filter is let through.
proof fn lemma_filter_keeps(s: Seq<Tree>, pred: spec_fn(Tree) -> bool, i: int)
    requires
        0 <= i < s.len(),
        pred(s[i]),
    ensures
        s.filter(pred).contains(s[i]),
    decreases s.len(),
{
    reveal(Seq::filter);
    let rest = s.drop_last();
    if i < rest.len() {
        lemma_filter_keeps(rest, pred, i);
        let k = choose|k: int| 0 <= k < rest.filter(pred).len() && rest.filter(pred)[k] == rest[i];
        assert(s.filter(pred)[k] == s[i]);
    } else {
        assert(s.filter(pred)[rest.filter(pred).len() as int] == s[i]);
    }
}

/// Whether one of the groups has become the given one by losing its calls of hcom only.
pub open spec fn comes_from_one_of(before: Seq<Tree>, after: Tree) -> bool {
    exists|i: int| 0 <= i < before.len() && lost_its_calls_only(#[trigger] before[i], after)
}

/// Whether a group has become one of the given ones by losing its calls of hcom only.
pub open spec fn becomes_one_of(before: Tree, after: Seq<Tree>) -> bool {
    exists|j: int| 0 <= j < after.len() && lost_its_calls_only(before, #[trigger] after[j])
}

/// Whatever groups an event has: each that is there after the hooks were put in, but for the last,
/// was there before and has its matcher and all else but its calls of hcom; and each that was
/// there before and had more than such calls is there afterwards.
pub proof fn merging_keeps_the_groups_of_others(
    root: Tree,
    prefix: Seq<Seq<char>>,
    event: Seq<char>,
    i: int,
    j: int,
)
    requires
        has_hook(event),
        0 <= i < groups_at(root, event).len(),
        0 <= j < groups_at(merged(root, prefix), event).len(),
    ensures
        ({
            let before = groups_at(root, event);
            let after = groups_at(merged(root, prefix), event);
            &&& after[after.len() - 1] == group_for(prefix, event)
            &&& j < after.len() - 1 ==> comes_from_one_of(before, after[j])
            &&& !only_calls(before[i]) || has_more_members(before[i]) ==> becomes_one_of(
                before[i],
                after,
            )
        }),
{
    lemma_same_words(root, event);
    lemma_same_words(merged(root, prefix), event);
    let place = lemma_groups_of_merged(root, prefix, event);
    let before = groups_at(root, event);
    let after = groups_at(merged(root, prefix), event);
    let pred = |group: Tree| !is_idle(group) || is_annotated(group);
    lemma_kept_groups(before, pred, i);
    let kept = all_without_hcom(before).filter(pred);
    assert(after =~= kept.push(group_for(prefix, event)));
    if j < after.len() - 1 {
        assert(comes_from_one_of(before, kept[j]));
    }
    if pred(without_hcom(before[i])) {
        let k = choose|k: int|
            0 <= k < kept.len() && lost_its_calls_only(before[i], #[trigger] kept[k]);
        assert(lost_its_calls_only(before[i], after[k]));
    }
    lemma_stripped(before[i]);
}

proof fn lemma_kept_groups(before: Seq<Tree>, pred: spec_fn(Tree) -> bool, i: int)
    requires
        0 <= i < before.len(),
    ensures
        forall|j: int|
            0 <= j < all_without_hcom(before).filter(pred).len() ==> comes_from_one_of(
                before,
                #[trigger] all_without_hcom(before).filter(pred)[j],
            ),
        pred(without_hcom(before[i])) ==> becomes_one_of(
            before[i],
            all_without_hcom(before).filter(pred),
        ),
{
    let stripped = all_without_hcom(before);
    let kept = stripped.filter(pred);
    lemma_filter_members(stripped, pred);
    assert forall|j: int| 0 <= j < kept.len() implies comes_from_one_of(
        before,
        #[trigger] kept[j],
    ) by {
        let k = choose|k: int| 0 <= k < stripped.len() && stripped[k] == kept[j];
        lemma_stripped(before[k]);
        assert(stripped[k] == without_hcom(before[k]));
    }
    if pred(without_hcom(before[i])) {
        lemma_stripped(before[i]);
        assert(stripped[i] == without_hcom(before[i]));
        lemma_filter_keeps(stripped, pred, i);
        let k = choose|k: int| 0 <= k < kept.len() && kept[k] == stripped[i];
        assert(lost_its_calls_only(before[i], kept[k]));
    }
}

/// Whatever groups an event has, of whatever name: each that is there after the hooks were taken
/// out was there before and has its matcher and all else but its calls of hcom; and each that was
/// there before and had more than such calls is there afterwards.
pub proof fn clearing_keeps_the_groups_of_others(root: Tree, event: Seq<char>, i: int, j: int)
    requires
        0 <= i < groups_at(root, event).len(),
    ensures
        ({
            let before = groups_at(root, event);
            let after = groups_at(uninstalled(root), event);
            &&& 0 <= j < after.len() ==> comes_from_one_of(before, after[j])
            &&& !only_calls(before[i]) ==> becomes_one_of(before[i], after)
        }),
{
    lemma_same_words(root, event);
    lemma_same_words(uninstalled(root), event);
    lemma_groups_after_removal(root, event);
    lemma_kept_groups(groups_at(root, event), |group: Tree| !is_idle(group), i);
    lemma_stripped(groups_at(root, event)[i]);
}

/// Putting the hooks in gives every event of a hook its array and leaves all that stands elsewhere
/// in the file. A file that is no object is treated as an empty one.
pub proof fn merging_stays_in_its_place(root: Tree, prefix: Seq<Seq<char>>, key: Seq<char>)
    ensures
        merged(root, prefix) is Object,
        same_members_besides_hooks(
            if root is Object {
                root
            } else {
                Tree::Object(Map::empty())
            },
            merged(root, prefix),
        ),
        merged(root, prefix)->Object_0.dom().contains("hooks"@),
        merged(root, prefix)->Object_0["hooks"@] == Tree::Object(events_in(merged(root, prefix))),
        has_hook(key) ==> events_in(merged(root, prefix)).dom().contains(key) && events_in(
            merged(root, prefix),
        )[key] == Tree::Array(groups_at(merged(root, prefix), key)),
        !has_hook(key) ==> events_in(merged(root, prefix)).dom().contains(key) == events_in(
            root,
        ).dom().contains(key) && (events_in(root).dom().contains(key) ==> events_in(
            merged(root, prefix),
        )[key] == events_in(root)[key]),
{
    lemma_same_words(root, key);
    let members = members_or_none(Some(root));
    let hooks = members_or_none(Tree::Object(members).get("hooks"@));
    assert(hooks =~= events_in(root));
    assert(events_in(merged(root, prefix)) == merged_events(hooks, prefix));
}

/// What becomes of a group when the hooks are taken out, of whatever event it is. It goes only if
/// it held nothing but calls of hcom. Otherwise it loses these and nothing else: neither its
/// matcher or any other member nor an entry of others.
pub proof fn a_group_is_cleared(root: Tree, event: Seq<char>, group: Tree)
    requires
        groups_at(root, event) == seq![group],
    ensures
        ({
            let after = groups_at(uninstalled(root), event);
            if only_calls(group) {
                after.len() == 0
            } else {
                after.len() == 1 && lost_its_calls_only(group, after[0])
            }
        }),
{
    lemma_same_words(root, event);
    lemma_same_words(uninstalled(root), event);
    lemma_groups_after_removal(root, event);
    lemma_stripped(group);
    assert(all_without_hcom(seq![group]) =~= seq![without_hcom(group)]);
    lemma_filter_one(without_hcom(group), |group: Tree| !is_idle(group));
    let after = groups_at(uninstalled(root), event);
    if only_calls(group) {
        assert(after =~= Seq::<Tree>::empty());
    } else {
        assert(after =~= seq![without_hcom(group)]);
    }
}

/// Each group is cleared by itself and the groups keep their order: where the groups of one file
/// are those of two others, one behind the other, so are the groups that stay. Where there were
/// none, none are.
pub proof fn groups_are_cleared_one_by_one(root: Tree, front: Tree, back: Tree, event: Seq<char>)
    requires
        groups_at(root, event) == groups_at(front, event) + groups_at(back, event),
    ensures
        groups_at(root, event).len() == 0 ==> groups_at(uninstalled(root), event).len() == 0,
        groups_at(uninstalled(root), event) == groups_at(uninstalled(front), event) + groups_at(
            uninstalled(back),
            event,
        ),
{
    lemma_same_words(root, event);
    lemma_same_words(front, event);
    lemma_same_words(back, event);
    lemma_same_words(uninstalled(root), event);
    lemma_same_words(uninstalled(front), event);
    lemma_same_words(uninstalled(back), event);
    lemma_groups_after_removal(root, event);
    lemma_groups_after_removal(front, event);
    lemma_groups_after_removal(back, event);
    let x = groups_at(front, event);
    let y = groups_at(back, event);
    assert(all_without_hcom(x + y) =~= all_without_hcom(x) + all_without_hcom(y));
    lemma_filter_of_sum(
        all_without_hcom(x),
        all_without_hcom(y),
        |group: Tree| !is_idle(group),
    );
    reveal(Seq::filter);
    if x.len() + y.len() == 0 {
        assert(kept_by_removal(x + y) =~= Seq::<Tree>::empty());
    }
}

/// A file out of which the hooks were taken has the events that have groups left, and no others.
/// Where there is such an event the other members of the file are as they were; where there is
/// none, the file holds an empty object under `hooks` and nothing else.
pub proof fn clearing_stays_in_its_place(root: Tree, event: Seq<char>)
    ensures
        uninstalled(root) is Object,
        uninstalled(root)->Object_0.dom().contains("hooks"@),
        uninstalled(root)->Object_0["hooks"@] == Tree::Object(events_in(uninstalled(root))),
        events_in(uninstalled(root)).dom().contains(event) <==> groups_at(
            uninstalled(root),
            event,
        ).len() > 0,
        groups_at(uninstalled(root), event).len() > 0 ==> events_in(uninstalled(root))[event]
            == Tree::Array(groups_at(uninstalled(root), event)) && same_members_besides_hooks(
            root,
            uninstalled(root),
        ),
        events_in(uninstalled(root)) == Members::empty() ==> uninstalled(root) == Tree::Object(
            map!["hooks"@ => Tree::Object(Map::empty())],
        ),
{
    lemma_same_words(root, event);
    lemma_same_words(uninstalled(root), event);
    lemma_groups_after_removal(root, event);
    let hooks = events_in(root);
    let after = cleared_events(hooks);
    assert(events_in(empty_file()) =~= Members::empty());
    if root.object_at("hooks"@) is Some {
        assert(cleared(root).object_at("hooks"@) == Some(after));
        if after == Members::empty() {
            assert(uninstalled(root) == empty_file());
        } else {
            assert(uninstalled(root) == cleared(root));
            assert(events_in(cleared(root)) == after);
        }
    } else {
        assert(uninstalled(root) == empty_file());
    }
}

/// Taking the hooks out of a value leaves the members beside `hooks`, has the same groups as the
/// file that is written, and leaves a value without an object under `hooks` as it is.
pub proof fn clearing_a_value(root: Tree, event: Seq<char>)
    ensures
        same_members_besides_hooks(root, cleared(root)),
        groups_at(cleared(root), event) == groups_at(uninstalled(root), event),
        events_in(cleared(root)).dom().contains(event) <==> groups_at(cleared(root), event).len()
            > 0,
        (root is Object && root->Object_0.dom().contains("hooks"@)
            && root->Object_0["hooks"@] is Object) ==> cleared(root)->Object_0.dom().contains(
            "hooks"@,
        ) && cleared(root)->Object_0["hooks"@] is Object,
        !(root is Object && root->Object_0.dom().contains("hooks"@)
            && root->Object_0["hooks"@] is Object) ==> cleared(root) == root,
{
    lemma_same_words(root, event);
    lemma_same_words(uninstalled(root), event);
    let hooks = events_in(root);
    let after = cleared_events(hooks);
    assert(events_in(empty_file()) =~= Members::empty());
    if root.object_at("hooks"@) is Some {
        assert(cleared(root).object_at("hooks"@) == Some(after));
        assert(events_in(cleared(root)) == after);
    } else {
        assert(events_in(root) =~= Members::empty());
    }
}

/// Whether an entry has the type `command` and runs the line.
pub open spec fn runs(entry: Tree, line: Seq<char>) -> bool {
    match entry {
        Tree::Object(fields) => {
            &&& fields.dom().contains("type"@)
            &&& fields["type"@] == Tree::Str("command"@)
            &&& fields.dom().contains("command"@)
            &&& fields["command"@] == Tree::Str(line)
        },
        _ => false,
    }
}

/// Whether some group of an event, wherever it stands, has some entry that runs the line.
pub open spec fn some_group_runs(root: Tree, event: Seq<char>, line: Seq<char>) -> bool {
    exists|i: int, j: int| #[trigger] entry_runs(root, event, line, i, j)
}

/// Whether the entry at place `j` of the group at place `i` of an event runs the line.
pub open spec fn entry_runs(root: Tree, event: Seq<char>, line: Seq<char>, i: int, j: int) -> bool {
    &&& 0 <= i < groups_at(root, event).len()
    &&& match entries_in(groups_at(root, event)[i]) {
        Some(entries) => 0 <= j < entries.len() && runs(entries[j], line),
        None => false,
    }
}

proof fn lemma_event_runs(root: Tree, event: Seq<char>, line: Seq<char>)
    ensures
        event_runs_line(events_in(root), event, line) == some_group_runs(root, event, line),
{
    let groups = elements_or_none(Tree::Object(events_in(root)).get(event));
    assert(groups =~= groups_at(root, event));
    if event_runs_line(events_in(root), event, line) {
        let i = choose|i: int| 0 <= i < groups.len() && group_runs_line(#[trigger] groups[i], line);
        let entries = groups[i].array_at("hooks"@)->Some_0;
        assert(entries_run_line(entries, line));
        let j = choose|j: int| 0 <= j < entries.len() && runs_line(#[trigger] entries[j], line);
        assert(entry_runs(root, event, line, i, j));
    }
    if some_group_runs(root, event, line) {
        let (i, j) = choose|i: int, j: int| #[trigger] entry_runs(root, event, line, i, j);
        let entries = entries_in(groups[i])->Some_0;
        assert(groups[i].array_at("hooks"@) == Some(entries));
        assert(runs_line(entries[j], line));
        assert(entries_run_line(entries, line));
        assert(group_runs_line(groups[i], line));
    }
}

/// The hooks are there if and only if each event of a hook has, in some group at some place and
/// there at some place, an entry of the type `command` that runs the subcommand named after the
/// event.
pub proof fn installed_means_an_entry_for_each_event(root: Tree, prefix: Seq<Seq<char>>)
    ensures
        is_installed(root, prefix) <==> forall|event: Seq<char>| #[trigger]
            has_hook(event) ==> some_group_runs(
                root,
                event,
                command_line(prefix, "grok-"@ + ascii_lower(event)),
            ),
{
    let table = grok_hook_commands();
    lemma_same_words(root, "Stop"@);
    if is_installed(root, prefix) {
        assert forall|event: Seq<char>| #[trigger] has_hook(event) implies some_group_runs(
            root,
            event,
            command_line(prefix, "grok-"@ + ascii_lower(event)),
        ) by {
            events_with_a_hook(event);
            let i = choose|i: int| 0 <= i < table.len() && (#[trigger] table[i]).0 == event;
            commands_are_named_after_events(i);
            let line = command_line(prefix, table[i].1);
            assert(root.object_at("hooks"@) == Some(events_in(root)));
            assert(event_runs_line(events_in(root), table[i].0, line));
            lemma_event_runs(root, event, line);
        }
    }
    if forall|event: Seq<char>| #[trigger]
        has_hook(event) ==> some_group_runs(
            root,
            event,
            command_line(prefix, "grok-"@ + ascii_lower(event)),
        ) {
        assert forall|i: int| 0 <= i < table.len() implies event_runs_line(
            events_in(root),
            (#[trigger] table[i]).0,
            command_line(prefix, table[i].1),
        ) by {
            let event = table[i].0;
            events_with_a_hook(event);
            commands_are_named_after_events(i);
            assert(has_hook(event));
            lemma_event_runs(root, event, command_line(prefix, table[i].1));
        }
        assert(has_hook("Stop"@));
        let line = command_line(prefix, "grok-"@ + ascii_lower("Stop"@));
        let (i, j) = choose|i: int, j: int| #[trigger] entry_runs(root, "Stop"@, line, i, j);
        assert(groups_at(root, "Stop"@).len() > 0);
        assert(root.object_at("hooks"@) == Some(events_in(root)));
    }
}

/// A file in which each event has all the groups of an installed one, with any groups before,
/// between or behind them, is installed.
pub proof fn more_groups_leave_a_file_installed(
    root: Tree,
    other: Tree,
    prefix: Seq<Seq<char>>,
)
    requires
        is_installed(root, prefix),
        forall|event: Seq<char>, group: Tree|
            groups_at(root, event).contains(group) ==> #[trigger] groups_at(
                other,
                event,
            ).contains(group),
    ensures
        is_installed(other, prefix),
{
    installed_means_an_entry_for_each_event(root, prefix);
    installed_means_an_entry_for_each_event(other, prefix);
    assert forall|event: Seq<char>| #[trigger] has_hook(event) implies some_group_runs(
        other,
        event,
        command_line(prefix, "grok-"@ + ascii_lower(event)),
    ) by {
        let line = command_line(prefix, "grok-"@ + ascii_lower(event));
        assert(some_group_runs(root, event, line));
        let (i, j) = choose|i: int, j: int| #[trigger] entry_runs(root, event, line, i, j);
        let group = groups_at(root, event)[i];
        assert(groups_at(root, event).contains(group));
        assert(groups_at(other, event).contains(group));
        let k = choose|k: int|
            0 <= k < groups_at(other, event).len() && groups_at(other, event)[k] == group;
        assert(entry_runs(other, event, line, k, j));
    }
}

/// The entry that runs a subcommand, in full, and which entries call hcom: those whose `command`
/// is a text that does, whatever else they hold.
pub proof fn entries_in_full(prefix: Seq<Seq<char>>, command: Seq<char>, entry: Tree)
    ensures
        hcom_entry(prefix, command) == Tree::Object(
            map![
                "type"@ => Tree::Str("command"@),
                "command"@ => Tree::Str(command_line(prefix, command)),
                "timeout"@ => Tree::Number(Num::Unsigned(15)),
            ],
        ),
        is_hcom_entry(entry) == calls(entry),
{
}

} // verus!
