//! The hooks file of Grok as a JSON value: putting the hcom hooks in, taking them out and
//! telling whether they are there.
//!
//! The file maps each event to an array of groups, and a group holds an array of entries:
//! `{ "hooks": { "Stop": [ { "hooks": [ { "type": "command", "command": "..." } ] } ] } }`.
use crate::commands::{
    build_grok_hook_command, calls_hcom, command_line, grok_hook_commands, hook_commands,
    is_hcom_grok_command, lemma_table, HOOK_TIMEOUT_SECS,
};
use crate::json::{
    distinct_keys, lemma_array_tree, lemma_members, members_of, pairs_of, trees, Json, JsonObject,
    Members, Num, Tree,
};
use crate::text::{same_text, texts};
use vstd::prelude::*;

verus! {

/// The entry that Grok runs for a subcommand.
pub open spec fn hcom_entry(prefix: Seq<Seq<char>>, command: Seq<char>) -> Tree {
    Tree::Object(
        map![
            "type"@ => Tree::Str("command"@),
            "command"@ => Tree::Str(command_line(prefix, command)),
            "timeout"@ => Tree::Number(Num::Unsigned(HOOK_TIMEOUT_SECS)),
        ],
    )
}

/// The group that holds the entry of a subcommand and nothing else.
pub open spec fn hcom_group(prefix: Seq<Seq<char>>, command: Seq<char>) -> Tree {
    Tree::Object(map!["hooks"@ => Tree::Array(seq![hcom_entry(prefix, command)])])
}

/// Whether an entry calls hcom.
pub open spec fn is_hcom_entry(entry: Tree) -> bool {
    match entry.str_at("command"@) {
        Some(line) => calls_hcom(line),
        None => false,
    }
}

/// The entries that do not call hcom.
pub open spec fn foreign_entries(entries: Seq<Tree>) -> Seq<Tree> {
    entries.filter(|entry: Tree| !is_hcom_entry(entry))
}

/// A group without its entries that call hcom. What is no group with entries stays as it is.
pub open spec fn without_hcom(group: Tree) -> Tree {
    match group.array_at("hooks"@) {
        Some(entries) => Tree::Object(
            group->Object_0.insert("hooks"@, Tree::Array(foreign_entries(entries))),
        ),
        None => group,
    }
}

/// A group whose array of entries is empty.
pub open spec fn is_idle(group: Tree) -> bool {
    match group.array_at("hooks"@) {
        Some(entries) => entries.len() == 0,
        None => false,
    }
}

/// Whether a group has a member besides its entries and its matcher.
pub open spec fn is_annotated(group: Tree) -> bool {
    exists|key: Seq<char>|
        group is Object && #[trigger] group->Object_0.dom().contains(key) && key != "hooks"@ && key
            != "matcher"@
}

/// Each group without its entries that call hcom.
pub open spec fn all_without_hcom(groups: Seq<Tree>) -> Seq<Tree> {
    groups.map_values(|group: Tree| without_hcom(group))
}

/// The groups that stay when the hooks are put in: an idle group goes, unless it is annotated.
pub open spec fn kept_by_merge(groups: Seq<Tree>) -> Seq<Tree> {
    all_without_hcom(groups).filter(|group: Tree| !is_idle(group) || is_annotated(group))
}

/// The groups that stay when the hooks are taken out: every idle group goes.
pub open spec fn kept_by_removal(groups: Seq<Tree>) -> Seq<Tree> {
    all_without_hcom(groups).filter(|group: Tree| !is_idle(group))
}

/// Adding one element to a sequence before it is filtered.
proof fn lemma_filter_next(s: Seq<Tree>, pred: spec_fn(Tree) -> bool, i: int)
    requires
        0 <= i < s.len(),
    ensures
        s.take(i + 1).filter(pred) == if pred(s[i]) {
            s.take(i).filter(pred).push(s[i])
        } else {
            s.take(i).filter(pred)
        },
{
    reveal(Seq::filter);
    assert(s.take(i + 1).drop_last() =~= s.take(i));
}

/// The entry that Grok runs for a subcommand.
pub fn expected_command_hook(prefix: &Vec<String>, command: &str) -> (entry: Json)
    ensures
        entry@ == hcom_entry(texts(prefix@), command@),
{
    let mut object = JsonObject::new();
    object.insert("type", Json::string("command"));
    object.insert("command", Json::Str(build_grok_hook_command(prefix, command)));
    object.insert("timeout", Json::unsigned(HOOK_TIMEOUT_SECS));
    Json::Object(object)
}

fn expected_group(prefix: &Vec<String>, command: &str) -> (group: Json)
    ensures
        group@ == hcom_group(texts(prefix@), command@),
{
    broadcast use lemma_array_tree;

    let mut entries: Vec<Json> = Vec::new();
    entries.push(expected_command_hook(prefix, command));
    assert(trees(entries@) =~= seq![hcom_entry(texts(prefix@), command@)]);
    let mut object = JsonObject::new();
    object.insert("hooks", Json::Array(entries));
    Json::Object(object)
}

/// Whether an entry calls hcom.
pub fn entry_calls_hcom(entry: &Json) -> (ours: bool)
    ensures
        ours == is_hcom_entry(entry@),
{
    match entry.str_at("command") {
        Some(line) => is_hcom_grok_command(line),
        None => false,
    }
}

fn drop_hcom_entries(entries: Vec<Json>) -> (kept: Vec<Json>)
    ensures
        trees(kept@) == foreign_entries(trees(entries@)),
{
    let ghost pred = |entry: Tree| !is_hcom_entry(entry);
    let ghost all = trees(entries@);
    let mut kept: Vec<Json> = Vec::new();
    proof {
        reveal(Seq::filter);
        assert(trees(kept@) =~= all.take(0).filter(pred));
    }
    for entry in it: entries
        invariant
            it.seq() == entries@,
            all == trees(entries@),
            pred == (|entry: Tree| !is_hcom_entry(entry)),
            trees(kept@) == all.take(it.index() as int).filter(pred),
    {
        let ghost before = trees(kept@);
        proof {
            lemma_filter_next(all, pred, it.index() as int);
            assert(all[it.index() as int] == entry@);
        }
        if !entry_calls_hcom(&entry) {
            kept.push(entry);
            assert(trees(kept@) =~= before.push(entry@));
        }
    }
    assert(all.take(all.len() as int) =~= all);
    kept
}

/// A group without its entries that call hcom, and whether it is to stay: where `spare` is
/// true, an idle group stays if it is annotated.
fn strip_group(group: Json, spare: bool) -> (result: (Json, bool))
    ensures
        result.0@ == without_hcom(group@),
        result.1 == (!is_idle(result.0@) || (spare && is_annotated(result.0@))),
{
    broadcast use lemma_array_tree;

    let mut object = match group {
        Json::Object(object) => object,
        other => {
            return (other, true);
        },
    };
    let ghost members = object@;
    match object.take("hooks") {
        Some(Json::Array(entries)) => {
            let kept = drop_hcom_entries(entries);
            let idle = kept.is_empty();
            object.insert("hooks", Json::Array(kept));
            assert(object@ =~= members.insert("hooks"@, Tree::Array(trees(kept@))));
            let stays = !idle || (spare && object.has_key_besides("hooks", "matcher"));
            (Json::Object(object), stays)
        },
        Some(other) => {
            object.insert("hooks", other);
            assert(object@ =~= members);
            (Json::Object(object), true)
        },
        None => {
            assert(object@ =~= members);
            (Json::Object(object), true)
        },
    }
}

/// The groups without their entries that call hcom and without those that do not stay.
fn strip_groups(groups: Vec<Json>, spare: bool) -> (kept: Vec<Json>)
    ensures
        trees(kept@) == if spare {
            kept_by_merge(trees(groups@))
        } else {
            kept_by_removal(trees(groups@))
        },
{
    let ghost pred = if spare {
        |group: Tree| !is_idle(group) || is_annotated(group)
    } else {
        |group: Tree| !is_idle(group)
    };
    let ghost all = all_without_hcom(trees(groups@));
    let mut kept: Vec<Json> = Vec::new();
    proof {
        reveal(Seq::filter);
        assert(trees(kept@) =~= all.take(0).filter(pred));
    }
    for group in it: groups
        invariant
            it.seq() == groups@,
            all == all_without_hcom(trees(groups@)),
            forall|group: Tree| #[trigger]
                pred(group) == (!is_idle(group) || (spare && is_annotated(group))),
            trees(kept@) == all.take(it.index() as int).filter(pred),
    {
        let ghost before = trees(kept@);
        proof {
            lemma_filter_next(all, pred, it.index() as int);
            assert(all[it.index() as int] == without_hcom(group@));
        }
        let (stripped, stays) = strip_group(group, spare);
        if stays {
            kept.push(stripped);
            assert(trees(kept@) =~= before.push(stripped@));
        }
    }
    assert(all.take(all.len() as int) =~= all);
    kept
}

/// Whether Grok has a hook for the event.
pub open spec fn is_hook_event(event: Seq<char>) -> bool {
    exists|i: int|
        0 <= i < grok_hook_commands().len() && (#[trigger] grok_hook_commands()[i]).0 == event
}

/// The subcommand that answers an event.
pub open spec fn command_of(event: Seq<char>) -> Seq<char> {
    let i = choose|i: int|
        0 <= i < grok_hook_commands().len() && (#[trigger] grok_hook_commands()[i]).0 == event;
    grok_hook_commands()[i].1
}

/// The members of an object; none for any other value.
pub open spec fn members_or_none(tree: Option<Tree>) -> Members {
    match tree {
        Some(Tree::Object(members)) => members,
        _ => Map::empty(),
    }
}

/// The elements of an array; none for any other value.
pub open spec fn elements_or_none(tree: Option<Tree>) -> Seq<Tree> {
    match tree {
        Some(Tree::Array(elements)) => elements,
        _ => Seq::empty(),
    }
}

/// The groups of an event after the hooks were put in.
pub open spec fn merged_groups(
    hooks: Members,
    prefix: Seq<Seq<char>>,
    event: Seq<char>,
    command: Seq<char>,
) -> Seq<Tree> {
    kept_by_merge(elements_or_none(Tree::Object(hooks).get(event))).push(
        hcom_group(prefix, command),
    )
}

/// The events after the hooks were put in. What is not among the events of the table stays.
pub open spec fn merged_events(hooks: Members, prefix: Seq<Seq<char>>) -> Members {
    Map::new(
        |event: Seq<char>| hooks.dom().contains(event) || is_hook_event(event),
        |event: Seq<char>|
            if is_hook_event(event) {
                Tree::Array(merged_groups(hooks, prefix, event, command_of(event)))
            } else {
                hooks[event]
            },
    )
}

/// The file after the hooks were put in. What is no object counts as an empty one.
pub open spec fn merged(root: Tree, prefix: Seq<Seq<char>>) -> Tree {
    let members = members_or_none(Some(root));
    let hooks = members_or_none(Tree::Object(members).get("hooks"@));
    Tree::Object(members.insert("hooks"@, Tree::Object(merged_events(hooks, prefix))))
}

/// Each event of the table is found again by its name.
pub proof fn lemma_command_of(i: int)
    requires
        0 <= i < grok_hook_commands().len(),
    ensures
        is_hook_event(grok_hook_commands()[i].0),
        command_of(grok_hook_commands()[i].0) == grok_hook_commands()[i].1,
{
    lemma_table();
    let event = grok_hook_commands()[i].0;
    let j = choose|j: int|
        0 <= j < grok_hook_commands().len() && (#[trigger] grok_hook_commands()[j]).0 == event;
    assert(j == i) by {
        if j < i {
            assert(grok_hook_commands()[j].0 != grok_hook_commands()[i].0);
        } else if i < j {
            assert(grok_hook_commands()[i].0 != grok_hook_commands()[j].0);
        }
    }
}

/// The event is none of the first `n` of the table.
spec fn not_among(event: Seq<char>, n: int) -> bool {
    forall|k: int| 0 <= k < n ==> (#[trigger] grok_hook_commands()[k]).0 != event
}

/// Puts the hcom hooks into the value of a hooks file, in place of those that it holds.
pub fn merge_hcom_hooks(root: &mut Json, prefix: &Vec<String>)
    ensures
        final(root)@ == merged(old(root)@, texts(prefix@)),
{
    broadcast use lemma_array_tree;

    let ghost calls = texts(prefix@);
    let mut whole = Json::Null;
    std::mem::swap(&mut whole, root);
    let mut object = match whole {
        Json::Object(object) => object,
        _ => JsonObject::new(),
    };
    let ghost members = object@;
    let mut hooks = match object.take("hooks") {
        Some(Json::Object(hooks)) => hooks,
        _ => JsonObject::new(),
    };
    let ghost start = hooks@;
    let table = hook_commands();
    let mut i: usize = 0;
    while i < table.len()
        invariant
            i <= table@.len() == grok_hook_commands().len(),
            calls == texts(prefix@),
            forall|k: int|
                0 <= k < table@.len() ==> ((#[trigger] table@[k]).0@, table@[k].1@)
                    == grok_hook_commands()[k],
            forall|k: int|
                0 <= k < i ==> hooks@.dom().contains((#[trigger] grok_hook_commands()[k]).0)
                    && hooks@[grok_hook_commands()[k].0] == Tree::Array(
                    merged_groups(
                        start,
                        calls,
                        grok_hook_commands()[k].0,
                        grok_hook_commands()[k].1,
                    ),
                ),
            forall|key: Seq<char>|
                not_among(key, i as int) ==> (#[trigger] hooks@.dom().contains(key)
                    == start.dom().contains(key)) && (start.dom().contains(key) ==> hooks@[key]
                    == start[key]),
        decreases table@.len() - i,
    {
        let (event, command) = table[i];
        assert((event@, command@) == grok_hook_commands()[i as int]);
        proof {
            lemma_table();
            assert(not_among(event@, i as int));
        }
        let ghost before = hooks@;
        let taken = hooks.take(event);
        let groups = match taken {
            Some(Json::Array(groups)) => groups,
            _ => Vec::new(),
        };
        proof {
            assert(before.dom().contains(event@) == start.dom().contains(event@));
            assert(trees(groups@) =~= elements_or_none(Tree::Object(start).get(event@)));
        }
        let mut kept = strip_groups(groups, true);
        let ghost remaining = trees(kept@);
        let group = expected_group(prefix, command);
        kept.push(group);
        let value = Json::Array(kept);
        proof {
            assert(trees(kept@) =~= remaining.push(group@));
            assert(trees(kept@) == merged_groups(start, calls, event@, command@));
            lemma_array_tree(kept);
        }
        hooks.insert(event, value);
        proof {
            let after = hooks@;
            assert(after =~= before.insert(event@, value@));
            assert forall|key: Seq<char>| not_among(key, i + 1) implies (
            #[trigger] after.dom().contains(key) == start.dom().contains(key)) && (
            start.dom().contains(key) ==> after[key] == start[key]) by {
                assert(grok_hook_commands()[i as int].0 != key);
                assert(not_among(key, i as int));
                assert(before.dom().contains(key) == start.dom().contains(key));
            }
        }
        i = i + 1;
    }
    proof {
        assert forall|key: Seq<char>|
            hooks@.dom().contains(key) == merged_events(start, calls).dom().contains(key) by {
            if is_hook_event(key) {
                let k = choose|k: int|
                    0 <= k < grok_hook_commands().len() && (#[trigger] grok_hook_commands()[k]).0
                        == key;
                assert(hooks@.dom().contains(grok_hook_commands()[k].0));
            }
        }
        assert forall|key: Seq<char>| hooks@.dom().contains(key) implies hooks@[key]
            == merged_events(start, calls)[key] by {
            if is_hook_event(key) {
                let k = choose|k: int|
                    0 <= k < grok_hook_commands().len() && (#[trigger] grok_hook_commands()[k]).0
                        == key;
                lemma_command_of(k);
                assert(hooks@.dom().contains(grok_hook_commands()[k].0));
            }
        }
        assert(hooks@ =~= merged_events(start, calls));
    }
    object.insert("hooks", Json::Object(hooks));
    assert(object@ =~= members.insert("hooks"@, Tree::Object(hooks@)));
    *root = Json::Object(object);
}

/// Whether an event keeps groups when the hooks are taken out.
pub open spec fn survives_removal(hooks: Members, event: Seq<char>) -> bool {
    hooks.dom().contains(event) && hooks[event] is Array && kept_by_removal(
        hooks[event]->Array_0,
    ).len() > 0
}

/// The events after the hooks were taken out. One that keeps no group goes with them.
pub open spec fn cleared_events(hooks: Members) -> Members {
    Map::new(
        |event: Seq<char>| survives_removal(hooks, event),
        |event: Seq<char>| Tree::Array(kept_by_removal(hooks[event]->Array_0)),
    )
}

/// The file after the hooks were taken out. A file without events stays as it is.
pub open spec fn cleared(root: Tree) -> Tree {
    match root.object_at("hooks"@) {
        Some(hooks) => Tree::Object(
            root->Object_0.insert("hooks"@, Tree::Object(cleared_events(hooks))),
        ),
        None => root,
    }
}

/// What is written in place of a file that has no event left.
pub open spec fn empty_file() -> Tree {
    Tree::Object(map!["hooks"@ => Tree::Object(Map::empty())])
}

/// The file as it is written after the hooks were taken out.
pub open spec fn uninstalled(root: Tree) -> Tree {
    match cleared(root).object_at("hooks"@) {
        Some(hooks) => if hooks == Members::empty() {
            empty_file()
        } else {
            cleared(root)
        },
        None => empty_file(),
    }
}

/// Takes the hcom hooks out of the value of a hooks file.
pub fn remove_hcom_hooks(root: &mut Json)
    ensures
        final(root)@ == cleared(old(root)@),
{
    let ghost tree = root@;
    let mut whole = Json::Null;
    std::mem::swap(&mut whole, root);
    let mut object = match whole {
        Json::Object(object) => object,
        other => {
            *root = other;
            return ;
        },
    };
    let ghost members = object@;
    match object.take("hooks") {
        Some(Json::Object(hooks)) => {
            object.insert("hooks", Json::Object(clear_events(hooks)));
            assert(object@ =~= members.insert(
                "hooks"@,
                Tree::Object(cleared_events(tree.object_at("hooks"@)->Some_0)),
            ));
        },
        Some(other) => {
            object.insert("hooks", other);
            assert(object@ =~= members);
        },
        None => {
            assert(object@ =~= members);
        },
    }
    *root = Json::Object(object);
}

fn clear_events(hooks: JsonObject) -> (cleared: JsonObject)
    ensures
        cleared@ == cleared_events(hooks@),
{
    broadcast use lemma_array_tree;

    let ghost all = hooks@;
    let entries = hooks.into_entries();
    let ghost pairs = pairs_of(entries@);
    proof {
        lemma_members(pairs);
    }
    let mut cleared = JsonObject::new();
    for entry in it: entries
        invariant
            it.seq() == entries@,
            pairs == pairs_of(entries@),
            distinct_keys(pairs),
            forall|k: int|
                0 <= k < pairs.len() ==> all.dom().contains((#[trigger] pairs[k]).0)
                    && all[pairs[k].0] == pairs[k].1,
            forall|key: Seq<char>| #[trigger]
                cleared@.dom().contains(key) <==> survives_removal(all, key) && exists|k: int|
                    0 <= k < it.index() && (#[trigger] pairs[k]).0 == key,
            forall|key: Seq<char>| #[trigger]
                cleared@.dom().contains(key) ==> cleared@[key] == Tree::Array(
                    kept_by_removal(all[key]->Array_0),
                ),
    {
        let ghost before = cleared@;
        let ghost n = it.index() as int;
        let (event, value) = entry;
        proof {
            assert(pairs[n] == (event@, value@));
        }
        let ghost mut added = false;
        if let Json::Array(groups) = value {
            proof {
                lemma_array_tree(groups);
            }
            let kept = strip_groups(groups, false);
            if !kept.is_empty() {
                proof {
                    lemma_array_tree(kept);
                    added = true;
                }
                cleared.insert(event.as_str(), Json::Array(kept));
            }
        }
        proof {
            let after = cleared@;
            assert(added == survives_removal(all, event@));
            assert forall|key: Seq<char>| #[trigger]
                after.dom().contains(key) <==> survives_removal(all, key) && exists|k: int|
                    0 <= k < n + 1 && (#[trigger] pairs[k]).0 == key by {
                assert(before.dom().contains(key) <==> survives_removal(all, key) && exists|k: int|
                    0 <= k < n && (#[trigger] pairs[k]).0 == key);
                if key == event@ {
                    assert(pairs[n].0 == key);
                }
            }
        }
    }
    proof {
        assert forall|key: Seq<char>|
            cleared@.dom().contains(key) == cleared_events(all).dom().contains(key) by {
            if survives_removal(all, key) {
                assert(members_of(pairs).dom().contains(key));
            }
        }
        assert(cleared@ =~= cleared_events(all));
    }
    cleared
}

/// Takes the hcom hooks out of the value of a hooks file; one that has no event left becomes
/// an empty file.
pub fn uninstall_hcom_hooks(root: Json) -> (rest: Json)
    ensures
        rest@ == uninstalled(root@),
{
    let mut value = root;
    remove_hcom_hooks(&mut value);
    let bare = match value.get("hooks") {
        Some(Json::Object(hooks)) => hooks.is_empty(),
        _ => true,
    };
    if bare {
        let mut object = JsonObject::new();
        object.insert("hooks", Json::Object(JsonObject::new()));
        Json::Object(object)
    } else {
        value
    }
}

/// Whether an entry is the command `line`.
pub open spec fn runs_line(entry: Tree, line: Seq<char>) -> bool {
    entry.str_at("command"@) == Some(line) && entry.str_at("type"@) == Some("command"@)
}

/// Whether one of the entries is the command `line`.
pub open spec fn entries_run_line(entries: Seq<Tree>, line: Seq<char>) -> bool {
    exists|i: int| 0 <= i < entries.len() && runs_line(#[trigger] entries[i], line)
}

/// Whether a group holds an entry that is the command `line`.
pub open spec fn group_runs_line(group: Tree, line: Seq<char>) -> bool {
    match group.array_at("hooks"@) {
        Some(entries) => entries_run_line(entries, line),
        None => false,
    }
}

/// Whether one of the groups of an event holds an entry that is the command `line`.
pub open spec fn event_runs_line(hooks: Members, event: Seq<char>, line: Seq<char>) -> bool {
    exists|i: int|
        0 <= i < elements_or_none(Tree::Object(hooks).get(event)).len() && group_runs_line(
            #[trigger] elements_or_none(Tree::Object(hooks).get(event))[i],
            line,
        )
}

/// Whether a hooks file has, for every event, the command that answers it.
pub open spec fn is_installed(root: Tree, prefix: Seq<Seq<char>>) -> bool {
    match root.object_at("hooks"@) {
        Some(hooks) => forall|i: int|
            0 <= i < grok_hook_commands().len() ==> event_runs_line(
                hooks,
                (#[trigger] grok_hook_commands()[i]).0,
                command_line(prefix, grok_hook_commands()[i].1),
            ),
        None => false,
    }
}

fn group_has_line(group: &Json, line: &str) -> (found: bool)
    ensures
        found == group_runs_line(group@, line@),
{
    let entries = match group.array_at("hooks") {
        Some(entries) => entries,
        None => {
            return false;
        },
    };
    let ghost all = group@.array_at("hooks"@)->Some_0;
    let mut i: usize = 0;
    while i < entries.len()
        invariant
            i <= entries@.len(),
            group@.array_at("hooks"@) == Some(all),
            all == trees(entries@),
            forall|k: int| 0 <= k < i ==> !runs_line(#[trigger] all[k], line@),
        decreases entries@.len() - i,
    {
        let entry = &entries[i];
        assert(all[i as int] == entry@);
        let same_line = match entry.str_at("command") {
            Some(command) => same_text(command, line),
            None => false,
        };
        let is_command = match entry.str_at("type") {
            Some(kind) => same_text(kind, "command"),
            None => false,
        };
        if same_line && is_command {
            assert(runs_line(all[i as int], line@));
            assert(entries_run_line(all, line@));
            return true;
        }
        i = i + 1;
    }
    false
}

fn event_has_line(hooks: &JsonObject, event: &str, line: &str) -> (found: bool)
    ensures
        found == event_runs_line(hooks@, event@, line@),
{
    let groups = match hooks.get(event) {
        Some(value) => match value.as_array() {
            Some(groups) => groups,
            None => {
                return false;
            },
        },
        None => {
            return false;
        },
    };
    let ghost all = elements_or_none(Tree::Object(hooks@).get(event@));
    let mut i: usize = 0;
    while i < groups.len()
        invariant
            i <= groups@.len(),
            all == elements_or_none(Tree::Object(hooks@).get(event@)),
            all == trees(groups@),
            forall|k: int| 0 <= k < i ==> !group_runs_line(#[trigger] all[k], line@),
        decreases groups@.len() - i,
    {
        assert(all[i as int] == groups@[i as int]@);
        if group_has_line(&groups[i], line) {
            return true;
        }
        i = i + 1;
    }
    false
}

/// Whether a hooks file has, for every event, the command that answers it.
pub fn has_hcom_hooks(root: &Json, prefix: &Vec<String>) -> (installed: bool)
    ensures
        installed == is_installed(root@, texts(prefix@)),
{
    let hooks = match root.get("hooks") {
        Some(Json::Object(hooks)) => hooks,
        _ => {
            return false;
        },
    };
    let table = hook_commands();
    let mut i: usize = 0;
    while i < table.len()
        invariant
            i <= table@.len() == grok_hook_commands().len(),
            root@.object_at("hooks"@) == Some(hooks@),
            forall|k: int|
                0 <= k < table@.len() ==> ((#[trigger] table@[k]).0@, table@[k].1@)
                    == grok_hook_commands()[k],
            forall|k: int|
                0 <= k < i ==> event_runs_line(
                    hooks@,
                    (#[trigger] grok_hook_commands()[k]).0,
                    command_line(texts(prefix@), grok_hook_commands()[k].1),
                ),
        decreases table@.len() - i,
    {
        let (event, command) = table[i];
        assert((event@, command@) == grok_hook_commands()[i as int]);
        let expected = build_grok_hook_command(prefix, command);
        if !event_has_line(hooks, event, expected.as_str()) {
            return false;
        }
        i = i + 1;
    }
    true
}

} // verus!
