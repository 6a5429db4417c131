//! What an installation, a test for the hooks and a removal do, event by event.
use crate::install::{is_installed, merged, uninstalled};
use crate::json::{Members, Tree};
use crate::paths::{config_place, hooks_place, PathRoot, Place};
use crate::setup::{
    removal_of, remove_next, setup_next, text_is_installed, Failure, FileState, Removal,
    RemoveAction, RemoveEvent, SetupAction, SetupEvent,
};
use crate::wire::{json_reading, pretty_json};
use vstd::prelude::*;

verus! {

/// The hooks file that an installation writes.
pub open spec fn target(grok_home: Option<Seq<char>>) -> Place {
    hooks_place(config_place(grok_home, PathRoot::ToolConfigRoot))
}

/// The directory of a file.
pub open spec fn directory_above(path: Place) -> Place {
    Place { root: path.root, parts: path.parts.drop_last() }
}

/// An installation reads the hooks file, writes it, reads it again, and succeeds just where the
/// file then has the hooks.
pub proof fn how_an_installation_goes(
    grok_home: Option<Seq<char>>,
    prefix: Seq<Seq<char>>,
    content: Option<Seq<char>>,
)
    ensures
        setup_next(grok_home, prefix, SetupEvent::Started) == (SetupAction::<
            Place,
            Seq<char>,
            Failure,
        >::Read { path: target(grok_home) }),
        setup_next(grok_home, prefix, SetupEvent::Written) == (SetupAction::<
            Place,
            Seq<char>,
            Failure,
        >::ReadBack { path: target(grok_home) }),
        text_is_installed(content, prefix) ==> setup_next(
            grok_home,
            prefix,
            SetupEvent::ReadBack(content),
        ) == SetupAction::<Place, Seq<char>, Failure>::Finish(Ok(())),
        !text_is_installed(content, prefix) ==> setup_next(
            grok_home,
            prefix,
            SetupEvent::ReadBack(content),
        ) == SetupAction::<Place, Seq<char>, Failure>::Finish(
            Err(Failure::PostWriteVerifyFailed { path: target(grok_home) }),
        ),
{
}

/// What is written into the hooks file is the object that it held with the hooks put in; a file
/// that is not there is treated like one with an empty object.
pub proof fn an_object_is_written_with_the_hooks(
    grok_home: Option<Seq<char>>,
    prefix: Seq<Seq<char>>,
    text: Seq<char>,
    members: Members,
)
    ensures
        json_reading(text) == Ok::<Tree, Seq<char>>(Tree::Object(members)) ==> setup_next(
            grok_home,
            prefix,
            SetupEvent::Found(FileState::Text(text)),
        ) == (SetupAction::<Place, Seq<char>, Failure>::Write {
            dir: directory_above(target(grok_home)),
            path: target(grok_home),
            text: pretty_json(merged(Tree::Object(members), prefix)),
        }),
        setup_next(grok_home, prefix, SetupEvent::Found(FileState::Missing)) == (SetupAction::<
            Place,
            Seq<char>,
            Failure,
        >::Write {
            dir: directory_above(target(grok_home)),
            path: target(grok_home),
            text: pretty_json(merged(Tree::Object(Map::empty()), prefix)),
        }),
{
    let config = config_place(grok_home, PathRoot::ToolConfigRoot);
    assert(directory_above(target(grok_home)).parts =~= config.join("hooks"@).parts);
}

/// Whether an action stops an installation with the given failure.
pub open spec fn fails_with(
    action: SetupAction<Place, Seq<char>, Failure>,
    failure: Failure,
) -> bool {
    action == SetupAction::<Place, Seq<char>, Failure>::Finish(Err(failure))
}

/// Whatever goes wrong stops an installation before anything is written, or after it could not
/// be, with the failure that says what went wrong, where, and why.
pub proof fn what_stops_an_installation(
    grok_home: Option<Seq<char>>,
    prefix: Seq<Seq<char>>,
    text: Seq<char>,
)
    ensures
        fails_with(
            setup_next(grok_home, prefix, SetupEvent::Found(FileState::Unreadable(text))),
            Failure::ExistingReadFailed { path: target(grok_home), source: text },
        ),
        json_reading(text) matches Err(source) ==> fails_with(
            setup_next(grok_home, prefix, SetupEvent::Found(FileState::Text(text))),
            Failure::ExistingParseFailed { path: target(grok_home), source },
        ),
        json_reading(text) matches Ok(root) && !(root is Object) ==> fails_with(
            setup_next(grok_home, prefix, SetupEvent::Found(FileState::Text(text))),
            Failure::ExistingRootNotObject { path: target(grok_home) },
        ),
        fails_with(
            setup_next(grok_home, prefix, SetupEvent::DirFailed(text)),
            Failure::DirCreateFailed { path: directory_above(target(grok_home)), source: text },
        ),
        fails_with(
            setup_next(grok_home, prefix, SetupEvent::WriteFailed(text)),
            Failure::AtomicWriteFailed { path: target(grok_home), source: text },
        ),
{
    let config = config_place(grok_home, PathRoot::ToolConfigRoot);
    assert(directory_above(target(grok_home)).parts =~= config.join("hooks"@).parts);
}

/// The test for the hooks passes on a text just where it is read as a value that has them; without
/// a text it fails.
pub proof fn the_test_reads_the_text(text: Seq<char>, prefix: Seq<Seq<char>>)
    ensures
        !text_is_installed(None, prefix),
        json_reading(text) is Err ==> !text_is_installed(Some(text), prefix),
        json_reading(text) matches Ok(root) ==> text_is_installed(Some(text), prefix)
            == is_installed(root, prefix),
{
}

/// A file that is not there needs no removal; one that cannot be read or holds no object is
/// refused; any other is written without the hooks.
pub proof fn what_a_removal_does_with_a_file(text: Seq<char>, members: Members)
    ensures
        removal_of(FileState::Missing) == Removal::<Seq<char>>::AlreadyGone,
        removal_of(FileState::Unreadable(text)) == Removal::<Seq<char>>::Refused,
        json_reading(text) is Err ==> removal_of(FileState::Text(text)) == Removal::<
            Seq<char>,
        >::Refused,
        json_reading(text) matches Ok(root) && !(root is Object) ==> removal_of(
            FileState::Text(text),
        ) == Removal::<Seq<char>>::Refused,
        json_reading(text) == Ok::<Tree, Seq<char>>(Tree::Object(members)) ==> removal_of(
            FileState::Text(text),
        ) == Removal::Rewrite(pretty_json(uninstalled(Tree::Object(members)))),
{
}

/// A removal takes the files one by one, from the first to the last. It writes what the file at
/// hand becomes, goes on once the file is dealt with, and stops at the first that is not.
pub proof fn how_a_removal_goes(
    count: usize,
    index: usize,
    file: FileState<Seq<char>>,
    text: Seq<char>,
)
    requires
        index < count,
    ensures
        remove_next(count, RemoveEvent::Started) == (RemoveAction::<Seq<char>>::Read { index: 0 }),
        remove_next(0, RemoveEvent::Started) == RemoveAction::<Seq<char>>::Finish(true),
        remove_next(count, RemoveEvent::Written { index, ok: false }) == RemoveAction::<
            Seq<char>,
        >::Finish(false),
        index + 1 < count ==> remove_next(count, RemoveEvent::Written { index, ok: true })
            == (RemoveAction::<Seq<char>>::Read { index: (index + 1) as usize }),
        index + 1 == count ==> remove_next(count, RemoveEvent::Written { index, ok: true })
            == RemoveAction::<Seq<char>>::Finish(true),
        removal_of(file) == Removal::<Seq<char>>::AlreadyGone ==> remove_next(
            count,
            RemoveEvent::Found { index, file },
        ) == remove_next(count, RemoveEvent::Written { index, ok: true }),
        removal_of(file) == Removal::<Seq<char>>::Refused ==> remove_next(
            count,
            RemoveEvent::Found { index, file },
        ) == RemoveAction::<Seq<char>>::Finish(false),
        removal_of(file) == Removal::Rewrite(text) ==> remove_next(
            count,
            RemoveEvent::Found { index, file },
        ) == (RemoveAction::Write { index, text }),
{
}

} // verus!
