//! Installing the hooks in the file of Grok, telling whether they are installed, and removing
//! them. The functions decide; reading and writing files is left to the process, which hands in
//! what came of it.
use crate::install::{
    has_hcom_hooks, is_installed, merge_hcom_hooks, merged, uninstall_hcom_hooks, uninstalled,
};
use crate::install_laws::{
    merge_is_idempotent, merged_file_is_installed, removal_is_idempotent, removal_undoes_merge,
    removed_file_is_not_installed,
};
use crate::json::{Json, JsonObject, Members, Num, Tree};
use crate::paths::{
    config_place, get_grok_hooks_path, grok_config_dir, hooks_place, FilePath, PathRoot, Place,
};
use crate::readback::{
    any_number, decimals_do_not_matter, lemma_any_number, merged_file_is_sound,
    uninstalled_file_is_sound,
};
use crate::text::{str_of, text_of, texts};
use crate::wire::{
    error_message, json_reading, members_nested_within, moderate_number, nested_within, numbers_within, parse_json, parsed_json,
    pretty_json, pretty_text, reads_alike, whole_number, DEPTH_LIMIT,
};
use vstd::prelude::*;

verus! {

/// Why the hooks could not be installed.
#[allow(inconsistent_fields)]
#[derive(Debug)]
pub enum SetupError {
    /// The file is there but could not be read.
    ExistingReadFailed { path: FilePath, source: String },
    /// The file holds no JSON.
    ExistingParseFailed { path: FilePath, source: serde_json::Error },
    /// The file holds JSON, but no object.
    ExistingRootNotObject { path: FilePath },
    /// The directory of the file could not be made.
    DirCreateFailed { path: FilePath, source: String },
    /// The file could not be put in text.
    SerializationFailed(serde_json::Error),
    /// The file could not be written.
    AtomicWriteFailed { path: FilePath, source: String },
    /// The file was written, but the hooks are not in it.
    PostWriteVerifyFailed(FilePath),
}

/// What a setup error says.
pub enum Failure {
    ExistingReadFailed { path: Place, source: Seq<char> },
    ExistingParseFailed { path: Place, source: Seq<char> },
    ExistingRootNotObject { path: Place },
    DirCreateFailed { path: Place, source: Seq<char> },
    SerializationFailed { source: Seq<char> },
    AtomicWriteFailed { path: Place, source: Seq<char> },
    PostWriteVerifyFailed { path: Place },
}

impl View for SetupError {
    type V = Failure;

    open spec fn view(&self) -> Failure {
        match self {
            SetupError::ExistingReadFailed { path, source } => Failure::ExistingReadFailed {
                path: path@,
                source: source@,
            },
            SetupError::ExistingParseFailed { path, source } => Failure::ExistingParseFailed {
                path: path@,
                source: error_message(*source),
            },
            SetupError::ExistingRootNotObject { path } => Failure::ExistingRootNotObject {
                path: path@,
            },
            SetupError::DirCreateFailed { path, source } => Failure::DirCreateFailed {
                path: path@,
                source: source@,
            },
            SetupError::SerializationFailed(source) => Failure::SerializationFailed {
                source: error_message(*source),
            },
            SetupError::AtomicWriteFailed { path, source } => Failure::AtomicWriteFailed {
                path: path@,
                source: source@,
            },
            SetupError::PostWriteVerifyFailed(path) => Failure::PostWriteVerifyFailed {
                path: path@,
            },
        }
    }
}

/// What was found where the hooks file should be.
pub enum FileState<S> {
    /// There is no file.
    Missing,
    /// There is a file, and reading it failed with the given message.
    Unreadable(S),
    /// There is a file with the given text.
    Text(S),
}

/// What a process found.
pub type ExistingFile = FileState<String>;

/// What a file state holds.
pub open spec fn file_view(file: ExistingFile) -> FileState<Seq<char>> {
    match file {
        FileState::Missing => FileState::Missing,
        FileState::Unreadable(message) => FileState::Unreadable(message@),
        FileState::Text(text) => FileState::Text(text@),
    }
}

/// The members of the object that a file holds. A file that is not there counts as an empty
/// object.
pub open spec fn object_in(path: Place, file: FileState<Seq<char>>) -> Result<Members, Failure> {
    match file {
        FileState::Missing => Ok(Map::empty()),
        FileState::Unreadable(source) => Err(Failure::ExistingReadFailed { path, source }),
        FileState::Text(text) => match json_reading(text) {
            Err(source) => Err(Failure::ExistingParseFailed { path, source }),
            Ok(Tree::Object(members)) => Ok(members),
            Ok(_) => Err(Failure::ExistingRootNotObject { path }),
        },
    }
}

/// Reads the object that a file holds.
pub fn read_json_object(path: FilePath, file: &ExistingFile) -> (result: Result<
    JsonObject,
    SetupError,
>)
    ensures
        match result {
            Ok(object) => object_in(path@, file_view(*file)) == Ok::<Members, Failure>(object@)
                && nested_within(Tree::Object(object@), DEPTH_LIMIT as nat),
            Err(error) => object_in(path@, file_view(*file)) == Err::<Members, Failure>(error@),
        },
{
    match file {
        FileState::Missing => {
            let object = JsonObject::new();
            assert(members_nested_within(object@, (DEPTH_LIMIT - 1) as nat));
            Ok(object)
        },
        FileState::Unreadable(message) => Err(
            SetupError::ExistingReadFailed { path, source: message.clone() },
        ),
        FileState::Text(text) => match parse_json(text.as_str()) {
            Err(source) => Err(SetupError::ExistingParseFailed { path, source }),
            Ok(Json::Object(object)) => Ok(object),
            Ok(_) => Err(SetupError::ExistingRootNotObject { path }),
        },
    }
}

/// Whether a text is that of a hooks file with all the commands. A file that could not be read
/// has none.
pub open spec fn text_is_installed(content: Option<Seq<char>>, prefix: Seq<Seq<char>>) -> bool {
    match content {
        Some(text) => match parsed_json(text) {
            Some(root) => is_installed(root, prefix),
            None => false,
        },
        None => false,
    }
}

/// Whether the text of a file is that of a hooks file with all the commands.
pub fn verify_hooks_at(content: Option<&str>, prefix: &Vec<String>) -> (installed: bool)
    ensures
        installed == text_is_installed(str_of(content), texts(prefix@)),
{
    match content {
        Some(text) => match parse_json(text) {
            Ok(root) => has_hcom_hooks(&root, prefix),
            Err(_) => false,
        },
        None => false,
    }
}

/// Whether the hooks are installed, from what the hooks file holds; nothing where it could not
/// be read. Grok keeps no permissions that would have to be tested.
pub fn verify_grok_hooks_installed(
    _check_permissions: bool,
    content: Option<&str>,
    prefix: &Vec<String>,
) -> (installed: bool)
    ensures
        installed == text_is_installed(str_of(content), texts(prefix@)),
{
    verify_hooks_at(content, prefix)
}

/// What has happened in an installation.
pub enum SetupEvent<S> {
    /// Nothing yet.
    Started,
    /// The hooks file was looked up.
    Found(FileState<S>),
    /// The directory of the hooks file could not be made, with the given message.
    DirFailed(S),
    /// The hooks file could not be written, with the given message.
    WriteFailed(S),
    /// The hooks file was written.
    Written,
    /// The hooks file was read again; nothing where that failed.
    ReadBack(Option<S>),
}

/// What is to be done next in an installation.
pub enum SetupAction<P, S, E> {
    /// Look up the hooks file.
    Read { path: P },
    /// Make the directory, with those above it, and then write the hooks file in one piece.
    Write { dir: P, path: P, text: S },
    /// Read the hooks file again.
    ReadBack { path: P },
    /// Stop with the given result.
    Finish(Result<(), E>),
}

/// What a setup event holds.
pub open spec fn setup_event_view(event: SetupEvent<String>) -> SetupEvent<Seq<char>> {
    match event {
        SetupEvent::Started => SetupEvent::Started,
        SetupEvent::Found(file) => SetupEvent::Found(file_view(file)),
        SetupEvent::DirFailed(message) => SetupEvent::DirFailed(message@),
        SetupEvent::WriteFailed(message) => SetupEvent::WriteFailed(message@),
        SetupEvent::Written => SetupEvent::Written,
        SetupEvent::ReadBack(content) => SetupEvent::ReadBack(text_of(content)),
    }
}

/// What a setup action holds.
pub open spec fn setup_action_view(
    action: SetupAction<FilePath, String, SetupError>,
) -> SetupAction<Place, Seq<char>, Failure> {
    match action {
        SetupAction::Read { path } => SetupAction::Read { path: path@ },
        SetupAction::Write { dir, path, text } => SetupAction::Write {
            dir: dir@,
            path: path@,
            text: text@,
        },
        SetupAction::ReadBack { path } => SetupAction::ReadBack { path: path@ },
        SetupAction::Finish(Ok(())) => SetupAction::Finish(Ok(())),
        SetupAction::Finish(Err(error)) => SetupAction::Finish(Err(error@)),
    }
}

/// The text of the hooks file after the hooks were put into an object.
pub open spec fn installed_text(members: Members, prefix: Seq<Seq<char>>) -> Seq<char> {
    pretty_json(merged(Tree::Object(members), prefix))
}

/// What an installation does after an event.
pub open spec fn setup_next(
    grok_home: Option<Seq<char>>,
    prefix: Seq<Seq<char>>,
    event: SetupEvent<Seq<char>>,
) -> SetupAction<Place, Seq<char>, Failure> {
    let config = config_place(grok_home, PathRoot::ToolConfigRoot);
    let dir = config.join("hooks"@);
    let path = hooks_place(config);
    match event {
        SetupEvent::Started => SetupAction::Read { path },
        SetupEvent::Found(file) => match object_in(path, file) {
            Ok(members) => SetupAction::Write { dir, path, text: installed_text(members, prefix) },
            Err(failure) => SetupAction::Finish(Err(failure)),
        },
        SetupEvent::DirFailed(source) => SetupAction::Finish(
            Err(Failure::DirCreateFailed { path: dir, source }),
        ),
        SetupEvent::WriteFailed(source) => SetupAction::Finish(
            Err(Failure::AtomicWriteFailed { path, source }),
        ),
        SetupEvent::Written => SetupAction::ReadBack { path },
        SetupEvent::ReadBack(content) => if text_is_installed(content, prefix) {
            SetupAction::Finish(Ok(()))
        } else {
            SetupAction::Finish(Err(Failure::PostWriteVerifyFailed { path }))
        },
    }
}

/// The members that an event brings of the object in the hooks file.
pub open spec fn found_members(path: Place, event: SetupEvent<Seq<char>>) -> Option<Members> {
    match event {
        SetupEvent::Found(file) => match object_in(path, file) {
            Ok(members) => Some(members),
            Err(_) => None,
        },
        _ => None,
    }
}

/// Whether the numbers of an object meet a condition.
pub open spec fn members_numbers(members: Members, cond: spec_fn(Num) -> bool) -> bool {
    numbers_within(Tree::Object(members), DEPTH_LIMIT as nat, cond)
}

/// Whether an installation writes a text that, once it stands in the hooks file, passes the test
/// that the hooks are there.
pub open spec fn text_verifies(
    grok_home: Option<Seq<char>>,
    prefix: Seq<Seq<char>>,
    action: SetupAction<Place, Seq<char>, Failure>,
) -> bool {
    match action {
        SetupAction::Write { text, .. } => {
            &&& text_is_installed(Some(text), prefix)
            &&& setup_next(grok_home, prefix, SetupEvent::ReadBack(Some(text)))
                == SetupAction::<Place, Seq<char>, Failure>::Finish(Ok(()))
        },
        _ => false,
    }
}

/// Whether an installation writes a text that has the hooks if it can be read at all.
pub open spec fn verifies_if_readable(
    prefix: Seq<Seq<char>>,
    action: SetupAction<Place, Seq<char>, Failure>,
) -> bool {
    match action {
        SetupAction::Write { text, .. } => text_is_installed(Some(text), prefix) <==> parsed_json(
            text,
        ) is Some,
        _ => false,
    }
}

/// Whether an installation into an object writes a text that the next installation would write
/// again, and out of which a removal makes what it would have made out of the object.
pub open spec fn text_settles(
    grok_home: Option<Seq<char>>,
    prefix: Seq<Seq<char>>,
    members: Members,
    action: SetupAction<Place, Seq<char>, Failure>,
) -> bool {
    match action {
        SetupAction::Write { text, .. } => {
            &&& setup_next(grok_home, prefix, SetupEvent::Found(FileState::Text(text))) == action
            &&& removal_of(FileState::Text(text)) == Removal::Rewrite(
                pretty_json(uninstalled(Tree::Object(members))),
            )
        },
        _ => false,
    }
}

/// Whether an installation writes a text that is read as the value that was written.
pub open spec fn text_returns(tree: Tree, action: SetupAction<Place, Seq<char>, Failure>) -> bool {
    match action {
        SetupAction::Write { text, .. } => parsed_json(text) == Some(tree),
        _ => false,
    }
}

/// One step of an installation: what is to be done after what has happened. Grok keeps no
/// permissions that would have to be set.
///
/// What is written into a file that held an object (a missing file counts as an empty one) has
/// the hooks if it can be read again, and it can where the numbers of the object are moderate.
/// Where it is read as it was written, which is so at least where the numbers are whole, a second
/// installation writes the same text, and a removal undoes the installation.
pub fn try_setup_grok_hooks(
    _include_permissions: bool,
    grok_home: Option<&str>,
    prefix: &Vec<String>,
    event: SetupEvent<String>,
) -> (action: SetupAction<FilePath, String, SetupError>)
    ensures
        setup_action_view(action) == setup_next(
            str_of(grok_home),
            texts(prefix@),
            setup_event_view(event),
        ),
        found_members(
            hooks_place(config_place(str_of(grok_home), PathRoot::ToolConfigRoot)),
            setup_event_view(event),
        ) matches Some(members) ==> {
            &&& verifies_if_readable(texts(prefix@), setup_action_view(action))
            &&& members_numbers(members, moderate_number()) ==> text_verifies(
                str_of(grok_home),
                texts(prefix@),
                setup_action_view(action),
            )
            &&& members_numbers(members, whole_number()) ==> text_returns(
                merged(Tree::Object(members), texts(prefix@)),
                setup_action_view(action),
            )
            &&& text_returns(
                merged(Tree::Object(members), texts(prefix@)),
                setup_action_view(action),
            ) ==> text_settles(
                str_of(grok_home),
                texts(prefix@),
                members,
                setup_action_view(action),
            )
        },
{
    let ghost calls = texts(prefix@);
    match event {
        SetupEvent::Started => SetupAction::Read { path: get_grok_hooks_path(grok_home) },
        SetupEvent::Found(file) => match read_json_object(get_grok_hooks_path(grok_home), &file) {
            Ok(object) => {
                let ghost members = object@;
                let ghost before = Tree::Object(members);
                let ghost after = merged(before, calls);
                let mut root = Json::Object(object);
                merge_hcom_hooks(&mut root, prefix);
                match pretty_text(root) {
                    Ok(text) => {
                        proof {
                            merged_file_is_installed(before, calls);
                            lemma_any_number(before, DEPTH_LIMIT as nat);
                            merged_file_is_sound(before, calls, any_number());
                            if parsed_json(text@) is Some {
                                decimals_do_not_matter(parsed_json(text@)->Some_0, after, calls);
                            }
                            if members_numbers(members, moderate_number()) {
                                merged_file_is_sound(before, calls, moderate_number());
                                assert(reads_alike(text@, after));
                            }
                            if members_numbers(members, whole_number()) {
                                merged_file_is_sound(before, calls, whole_number());
                            }
                            if parsed_json(text@) == Some(after) {
                                merge_is_idempotent(before, calls);
                                removal_undoes_merge(before, calls);
                                assert(installed_text(after->Object_0, calls) == text@);
                            }
                        }
                        let dir = grok_config_dir(grok_home).join("hooks");
                        SetupAction::Write { dir, path: get_grok_hooks_path(grok_home), text }
                    },
                    Err(error) => SetupAction::Finish(Err(SetupError::SerializationFailed(error))),
                }
            },
            Err(error) => SetupAction::Finish(Err(error)),
        },
        SetupEvent::DirFailed(message) => SetupAction::Finish(
            Err(
                SetupError::DirCreateFailed {
                    path: grok_config_dir(grok_home).join("hooks"),
                    source: message,
                },
            ),
        ),
        SetupEvent::WriteFailed(message) => SetupAction::Finish(
            Err(
                SetupError::AtomicWriteFailed {
                    path: get_grok_hooks_path(grok_home),
                    source: message,
                },
            ),
        ),
        SetupEvent::Written => SetupAction::ReadBack { path: get_grok_hooks_path(grok_home) },
        SetupEvent::ReadBack(content) => {
            let installed = match &content {
                Some(text) => verify_hooks_at(Some(text.as_str()), prefix),
                None => verify_hooks_at(None, prefix),
            };
            if installed {
                SetupAction::Finish(Ok(()))
            } else {
                SetupAction::Finish(
                    Err(SetupError::PostWriteVerifyFailed(get_grok_hooks_path(grok_home))),
                )
            }
        },
    }
}

/// What is to be done with a file out of which the hooks are to be taken.
pub enum Removal<S> {
    /// Nothing: there is no file.
    AlreadyGone,
    /// Write the given text in its place.
    Rewrite(S),
    /// Nothing: it could not be read, or holds no JSON object.
    Refused,
}

/// What a removal holds.
pub open spec fn removal_view(removal: Removal<String>) -> Removal<Seq<char>> {
    match removal {
        Removal::AlreadyGone => Removal::AlreadyGone,
        Removal::Rewrite(text) => Removal::Rewrite(text@),
        Removal::Refused => Removal::Refused,
    }
}

/// What is to be done with a file out of which the hooks are to be taken.
pub open spec fn removal_of(file: FileState<Seq<char>>) -> Removal<Seq<char>> {
    match file {
        FileState::Missing => Removal::AlreadyGone,
        FileState::Unreadable(_) => Removal::Refused,
        FileState::Text(text) => match parsed_json(text) {
            Some(Tree::Object(members)) => Removal::Rewrite(
                pretty_json(uninstalled(Tree::Object(members))),
            ),
            _ => Removal::Refused,
        },
    }
}

/// The members of the object that the text of a file holds.
pub open spec fn members_in(file: FileState<Seq<char>>) -> Option<Members> {
    match file {
        FileState::Text(text) => match parsed_json(text) {
            Some(Tree::Object(members)) => Some(members),
            _ => None,
        },
        _ => None,
    }
}

/// Whether the test for the hooks fails on what is written in place of a file, whatever hcom is
/// called by.
pub open spec fn loses_hooks(file: FileState<Seq<char>>) -> bool {
    match removal_of(file) {
        Removal::Rewrite(text) => forall|prefix: Seq<Seq<char>>|
            !#[trigger] text_is_installed(Some(text), prefix),
        _ => true,
    }
}

/// Decides what is to be done with a file out of which the hooks are to be taken.
///
/// What is written in its place fails the test for the hooks. Where the numbers of the object
/// are moderate, it can be read again. Where it is read as it was written, which is so at least
/// where the numbers are whole, a second removal writes the same text.
pub fn remove_grok_hooks_at(file: &ExistingFile) -> (removal: Removal<String>)
    ensures
        removal_view(removal) == removal_of(file_view(*file)),
        loses_hooks(file_view(*file)),
        members_in(file_view(*file)) matches Some(members) ==> {
            &&& removal_view(removal) matches Removal::Rewrite(text)
            &&& members_numbers(members, moderate_number()) ==> parsed_json(text) is Some
            &&& members_numbers(members, whole_number()) ==> parsed_json(text) == Some(
                uninstalled(Tree::Object(members)),
            )
            &&& parsed_json(text) == Some(uninstalled(Tree::Object(members))) ==> removal_of(
                FileState::Text(text),
            ) == Removal::Rewrite(text)
        },
{
    let text = match file {
        FileState::Missing => {
            return Removal::AlreadyGone;
        },
        FileState::Unreadable(_) => {
            return Removal::Refused;
        },
        FileState::Text(text) => text,
    };
    match parse_json(text.as_str()) {
        Ok(Json::Object(object)) => {
            let ghost before = Tree::Object(object@);
            match pretty_text(uninstall_hcom_hooks(Json::Object(object))) {
                Ok(rest) => {
                    proof {
                        let after = uninstalled(before);
                        lemma_any_number(before, DEPTH_LIMIT as nat);
                        uninstalled_file_is_sound(before, any_number());
                        assert forall|prefix: Seq<Seq<char>>| !#[trigger] text_is_installed(
                            Some(rest@),
                            prefix,
                        ) by {
                            removed_file_is_not_installed(before, prefix);
                            if parsed_json(rest@) is Some {
                                decimals_do_not_matter(parsed_json(rest@)->Some_0, after, prefix);
                            }
                        }
                        if members_numbers(object@, moderate_number()) {
                            uninstalled_file_is_sound(before, moderate_number());
                            assert(reads_alike(rest@, after));
                        }
                        if members_numbers(object@, whole_number()) {
                            uninstalled_file_is_sound(before, whole_number());
                        }
                        removal_is_idempotent(before);
                        assert(after is Object);
                    }
                    Removal::Rewrite(rest)
                },
                Err(_) => Removal::Refused,
            }
        },
        _ => Removal::Refused,
    }
}

/// What has happened in the removal of the hooks from a list of files.
pub enum RemoveEvent<S> {
    /// Nothing yet.
    Started,
    /// The file at the given place of the list was looked up.
    Found { index: usize, file: FileState<S> },
    /// The file at the given place of the list was written, or could not be.
    Written { index: usize, ok: bool },
}

/// What is to be done next in the removal of the hooks from a list of files.
pub enum RemoveAction<S> {
    /// Look up the file at the given place of the list.
    Read { index: usize },
    /// Write the file at the given place of the list.
    Write { index: usize, text: S },
    /// Stop; the hooks are out of every file, or they are not.
    Finish(bool),
}

/// What a removal event holds.
pub open spec fn remove_event_view(event: RemoveEvent<String>) -> RemoveEvent<Seq<char>> {
    match event {
        RemoveEvent::Started => RemoveEvent::Started,
        RemoveEvent::Found { index, file } => RemoveEvent::Found { index, file: file_view(file) },
        RemoveEvent::Written { index, ok } => RemoveEvent::Written { index, ok },
    }
}

/// What a removal action holds.
pub open spec fn remove_action_view(action: RemoveAction<String>) -> RemoveAction<Seq<char>> {
    match action {
        RemoveAction::Read { index } => RemoveAction::Read { index },
        RemoveAction::Write { index, text } => RemoveAction::Write { index, text: text@ },
        RemoveAction::Finish(done) => RemoveAction::Finish(done),
    }
}

/// The step to the file at a place of a list of `count`, or to the end of the list.
pub open spec fn read_or_finish(count: usize, index: int) -> RemoveAction<Seq<char>> {
    if index < count {
        RemoveAction::Read { index: index as usize }
    } else {
        RemoveAction::Finish(true)
    }
}

/// What the removal from a list of `count` files does after an event. It stops at the first
/// file that cannot be dealt with.
pub open spec fn remove_next(count: usize, event: RemoveEvent<Seq<char>>) -> RemoveAction<Seq<char>> {
    match event {
        RemoveEvent::Started => read_or_finish(count, 0),
        RemoveEvent::Found { index, file } => match removal_of(file) {
            Removal::AlreadyGone => read_or_finish(count, index + 1),
            Removal::Rewrite(text) => RemoveAction::Write { index, text },
            Removal::Refused => RemoveAction::Finish(false),
        },
        RemoveEvent::Written { index, ok } => if ok {
            read_or_finish(count, index + 1)
        } else {
            RemoveAction::Finish(false)
        },
    }
}

fn next_file(count: usize, index: usize) -> (action: RemoveAction<String>)
    ensures
        remove_action_view(action) == read_or_finish(count, index + 1),
{
    if index < count && count - index > 1 {
        RemoveAction::Read { index: index + 1 }
    } else {
        RemoveAction::Finish(true)
    }
}

/// One step of the removal of the hooks from a list of `count` files: what is to be done after
/// what has happened. Whatever is written fails the test for the hooks.
pub fn remove_grok_hooks(count: usize, event: RemoveEvent<String>) -> (action: RemoveAction<String>)
    ensures
        remove_action_view(action) == remove_next(count, remove_event_view(event)),
        remove_event_view(event) matches RemoveEvent::Found { file, .. } ==> loses_hooks(file),
        remove_action_view(action) matches RemoveAction::Write { text, .. } ==> forall|
            prefix: Seq<Seq<char>>,
        |
            !#[trigger] text_is_installed(Some(text), prefix),
{
    match event {
        RemoveEvent::Started => if count > 0 {
            RemoveAction::Read { index: 0 }
        } else {
            RemoveAction::Finish(true)
        },
        RemoveEvent::Found { index, file } => match remove_grok_hooks_at(&file) {
            Removal::AlreadyGone => next_file(count, index),
            Removal::Rewrite(text) => RemoveAction::Write { index, text },
            Removal::Refused => RemoveAction::Finish(false),
        },
        RemoveEvent::Written { index, ok } => if ok {
            next_file(count, index)
        } else {
            RemoveAction::Finish(false)
        },
    }
}

/// How many steps are left at most.
pub open spec fn steps_left(count: usize, action: RemoveAction<Seq<char>>) -> int {
    match action {
        RemoveAction::Read { index } => 2 * (count - index) + 1,
        RemoveAction::Write { index, .. } => 2 * (count - index),
        RemoveAction::Finish(_) => 0,
    }
}

/// The result of a removal that goes on with an action, where the files are found as `files`
/// says and writing each of them succeeds as `writable` says.
pub open spec fn removal_result(
    files: Seq<FileState<Seq<char>>>,
    writable: Seq<bool>,
    action: RemoveAction<Seq<char>>,
) -> bool
    decreases steps_left(files.len() as usize, action),
{
    let count = files.len() as usize;
    match action {
        RemoveAction::Read { index } => if index < count {
            removal_result(
                files,
                writable,
                remove_next(count, RemoveEvent::Found { index, file: files[index as int] }),
            )
        } else {
            false
        },
        RemoveAction::Write { index, .. } => if index < count {
            removal_result(
                files,
                writable,
                remove_next(count, RemoveEvent::Written { index, ok: writable[index as int] }),
            )
        } else {
            false
        },
        RemoveAction::Finish(done) => done,
    }
}

/// Whether the hooks are out of a file after it was dealt with.
pub open spec fn is_dealt_with(file: FileState<Seq<char>>, writable: bool) -> bool {
    match removal_of(file) {
        Removal::AlreadyGone => true,
        Removal::Rewrite(_) => writable,
        Removal::Refused => false,
    }
}

/// A removal succeeds if and only if every file of the list was dealt with.
pub proof fn removal_succeeds_when_every_file_does(
    files: Seq<FileState<Seq<char>>>,
    writable: Seq<bool>,
)
    requires
        files.len() <= usize::MAX,
        writable.len() == files.len(),
    ensures
        removal_result(files, writable, remove_next(files.len() as usize, RemoveEvent::Started))
            == forall|i: int| 0 <= i < files.len() ==> is_dealt_with(#[trigger] files[i], writable[i]),
{
    lemma_removal_from(files, writable, 0);
}

proof fn lemma_removal_from(files: Seq<FileState<Seq<char>>>, writable: Seq<bool>, start: int)
    requires
        files.len() <= usize::MAX,
        writable.len() == files.len(),
        0 <= start <= files.len(),
    ensures
        removal_result(files, writable, read_or_finish(files.len() as usize, start)) == forall|
            i: int,
        |
            start <= i < files.len() ==> is_dealt_with(#[trigger] files[i], writable[i]),
    decreases files.len() - start,
{
    let count = files.len() as usize;
    if start < files.len() {
        lemma_removal_from(files, writable, start + 1);
        let index = start as usize;
        reveal_with_fuel(removal_result, 3);
        let found = remove_next(count, RemoveEvent::Found { index, file: files[start] });
        assert(removal_result(files, writable, read_or_finish(count, start)) == removal_result(
            files,
            writable,
            found,
        ));
        assert(removal_result(files, writable, found) == (is_dealt_with(
            files[start],
            writable[start],
        ) && removal_result(files, writable, read_or_finish(count, start + 1))));
    }
}

/// What reading a file gives after it was dealt with; nothing where there is none or it cannot
/// be read.
pub open spec fn content_after(file: FileState<Seq<char>>, writable: bool) -> Option<Seq<char>> {
    match file {
        FileState::Missing => None,
        FileState::Unreadable(_) => None,
        FileState::Text(before) => match removal_of(file) {
            Removal::Rewrite(after) => Some(
                if writable {
                    after
                } else {
                    before
                },
            ),
            _ => Some(before),
        },
    }
}

/// After a removal that succeeds the test for the hooks fails on every file of the list,
/// whatever hcom is called by. Each file that was found loses its hooks, as each step of a
/// removal ensures of the file that it is handed.
pub proof fn removal_leaves_no_hooks(
    files: Seq<FileState<Seq<char>>>,
    writable: Seq<bool>,
    prefix: Seq<Seq<char>>,
    i: int,
)
    requires
        files.len() <= usize::MAX,
        writable.len() == files.len(),
        0 <= i < files.len(),
    ensures
        removal_result(files, writable, remove_next(files.len() as usize, RemoveEvent::Started))
            && loses_hooks(files[i]) ==> !text_is_installed(
            content_after(files[i], writable[i]),
            prefix,
        ),
{
    removal_succeeds_when_every_file_does(files, writable);
    if removal_result(files, writable, remove_next(files.len() as usize, RemoveEvent::Started)) {
        assert(is_dealt_with(files[i], writable[i]));
    }
}

} // verus!
