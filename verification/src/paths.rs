//! Where the hooks file of Grok stands.
use crate::text::{
    all_white, same_text, str_of, texts, trim, trimmed, trimming_leaves_the_core, white_space,
};
use vstd::prelude::*;

verus! {

/// The directory that a path starts from.
#[derive(Debug, PartialEq, Eq)]
pub enum PathRoot<S> {
    /// The directory that a text names.
    Given(S),
    /// The directory below which the tools of the process keep their configuration.
    ToolConfigRoot,
    /// The home directory of the user.
    UserHome,
    /// No directory: the path that follows is relative.
    Nowhere,
}

/// A path: the directory that it starts from and the names below it.
#[derive(Debug, PartialEq, Eq)]
pub struct FilePath {
    pub root: PathRoot<String>,
    pub parts: Vec<String>,
}

/// A path as a mathematical value.
pub struct Place {
    pub root: PathRoot<Seq<char>>,
    pub parts: Seq<Seq<char>>,
}

impl View for FilePath {
    type V = Place;

    open spec fn view(&self) -> Place {
        Place {
            root: match self.root {
                PathRoot::Given(text) => PathRoot::Given(text@),
                PathRoot::ToolConfigRoot => PathRoot::ToolConfigRoot,
                PathRoot::UserHome => PathRoot::UserHome,
                PathRoot::Nowhere => PathRoot::Nowhere,
            },
            parts: texts(self.parts@),
        }
    }
}

impl Place {
    /// The place below `self` under the given name.
    pub open spec fn join(self, part: Seq<char>) -> Place {
        Place { root: self.root, parts: self.parts.push(part) }
    }
}

/// The directory that `GROK_HOME` names: its text without the white space around it. One that
/// is empty then names none.
pub open spec fn home_override(grok_home: Option<Seq<char>>) -> Option<Seq<char>> {
    match grok_home {
        Some(home) => if trim(home).len() > 0 {
            Some(trim(home))
        } else {
            None
        },
        None => None,
    }
}

/// The configuration directory of Grok: the one that `GROK_HOME` names, else `.grok` below
/// `fallback`.
pub open spec fn config_place(
    grok_home: Option<Seq<char>>,
    fallback: PathRoot<Seq<char>>,
) -> Place {
    match home_override(grok_home) {
        Some(home) => Place { root: PathRoot::Given(home), parts: Seq::empty() },
        None => Place { root: fallback, parts: seq![".grok"@] },
    }
}

/// The hooks file below a configuration directory.
pub open spec fn hooks_place(config: Place) -> Place {
    config.join("hooks"@).join("hcom.json"@)
}

impl FilePath {
    fn root_only(root: PathRoot<String>) -> (path: FilePath)
        ensures
            path.root == root,
            path@.parts == Seq::<Seq<char>>::empty(),
    {
        let path = FilePath { root, parts: Vec::new() };
        assert(path@.parts =~= Seq::<Seq<char>>::empty());
        path
    }

    /// The path below `self` under the given name.
    pub fn join(self, part: &str) -> (path: FilePath)
        ensures
            path@ == self@.join(part@),
    {
        let FilePath { root, parts } = self;
        let ghost before = texts(parts@);
        let mut names = parts;
        names.push(part.to_owned());
        assert(texts(names@) =~= before.push(part@));
        FilePath { root, parts: names }
    }
}

fn config_dir(grok_home: Option<&str>, fallback: PathRoot<String>) -> (path: FilePath)
    requires
        !(fallback is Given),
    ensures
        path@ == config_place(
            str_of(grok_home),
            match fallback {
                PathRoot::ToolConfigRoot => PathRoot::ToolConfigRoot,
                PathRoot::UserHome => PathRoot::UserHome,
                _ => PathRoot::Nowhere,
            },
        ),
{
    if let Some(home) = grok_home {
        let name = trimmed(home);
        if !name.is_empty() {
            return FilePath::root_only(PathRoot::Given(name.to_owned()));
        }
    }
    let path = FilePath::root_only(fallback).join(".grok");
    assert(path@.parts =~= seq![".grok"@]);
    path
}

/// The configuration directory of Grok, from the value of `GROK_HOME`.
pub fn grok_config_dir(grok_home: Option<&str>) -> (path: FilePath)
    ensures
        path@ == config_place(str_of(grok_home), PathRoot::ToolConfigRoot),
{
    config_dir(grok_home, PathRoot::ToolConfigRoot)
}

/// The root that a missing home directory leaves.
pub open spec fn home_root(has_home: bool) -> PathRoot<Seq<char>> {
    if has_home {
        PathRoot::UserHome
    } else {
        PathRoot::Nowhere
    }
}

/// The configuration directory of Grok for a process whose tools are not set apart: below the
/// home directory of the user, where there is one.
pub fn default_grok_config_dir(grok_home: Option<&str>, has_home: bool) -> (path: FilePath)
    ensures
        path@ == config_place(str_of(grok_home), home_root(has_home)),
{
    if has_home {
        config_dir(grok_home, PathRoot::UserHome)
    } else {
        config_dir(grok_home, PathRoot::Nowhere)
    }
}

/// The hooks file of Grok, from the value of `GROK_HOME`.
pub fn get_grok_hooks_path(grok_home: Option<&str>) -> (path: FilePath)
    ensures
        path@ == hooks_place(config_place(str_of(grok_home), PathRoot::ToolConfigRoot)),
{
    grok_config_dir(grok_home).join("hooks").join("hcom.json")
}

/// The places of a sequence of paths.
pub open spec fn places(paths: Seq<FilePath>) -> Seq<Place> {
    paths.map_values(|path: FilePath| path@)
}

/// The hooks files that hcom may have written, first those below the home directory.
pub open spec fn cleanup_places(grok_home: Option<Seq<char>>, has_home: bool) -> Seq<Place> {
    let chosen = hooks_place(config_place(grok_home, PathRoot::ToolConfigRoot));
    let usual = hooks_place(config_place(grok_home, home_root(has_home)));
    if has_home {
        seq![
            hooks_place(Place { root: PathRoot::UserHome, parts: seq![".grok"@] }),
            chosen,
            usual,
        ]
    } else {
        seq![chosen, usual]
    }
}

/// The hooks files that hcom may have written.
pub fn grok_hooks_cleanup_candidates(grok_home: Option<&str>, has_home: bool) -> (paths: Vec<
    FilePath,
>)
    ensures
        places(paths@) == cleanup_places(str_of(grok_home), has_home),
{
    let mut paths: Vec<FilePath> = Vec::new();
    if has_home {
        let home = FilePath::root_only(PathRoot::UserHome).join(".grok");
        assert(home@.parts =~= seq![".grok"@]);
        paths.push(home.join("hooks").join("hcom.json"));
    }
    paths.push(get_grok_hooks_path(grok_home));
    paths.push(default_grok_config_dir(grok_home, has_home).join("hooks").join("hcom.json"));
    assert(places(paths@) =~= cleanup_places(str_of(grok_home), has_home));
    paths
}

/// The hooks file that an installation writes is one of the files that a removal cleans.
pub proof fn the_hooks_file_is_cleaned(grok_home: Option<Seq<char>>, has_home: bool)
    ensures
        cleanup_places(grok_home, has_home).contains(
            hooks_place(config_place(grok_home, PathRoot::ToolConfigRoot)),
        ),
{
    let all = cleanup_places(grok_home, has_home);
    let chosen = hooks_place(config_place(grok_home, PathRoot::ToolConfigRoot));
    if has_home {
        assert(all[1] == chosen);
    } else {
        assert(all[0] == chosen);
    }
}

/// A path that the process has resolved: its components, and whether it is absolute.
#[derive(Debug, PartialEq, Eq)]
pub struct ResolvedPath {
    pub absolute: bool,
    pub components: Vec<String>,
}

/// What a resolved path is.
pub struct Location {
    pub absolute: bool,
    pub components: Seq<Seq<char>>,
}

impl View for ResolvedPath {
    type V = Location;

    open spec fn view(&self) -> Location {
        Location { absolute: self.absolute, components: texts(self.components@) }
    }
}

/// The locations of a sequence of resolved paths.
pub open spec fn locations(paths: Seq<ResolvedPath>) -> Seq<Location> {
    paths.map_values(|path: ResolvedPath| path@)
}

/// A list with a location added, unless that is relative or in the list already.
pub open spec fn with_unique(paths: Seq<Location>, path: Location) -> Seq<Location> {
    if path.absolute && !paths.contains(path) {
        paths.push(path)
    } else {
        paths
    }
}

/// The absolute locations of a list, each where it stands first.
pub open spec fn unique_absolute(paths: Seq<Location>) -> Seq<Location>
    decreases paths.len(),
{
    if paths.len() == 0 {
        Seq::empty()
    } else {
        with_unique(unique_absolute(paths.drop_last()), paths.last())
    }
}

impl ResolvedPath {
    fn same(&self, other: &ResolvedPath) -> (same: bool)
        ensures
            same == (self@ == other@),
    {
        if self.absolute != other.absolute || self.components.len() != other.components.len() {
            assert(texts(self.components@).len() == self.components@.len());
            assert(texts(other.components@).len() == other.components@.len());
            return false;
        }
        let mut i: usize = 0;
        while i < self.components.len()
            invariant
                i <= self.components@.len() == other.components@.len(),
                forall|k: int|
                    0 <= k < i ==> (#[trigger] self.components@[k])@ == other.components@[k]@,
            decreases self.components@.len() - i,
        {
            if !same_text(self.components[i].as_str(), other.components[i].as_str()) {
                assert(texts(self.components@)[i as int] != texts(other.components@)[i as int]);
                return false;
            }
            i = i + 1;
        }
        assert(texts(self.components@) =~= texts(other.components@));
        true
    }
}

/// Adds a path to a list, unless it is relative or in the list already.
pub fn push_unique(paths: &mut Vec<ResolvedPath>, path: ResolvedPath)
    ensures
        locations(final(paths)@) == with_unique(locations(old(paths)@), path@),
{
    let ghost all = locations(paths@);
    if !path.absolute {
        return ;
    }
    let mut i: usize = 0;
    while i < paths.len()
        invariant
            i <= paths@.len(),
            all == locations(paths@),
            *paths == *old(paths),
            forall|k: int| 0 <= k < i ==> #[trigger] all[k] != path@,
        decreases paths@.len() - i,
    {
        if paths[i].same(&path) {
            assert(all[i as int] == path@);
            return ;
        }
        i = i + 1;
    }
    assert(!all.contains(path@));
    paths.push(path);
    assert(locations(paths@) =~= all.push(path@));
}

/// The files out of which the hooks are taken: of the candidates those that are absolute, each
/// once.
pub fn grok_hooks_cleanup_paths(candidates: Vec<ResolvedPath>) -> (paths: Vec<ResolvedPath>)
    ensures
        locations(paths@) == unique_absolute(locations(candidates@)),
{
    let ghost all = locations(candidates@);
    let mut paths: Vec<ResolvedPath> = Vec::new();
    assert(locations(paths@) =~= unique_absolute(all.take(0)));
    for path in it: candidates
        invariant
            it.seq() == candidates@,
            all == locations(candidates@),
            locations(paths@) == unique_absolute(all.take(it.index() as int)),
    {
        proof {
            let n = it.index() as int;
            assert(all.take(n + 1).drop_last() =~= all.take(n));
            assert(all.take(n + 1).last() == path@);
        }
        push_unique(&mut paths, path);
    }
    assert(all.take(all.len() as int) =~= all);
    paths
}

/// The list of files is free of duplicates and holds every absolute candidate and nothing else.
pub proof fn cleanup_paths_are_unique(candidates: Seq<Location>)
    ensures
        unique_absolute(candidates).no_duplicates(),
        forall|path: Location| #[trigger]
            unique_absolute(candidates).contains(path) <==> path.absolute && candidates.contains(
                path,
            ),
    decreases candidates.len(),
{
    let kept = unique_absolute(candidates);
    if candidates.len() > 0 {
        let rest = candidates.drop_last();
        let last = candidates.last();
        cleanup_paths_are_unique(rest);
        let before = unique_absolute(rest);
        assert forall|path: Location| #[trigger] kept.contains(path) <==> path.absolute
            && candidates.contains(path) by {
            if candidates.contains(path) {
                let i = choose|i: int| 0 <= i < candidates.len() && candidates[i] == path;
                if i < rest.len() {
                    assert(rest[i] == path);
                }
            }
            if rest.contains(path) {
                let i = choose|i: int| 0 <= i < rest.len() && rest[i] == path;
                assert(candidates[i] == path);
            }
            assert(candidates[candidates.len() - 1] == last);
            assert(before.contains(path) <==> path.absolute && rest.contains(path));
            if before.contains(path) {
                let i = choose|i: int| 0 <= i < before.len() && before[i] == path;
                assert(kept[i] == path);
            }
            if kept.contains(path) {
                let i = choose|i: int| 0 <= i < kept.len() && kept[i] == path;
                if i < before.len() {
                    assert(before[i] == path);
                }
            }
            if path == last && path.absolute && !before.contains(path) {
                assert(kept[kept.len() - 1] == path);
            }
        }
    }
}

/// The configuration directory is the one that `GROK_HOME` names, white space around the name
/// left away; where it is not set, or blank, it is `.grok` below the given root.
pub proof fn grok_home_names_the_directory(
    before: Seq<char>,
    home: Seq<char>,
    after: Seq<char>,
    fallback: PathRoot<Seq<char>>,
)
    requires
        all_white(before),
        all_white(after),
        home.len() > 0 ==> !white_space(home[0]) && !white_space(home[home.len() - 1]),
    ensures
        home.len() > 0 ==> config_place(Some(before + home + after), fallback) == (Place {
            root: PathRoot::Given(home),
            parts: Seq::empty(),
        }),
        home.len() == 0 ==> config_place(Some(before + home + after), fallback) == (Place {
            root: fallback,
            parts: seq![".grok"@],
        }),
        config_place(None, fallback) == (Place { root: fallback, parts: seq![".grok"@] }),
{
    trimming_leaves_the_core(before, home, after);
}

/// Joining a name to a path puts it behind the other names and leaves the root.
pub proof fn a_name_is_joined(place: Place, part: Seq<char>)
    ensures
        place.join(part).root == place.root,
        place.join(part).parts == place.parts + seq![part],
{
    assert(place.join(part).parts =~= place.parts + seq![part]);
}

/// The hooks file is `hooks/hcom.json` below its configuration directory.
pub proof fn the_hooks_file_is_below_its_directory(config: Place)
    ensures
        hooks_place(config).root == config.root,
        hooks_place(config).parts == config.parts + seq!["hooks"@, "hcom.json"@],
{
    assert(hooks_place(config).parts =~= config.parts + seq!["hooks"@, "hcom.json"@]);
}

/// The files to clean are the one below the home directory of the user, where there is one and
/// whatever `GROK_HOME` is, the one that an installation writes, the one below the directory that
/// is the default where the tools are not set apart, and no others.
pub proof fn the_files_to_clean(grok_home: Option<Seq<char>>, has_home: bool, place: Place)
    ensures
        cleanup_places(grok_home, has_home).contains(place) <==> {
            ||| has_home && place == (Place {
                root: PathRoot::UserHome,
                parts: seq![".grok"@, "hooks"@, "hcom.json"@],
            })
            ||| place == hooks_place(config_place(grok_home, PathRoot::ToolConfigRoot))
            ||| place == hooks_place(
                config_place(
                    grok_home,
                    if has_home {
                        PathRoot::UserHome
                    } else {
                        PathRoot::Nowhere
                    },
                ),
            )
        },
        has_home ==> cleanup_places(grok_home, has_home)[0].root is UserHome,
{
    let all = cleanup_places(grok_home, has_home);
    let home = Place { root: PathRoot::UserHome, parts: seq![".grok"@] };
    assert(hooks_place(home).parts =~= seq![".grok"@, "hooks"@, "hcom.json"@]);
    if has_home {
        assert(all[0] == hooks_place(home));
        assert(all[1] == hooks_place(config_place(grok_home, PathRoot::ToolConfigRoot)));
        assert(all[2] == hooks_place(config_place(grok_home, home_root(has_home))));
    } else {
        assert(all[0] == hooks_place(config_place(grok_home, PathRoot::ToolConfigRoot)));
        assert(all[1] == hooks_place(config_place(grok_home, home_root(has_home))));
    }
}

/// The files keep the order of the candidates: a candidate more changes nothing of the list but
/// that it may stand at its end, which it does just where it is absolute and new.
pub proof fn a_candidate_more(candidates: Seq<Location>, path: Location)
    ensures
        unique_absolute(Seq::empty()) == Seq::<Location>::empty(),
        path.absolute && !candidates.contains(path) ==> unique_absolute(candidates.push(path))
            == unique_absolute(candidates).push(path),
        !path.absolute || candidates.contains(path) ==> unique_absolute(candidates.push(path))
            == unique_absolute(candidates),
{
    assert(candidates.push(path).drop_last() =~= candidates);
    cleanup_paths_are_unique(candidates);
    assert(unique_absolute(candidates).contains(path) <==> path.absolute && candidates.contains(
        path,
    ));
}

/// Adding a path to a list leaves what is in it, in its order; the path stands in it afterwards
/// just where it is absolute or stood in it before, and only once.
pub proof fn adding_a_path(paths: Seq<Location>, path: Location)
    ensures
        paths.is_prefix_of(with_unique(paths, path)),
        with_unique(paths, path).len() <= paths.len() + 1,
        with_unique(paths, path).contains(path) <==> path.absolute || paths.contains(path),
        paths.contains(path) ==> with_unique(paths, path) == paths,
{
    if path.absolute && !paths.contains(path) {
        assert(paths.push(path)[paths.len() as int] == path);
    }
}

} // verus!
