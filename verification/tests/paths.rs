use grok_hooks::paths::{
    default_grok_config_dir, get_grok_hooks_path, grok_config_dir, grok_hooks_cleanup_candidates,
    grok_hooks_cleanup_paths, push_unique, FilePath, PathRoot, ResolvedPath,
};

fn path(root: PathRoot<String>, parts: &[&str]) -> FilePath {
    FilePath { root, parts: parts.iter().map(|part| part.to_string()).collect() }
}

fn given(home: &str) -> PathRoot<String> {
    PathRoot::Given(home.to_string())
}

fn resolved(absolute: bool, components: &[&str]) -> ResolvedPath {
    ResolvedPath {
        absolute,
        components: components.iter().map(|part| part.to_string()).collect(),
    }
}

#[test]
fn grok_home_wins_where_it_is_not_blank() {
    assert_eq!(grok_config_dir(Some("/srv/grok")), path(given("/srv/grok"), &[]));
    assert_eq!(grok_config_dir(Some("  /srv/grok\n")), path(given("/srv/grok"), &[]));
    assert_eq!(grok_config_dir(Some(" \t")), path(PathRoot::ToolConfigRoot, &[".grok"]));
    assert_eq!(grok_config_dir(Some("")), path(PathRoot::ToolConfigRoot, &[".grok"]));
    assert_eq!(grok_config_dir(None), path(PathRoot::ToolConfigRoot, &[".grok"]));
}

#[test]
fn the_default_directory_is_below_the_home() {
    assert_eq!(default_grok_config_dir(None, true), path(PathRoot::UserHome, &[".grok"]));
    assert_eq!(default_grok_config_dir(None, false), path(PathRoot::Nowhere, &[".grok"]));
    assert_eq!(default_grok_config_dir(Some("/g"), true), path(given("/g"), &[]));
}

#[test]
fn the_hooks_file() {
    assert_eq!(
        get_grok_hooks_path(None),
        path(PathRoot::ToolConfigRoot, &[".grok", "hooks", "hcom.json"])
    );
    assert_eq!(get_grok_hooks_path(Some("/g")), path(given("/g"), &["hooks", "hcom.json"]));
}

#[test]
fn the_files_to_clean() {
    assert_eq!(
        grok_hooks_cleanup_candidates(Some("/g"), true),
        vec![
            path(PathRoot::UserHome, &[".grok", "hooks", "hcom.json"]),
            path(given("/g"), &["hooks", "hcom.json"]),
            path(given("/g"), &["hooks", "hcom.json"]),
        ]
    );
    assert_eq!(
        grok_hooks_cleanup_candidates(None, false),
        vec![
            path(PathRoot::ToolConfigRoot, &[".grok", "hooks", "hcom.json"]),
            path(PathRoot::Nowhere, &[".grok", "hooks", "hcom.json"]),
        ]
    );
}

#[test]
fn relative_and_repeated_paths_are_left_out() {
    let mut paths = vec![];
    push_unique(&mut paths, resolved(true, &["/", "a"]));
    push_unique(&mut paths, resolved(true, &["/", "a"]));
    push_unique(&mut paths, resolved(false, &["a"]));
    push_unique(&mut paths, resolved(true, &["/", "b"]));
    assert_eq!(paths, vec![resolved(true, &["/", "a"]), resolved(true, &["/", "b"])]);
}

#[test]
fn the_list_keeps_the_first_of_equal_paths() {
    let paths = grok_hooks_cleanup_paths(vec![
        resolved(true, &["/", "b"]),
        resolved(false, &["c"]),
        resolved(true, &["/", "a"]),
        resolved(true, &["/", "b"]),
        resolved(true, &["/", "a", "c"]),
    ]);
    assert_eq!(
        paths,
        vec![
            resolved(true, &["/", "b"]),
            resolved(true, &["/", "a"]),
            resolved(true, &["/", "a", "c"]),
        ]
    );
}

#[test]
fn the_file_that_is_written_is_cleaned() {
    for home in [None, Some("/g"), Some(" ")] {
        for has_home in [true, false] {
            let files = grok_hooks_cleanup_candidates(home, has_home);
            assert!(files.contains(&get_grok_hooks_path(home)));
        }
    }
}
