use korun::daemon::watcher::{
    changed_paths, matches_target, parent, path_starts_with, start_watcher, watch_target,
    WatchTarget, DEBOUNCE_MS,
};
use std::path::Path;

fn bytes(path: &str) -> Vec<u8> {
    path.as_bytes().to_vec()
}

fn text(path: Vec<u8>) -> String {
    String::from_utf8(path).unwrap()
}

#[test]
fn matches_directory_targets_by_prefix() {
    let root = bytes("/tmp");
    let targets = vec![WatchTarget { root, match_path: None, recursive: true }];

    assert!(matches_target(&bytes("/tmp/child.txt"), &targets));
}

#[test]
fn matches_file_targets_by_exact_path_or_parent() {
    let file = bytes("/tmp/korun-watch-file.txt");
    let above = parent(&file).unwrap();
    assert_eq!(above, bytes("/tmp"));
    let targets = vec![WatchTarget {
        root: above.clone(),
        match_path: Some(file.clone()),
        recursive: false,
    }];

    assert!(matches_target(&file, &targets));
    assert!(matches_target(&above, &targets));
    assert!(!matches_target(&bytes("/tmp/sibling.txt"), &targets));
}

const PATHS: [&str; 22] = [
    "", "/", ".", "..", "a", "/a", "a/", "a/b", "/a/b", "/a//b/", "./a", "a/.", "a/./b", "/./a",
    "a/..", "../a", "//", "///a", "a/b/c", "ab", "a/./", "./.",
];

#[test]
fn paths_begin_as_the_standard_library_has_it() {
    for path in PATHS {
        for base in PATHS {
            let expected = Path::new(path).starts_with(base);
            let found = path_starts_with(&bytes(path), &bytes(base));
            assert_eq!(found, expected, "{path:?} in {base:?}");
        }
    }
}

#[test]
fn parents_are_as_the_standard_library_has_them() {
    for path in PATHS {
        let expected = Path::new(path).parent().map(|p| p.to_str().unwrap().to_string());
        assert_eq!(parent(&bytes(path)).map(text), expected, "{path:?}");
    }
}

#[test]
fn lying_below_is_by_component() {
    assert!(path_starts_with(&bytes("/tmp/a/b"), &bytes("/tmp/a")));
    assert!(!path_starts_with(&bytes("/tmp/ab"), &bytes("/tmp/a")));
    assert!(path_starts_with(&bytes("/tmp/a"), &bytes("/tmp/a/")));
}

#[test]
fn a_file_is_watched_through_its_directory() {
    let t = watch_target(&bytes("/tmp/app/Cargo.toml"), true);
    assert_eq!(text(t.root), "/tmp/app");
    assert_eq!(t.match_path.map(text).as_deref(), Some("/tmp/app/Cargo.toml"));
    assert!(!t.recursive);
    let t = watch_target(&bytes("/"), true);
    assert_eq!(text(t.root), ".");
}

#[test]
fn a_directory_is_watched_as_a_whole() {
    let t = watch_target(&bytes("/tmp/app/src"), false);
    assert_eq!(text(t.root), "/tmp/app/src");
    assert!(t.match_path.is_none());
    assert!(t.recursive);
}

#[test]
fn only_changes_that_concern_a_target_count() {
    let targets = start_watcher(&vec![(bytes("/w/src"), false), (bytes("/w/Cargo.toml"), true)]);
    assert_eq!(targets.len(), 2);
    let events = vec![
        bytes("/w/src/main.rs"),
        bytes("/w/Cargo.lock"),
        bytes("/w/Cargo.toml"),
        bytes("/x"),
        bytes("/w/src"),
        bytes("/w"),
    ];
    let changed: Vec<String> = changed_paths(&events, &targets).into_iter().map(text).collect();
    assert_eq!(changed, vec!["/w/src/main.rs", "/w/Cargo.toml", "/w/src", "/w"]);
    assert!(changed_paths(&events, &vec![]).is_empty());
    assert_eq!(DEBOUNCE_MS, 250);
}

#[test]
fn lying_in_a_directory_is_an_order() {
    for a in PATHS {
        assert!(path_starts_with(&bytes(a), &bytes(a)));
        for b in PATHS {
            for c in PATHS {
                if path_starts_with(&bytes(a), &bytes(b)) && path_starts_with(&bytes(b), &bytes(c)) {
                    assert!(path_starts_with(&bytes(a), &bytes(c)), "{a:?} {b:?} {c:?}");
                }
            }
        }
    }
}
