//! Lookups probe the real filesystem, so these tests scan the crate's own
//! source tree, relative to the directory the tests run in: `src/lib.rs`
//! and this file are known to exist, `src` is known to be a directory.

use search_path::SearchPath;

fn make_full_search_path() -> SearchPath {
    SearchPath::from_text("src:./src:tests:.")
}

fn make_partial_search_path() -> SearchPath {
    SearchPath::from_text("tests:./src")
}

#[test]
fn find_file_full() {
    let search_path = make_full_search_path();
    let result = search_path.find("lib.rs");
    assert!(result.is_some());
    let file = result.unwrap();
    assert_eq!(file, String::from("src/lib.rs"))
}

#[test]
fn find_directory_full() {
    // `find` accepts any kind of entity: here the match is a directory.
    let search_path = make_full_search_path();
    let result = search_path.find("src");
    assert!(result.is_some());
    let file = result.unwrap();
    assert_eq!(file, String::from("./src"))
}

#[test]
fn find_file_partial() {
    let search_path = make_partial_search_path();
    let result = search_path.find("lib.rs");
    assert!(result.is_some());
    let file = result.unwrap();
    assert_eq!(file, String::from("./src/lib.rs"))
}

#[test]
fn find_no_file_full() {
    let search_path = make_full_search_path();
    let result = search_path.find("none.txt");
    assert!(result.is_none());
}

#[test]
fn find_all_files_full() {
    let search_path = make_full_search_path();
    let files = search_path.find_all("lib.rs");
    assert_eq!(files.len(), 2);
    assert_eq!(
        files,
        vec![String::from("src/lib.rs"), String::from("./src/lib.rs")]
    )
}

#[test]
fn find_file_only_full() {
    let search_path = make_full_search_path();
    let result = search_path.find_file("lib.rs");
    assert!(result.is_some());
    let file = result.unwrap();
    assert_eq!(file, String::from("src/lib.rs"))
}

#[test]
fn find_no_file_only_full() {
    // `./src` exists, but it is a directory, not a file: no match.
    let search_path = make_full_search_path();
    let result = search_path.find_file("src");
    assert!(result.is_none());
}

#[test]
fn find_directory_only_full() {
    let search_path = make_full_search_path();
    let result = search_path.find_directory("src");
    assert!(result.is_some());
    let file = result.unwrap();
    assert_eq!(file, String::from("./src"))
}

#[test]
fn find_no_directory_only_full() {
    // `src/lib.rs` exists, but it is a file, not a directory: no match.
    let search_path = make_full_search_path();
    let result = search_path.find_directory("lib.rs");
    assert!(result.is_none());
}

#[test]
fn find_path_file_full() {
    // A name with a directory component still resolves through `find`.
    let search_path = make_full_search_path();
    let result = search_path.find("src/lib.rs");
    assert!(result.is_some());
    let file = result.unwrap();
    assert_eq!(file, String::from("./src/lib.rs"))
}

#[test]
fn find_filename_partial() {
    let search_path = make_partial_search_path();
    let result = search_path.find_if_name_only("lib.rs");
    assert!(result.is_some());
    let file = result.unwrap();
    assert_eq!(file, String::from("./src/lib.rs"))
}

#[test]
fn find_filename_with_directory_partial() {
    // The same name resolves through `find`, but the name-only guard
    // refuses it outright for having a directory component.
    let search_path = make_full_search_path();
    let result = search_path.find_if_name_only("src/lib.rs");
    assert!(result.is_none());
}

#[test]
fn find_empty_collection() {
    let search_path = SearchPath::from_text("");
    assert!(search_path.find("lib.rs").is_none());
    assert!(search_path.find_all("lib.rs").is_empty());
}

#[test]
fn find_if_name_only_rejects_absolute() {
    let search_path = make_full_search_path();
    assert!(search_path.find_if_name_only("/lib.rs").is_none());
}

#[test]
fn candidate_paths_in_scan_order() {
    let search_path = SearchPath::from_text("tests:tests/b");
    let cands = search_path.candidate_paths("a.txt");
    assert_eq!(
        cands,
        vec![String::from("tests/a.txt"), String::from("tests/b/a.txt")]
    );
}

#[test]
fn candidate_join_rules() {
    let search_path = SearchPath::from_sequence(vec![
        String::from("tests"),
        String::from("tests/"),
        String::from(""),
    ]);
    let cands = search_path.candidate_paths("a.txt");
    assert_eq!(
        cands,
        vec![
            String::from("tests/a.txt"),
            String::from("tests/a.txt"),
            String::from("a.txt")
        ]
    );
    let absolute = search_path.candidate_paths("/etc/hosts");
    assert_eq!(
        absolute,
        vec![
            String::from("/etc/hosts"),
            String::from("/etc/hosts"),
            String::from("/etc/hosts")
        ]
    );
}
