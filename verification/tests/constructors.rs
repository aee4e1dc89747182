use search_path::SearchPath;

const SIMPLE_PATH: &str = ".:..";

const NOT_SO_SIMPLE_PATH: &str = ":.:..:";

fn assert_correct(search_path: &SearchPath) {
    assert_eq!(search_path.len(), 2);
    assert!(search_path.contains(&String::from(".")));
    assert!(search_path.contains(&String::from("..")));
    assert!(search_path.contains_cwd());
    assert!(!search_path.contains(&String::from("tests")));
}

// ------------------------------------------------------------------------------------------------

#[test]
fn test_no_env_var_or() {
    let search_path = SearchPath::new_or(None, SearchPath::from_text(SIMPLE_PATH));
    assert_correct(&search_path);
}

#[test]
fn test_no_env_var_or_default() {
    let search_path = SearchPath::new_or_default(None);
    assert_eq!(search_path.len(), 0);
}

#[test]
fn test_ignore_empty() {
    let search_path = SearchPath::new_or(None, SearchPath::from_text(""));
    assert_eq!(search_path.len(), 0);
}

#[test]
fn test_ignore_empty_split() {
    let search_path = SearchPath::new_or(None, SearchPath::from_text(NOT_SO_SIMPLE_PATH));
    assert_correct(&search_path);
}

#[test]
fn test_env_value_used() {
    let search_path = SearchPath::new_or(
        Some(String::from(SIMPLE_PATH)),
        SearchPath::from_text("ignored"),
    );
    assert_correct(&search_path);
}

// ------------------------------------------------------------------------------------------------

#[test]
fn from_string() {
    let text = String::from(SIMPLE_PATH);
    let search_path = SearchPath::from_text(&text);
    assert_correct(&search_path);
}

#[test]
fn from_str() {
    let search_path = SearchPath::from_text(SIMPLE_PATH);
    assert_correct(&search_path);
}

#[test]
fn from_str_vec() {
    let search_path = SearchPath::from_sequence(vec![String::from("."), String::from("..")]);
    assert_correct(&search_path);
}

#[test]
fn from_pathbuf_vec() {
    let search_path = SearchPath::from_sequence(vec![String::from("."), String::from("..")]);
    assert_correct(&search_path);
}

#[test]
fn from_path_vec() {
    let search_path = SearchPath::from_sequence(vec![String::from("."), String::from("..")]);
    assert_correct(&search_path);
}

#[test]
fn from_pathbuf() {
    let search_path = SearchPath::from_path(String::from("."));
    assert_eq!(search_path.len(), 1);
    assert!(search_path.contains(&String::from(".")));
}
