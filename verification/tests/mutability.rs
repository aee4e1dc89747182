use search_path::SearchPath;

const SIMPLE_PATH: &str = "a:b:c";

#[test]
fn test_append() {
    let mut search_path = SearchPath::new_or(None, SearchPath::from_text(SIMPLE_PATH));
    assert!(!search_path.contains(&String::from("d")));
    search_path.append(String::from("d"));
    assert!(search_path.contains(&String::from("d")));
    assert_eq!(search_path.iter().last(), Some(&String::from("d")));
}

#[test]
fn test_append_cwd() {
    let mut search_path = SearchPath::new_or(None, SearchPath::from_text(SIMPLE_PATH));
    assert!(!search_path.contains(&String::from(".")));
    search_path.append_cwd();
    assert!(search_path.contains(&String::from(".")));
    assert_eq!(search_path.iter().last(), Some(&String::from(".")));
}

#[test]
fn test_prepend() {
    let mut search_path = SearchPath::new_or(None, SearchPath::from_text(SIMPLE_PATH));
    assert!(!search_path.contains(&String::from("d")));
    search_path.prepend(String::from("d"));
    assert!(search_path.contains(&String::from("d")));
    assert_eq!(search_path.iter().first(), Some(&String::from("d")));
}

#[test]
fn test_prepend_cwd() {
    let mut search_path = SearchPath::new_or(None, SearchPath::from_text(SIMPLE_PATH));
    assert!(!search_path.contains(&String::from(".")));
    search_path.prepend_cwd();
    assert!(search_path.contains(&String::from(".")));
    assert_eq!(search_path.iter().first(), Some(&String::from(".")));
}

#[test]
fn test_remove() {
    let mut search_path = SearchPath::new_or(None, SearchPath::from_text(SIMPLE_PATH));
    assert!(search_path.contains(&String::from("a")));
    search_path.remove(&String::from("a"));
    assert!(!search_path.contains(&String::from("a")));
}

const DUPLICATES_PATH: &str = "a:b:a:b:c:a:c";

#[test]
fn test_dedup() {
    let mut search_path = SearchPath::new_or(None, SearchPath::from_text(DUPLICATES_PATH));
    search_path.dedup();
    assert_eq!(search_path.len(), 3);
    assert!(search_path.contains(&String::from("a")));
    assert!(search_path.contains(&String::from("b")));
    assert!(search_path.contains(&String::from("c")));
}
