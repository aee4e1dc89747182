use search_path::all_hits;
use search_path::first_hit;
use search_path::SearchPath;

// ------------------------------------------------------------------------------------------------
// Round trips between the textual form and the entries.
// ------------------------------------------------------------------------------------------------

#[test]
fn round_trip_without_blank_segments() {
    let text = "./:../";
    let search_path = SearchPath::from_text(text);
    assert_eq!(search_path.to_string(), String::from(text));
    let text = ".:..";
    let search_path = SearchPath::from_text(text);
    assert_eq!(search_path.to_string(), String::from(text));
}

#[test]
fn blank_segments_do_not_matter() {
    let noisy = SearchPath::from_text("::.::..:");
    let clean = SearchPath::from_text(".:..");
    assert_eq!(noisy, clean);
    assert_eq!(noisy.to_string(), String::from(".:.."));
    let rebuilt = SearchPath::from_text(&noisy.to_string());
    assert_eq!(rebuilt, noisy);
}

#[test]
fn whitespace_only_segments_are_dropped_untrimmed_kept() {
    let search_path = SearchPath::from_text("  : a");
    assert_eq!(search_path.len(), 1);
    assert!(search_path.contains(&String::from(" a")));
}

#[test]
fn empty_entries_from_sequence_are_kept() {
    let search_path = SearchPath::from_sequence(vec![String::new(), String::from("a")]);
    assert_eq!(search_path.len(), 2);
    assert_eq!(search_path.to_string(), String::from(":a"));
}

// ------------------------------------------------------------------------------------------------
// Deduplication.
// ------------------------------------------------------------------------------------------------

#[test]
fn dedup_twice_is_dedup_once() {
    let mut once = SearchPath::from_text("a:b:a:b:c:a:c");
    once.dedup();
    let mut twice = once.clone();
    twice.dedup();
    assert_eq!(once, twice);
}

#[test]
fn dedup_keeps_first_occurrence_order() {
    let mut search_path = SearchPath::from_text("b:a:b:c:a");
    search_path.dedup();
    assert_eq!(
        search_path.iter(),
        &vec![String::from("b"), String::from("a"), String::from("c")]
    );
}

// ------------------------------------------------------------------------------------------------
// Mutation.
// ------------------------------------------------------------------------------------------------

#[test]
fn remove_takes_out_every_occurrence() {
    let mut search_path = SearchPath::from_text("a:b:a");
    assert!(search_path.contains(&String::from("a")));
    search_path.remove(&String::from("a"));
    assert!(!search_path.contains(&String::from("a")));
    assert_eq!(search_path.len(), 1);
    assert!(search_path.contains(&String::from("b")));
}

#[test]
fn append_and_prepend_keep_other_entries() {
    let mut search_path = SearchPath::from_text("a:b");
    search_path.append(String::from("z"));
    search_path.prepend(String::from("y"));
    assert_eq!(search_path.to_string(), String::from("y:a:b:z"));
}

#[test]
fn into_vec_preserves_order() {
    let search_path = SearchPath::from_text("a:b:c");
    let entries = search_path.into_vec();
    assert_eq!(
        entries,
        vec![String::from("a"), String::from("b"), String::from("c")]
    );
}

// ------------------------------------------------------------------------------------------------
// Fallback constructors.
// ------------------------------------------------------------------------------------------------

#[test]
fn absent_variable_falls_back_to_default() {
    let fallback = SearchPath::from_text(".:..");
    let search_path = SearchPath::new_or(None, fallback.clone());
    assert_eq!(search_path, fallback);
}

#[test]
fn present_variable_wins_over_default() {
    let fallback = SearchPath::from_text(".");
    let search_path = SearchPath::new_or(Some(String::from("a:b")), fallback);
    assert_eq!(search_path, SearchPath::from_text("a:b"));
}

// ------------------------------------------------------------------------------------------------
// The selection rules applied to probe outcomes.
// ------------------------------------------------------------------------------------------------

#[test]
fn first_hit_takes_the_first_true() {
    let cands = vec![String::from("x"), String::from("y"), String::from("z")];
    let hits = vec![false, true, true];
    assert_eq!(first_hit(&cands, &hits), Some(String::from("y")));
    let none = vec![false, false, false];
    assert_eq!(first_hit(&cands, &none), None);
    let empty: Vec<bool> = vec![];
    assert_eq!(first_hit(&cands, &empty), None);
}

#[test]
fn all_hits_keeps_scan_order() {
    let cands = vec![String::from("x"), String::from("y"), String::from("z")];
    let hits = vec![true, false, true];
    assert_eq!(
        all_hits(&cands, &hits),
        vec![String::from("x"), String::from("z")]
    );
    let none = vec![false, false, false];
    assert!(all_hits(&cands, &none).is_empty());
}
