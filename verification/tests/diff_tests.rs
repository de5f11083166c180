use watch_rs::diff::{output_changed, ChangedPosition, DiffEngine};

#[test]
fn test_first_run_no_changes() {
    let mut engine = DiffEngine::new();
    let changes = engine.calculate_diff("Hello World", false);
    assert!(changes.is_empty());
}

#[test]
fn test_detect_character_change() {
    let mut engine = DiffEngine::new();
    engine.calculate_diff("Hello", false);
    let changes = engine.calculate_diff("Hallo", false);

    assert!(changes.contains(&ChangedPosition { line: 0, col: 1 }));
}

#[test]
fn test_detect_line_addition() {
    let mut engine = DiffEngine::new();
    engine.calculate_diff("Line1", false);
    let changes = engine.calculate_diff("Line1\nLine2", false);

    // Should have changes for the new line
    assert!(!changes.is_empty());
}

#[test]
fn test_permanent_mode() {
    let mut engine = DiffEngine::new();

    // First run
    engine.calculate_diff("AAA", true);

    // Second run - change to BBB
    let changes1 = engine.calculate_diff("BBB", true);
    assert_eq!(changes1.len(), 3); // All 3 characters changed

    // Third run - change to CCC (should still show all changes from the first output)
    let changes2 = engine.calculate_diff("CCC", true);
    assert_eq!(changes2.len(), 3); // Still all 3 positions
}

#[test]
fn test_output_changed() {
    assert!(output_changed("hello", "world"));
    assert!(!output_changed("same", "same"));
}

// ---------------------------------------------------------------------------

#[test]
fn only_the_changed_character_is_reported() {
    let mut engine = DiffEngine::new();
    engine.calculate_diff("Hello", false);
    let changes = engine.calculate_diff("Hallo", false);
    assert_eq!(changes.len(), 1);
    assert_eq!(changes.positions(), vec![ChangedPosition { line: 0, col: 1 }]);
}

#[test]
fn added_line_is_reported_character_by_character() {
    let mut engine = DiffEngine::new();
    engine.calculate_diff("Line1", false);
    let changes = engine.calculate_diff("Line1\nLine2", false);
    let expected: Vec<ChangedPosition> =
        (0..5).map(|col| ChangedPosition { line: 1, col }).collect();
    assert_eq!(changes.positions(), expected);
}

#[test]
fn shorter_output_reports_nothing_for_removed_text() {
    let mut engine = DiffEngine::new();
    engine.calculate_diff("abcdef\nsecond", false);
    let changes = engine.calculate_diff("abc", false);
    assert!(changes.is_empty());
}

#[test]
fn repeated_output_highlights_nothing() {
    let mut engine = DiffEngine::new();
    engine.calculate_diff("one\ntwo", false);
    engine.calculate_diff("one\nTWO", false);
    let changes = engine.calculate_diff("one\nTWO", false);
    assert!(changes.is_empty());
}

#[test]
fn permanent_mode_accumulates_changes() {
    let mut engine = DiffEngine::new();
    engine.calculate_diff("abc", true);
    let c1 = engine.calculate_diff("xbc", true);
    assert_eq!(c1.positions(), vec![ChangedPosition { line: 0, col: 0 }]);
    // Compared with the first output again: position 0 is back, position 2 differs;
    // position 0 stays highlighted.
    let c2 = engine.calculate_diff("abz", true);
    assert_eq!(
        c2.positions(),
        vec![ChangedPosition { line: 0, col: 0 }, ChangedPosition { line: 0, col: 2 }]
    );
}

#[test]
fn reset_makes_the_next_run_a_first_run() {
    let mut engine = DiffEngine::new();
    engine.calculate_diff("abc", false);
    assert!(!engine.is_first());
    engine.reset();
    assert!(engine.is_first());
    let changes = engine.calculate_diff("xyz", false);
    assert!(changes.is_empty());
}

#[test]
fn crlf_and_final_newline_are_not_changes() {
    let mut engine = DiffEngine::new();
    engine.calculate_diff("ab\r\ncd\n", false);
    let changes = engine.calculate_diff("ab\ncd", false);
    assert!(changes.is_empty());
}

#[test]
fn union_of_change_sets() {
    let mut engine = DiffEngine::new();
    engine.calculate_diff("ab\ncd", false);
    let a = engine.calculate_diff("xb\ncd", false);
    let b = engine.calculate_diff("xb\ncz", false);
    let u = a.union(&b);
    assert_eq!(
        u.positions(),
        vec![ChangedPosition { line: 0, col: 0 }, ChangedPosition { line: 1, col: 1 }]
    );
    assert_eq!(u.duplicate().len(), 2);
}

#[test]
fn multibyte_characters_count_as_one_column() {
    let mut engine = DiffEngine::new();
    engine.calculate_diff("héllo", false);
    let changes = engine.calculate_diff("hällo", false);
    assert_eq!(changes.positions(), vec![ChangedPosition { line: 0, col: 1 }]);
}

#[test]
fn permanent_mode_keeps_all_changes_against_the_first_output() {
    let mut engine = DiffEngine::new();
    engine.calculate_diff("abc\nde", true);
    let c1 = engine.calculate_diff("abX\nde", true);
    assert_eq!(c1.positions(), vec![ChangedPosition { line: 0, col: 2 }]);
    let c2 = engine.calculate_diff("abc\ndY", true);
    assert_eq!(
        c2.positions(),
        vec![ChangedPosition { line: 0, col: 2 }, ChangedPosition { line: 1, col: 1 }]
    );
    // Back to the first output: earlier changes stay highlighted.
    let c3 = engine.calculate_diff("abc\nde", true);
    assert_eq!(c3.positions(), c2.positions());
}
