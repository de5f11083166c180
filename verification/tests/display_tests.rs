use watch_rs::config::DiffMode;
use watch_rs::diff::DiffEngine;
use watch_rs::display::{
    can_title, header_height, header_left, input_event, is_key, status_line, title_line, Display,
    InputEvent, Status, TermEvent, MOD_CONTROL, MOD_SHIFT,
};

fn key(ch: char, modifiers: u8) -> TermEvent {
    TermEvent::Key { ch: Some(ch), modifiers }
}

#[test]
fn key_meanings() {
    assert_eq!(input_event(key('q', 0)), InputEvent::Quit);
    assert_eq!(input_event(key('q', MOD_SHIFT)), InputEvent::Idle);
    assert_eq!(input_event(key('c', MOD_CONTROL)), InputEvent::Quit);
    assert_eq!(input_event(key('c', 0)), InputEvent::Idle);
    assert_eq!(input_event(key(' ', MOD_SHIFT)), InputEvent::Refresh);
    assert_eq!(input_event(key('s', 0)), InputEvent::Screenshot);
    assert_eq!(input_event(TermEvent::Key { ch: None, modifiers: 0 }), InputEvent::Idle);
    assert_eq!(input_event(TermEvent::Resize), InputEvent::Resize);
    assert_eq!(input_event(TermEvent::Other), InputEvent::Idle);
    assert!(is_key(key('x', 0)) && !is_key(TermEvent::Resize));
}

#[test]
fn size_updates() {
    let mut d = Display::new(80, 24);
    assert_eq!(d.size(), (80, 24));
    assert!(!d.update_size(80, 24));
    assert!(d.update_size(81, 24));
    assert_eq!(d.size(), (81, 24));
}

fn texts(line: &watch_rs::display::OutputLine) -> Vec<(String, bool)> {
    line.runs.iter().map(|r| (r.text.clone(), r.highlighted)).collect()
}

#[test]
fn layout_cuts_rows_and_width() {
    let mut d = Display::new(5, 4);
    let changes = DiffEngine::new().calculate_diff("", false);
    let out = "abcdefgh\nxy\nthird\nfourth";
    let lines = d.layout_output(out, false, DiffMode::Disabled, &changes, 2);
    assert_eq!(lines.len(), 2);
    assert_eq!(lines[0].row, 2);
    assert_eq!(texts(&lines[0]), vec![("abcde".to_string(), false)]);
    assert_eq!(lines[1].row, 3);
    assert_eq!(texts(&lines[1]), vec![("xy".to_string(), false)]);
    let wrapped = d.layout_output(out, true, DiffMode::Disabled, &changes, 0);
    assert_eq!(wrapped.len(), 4);
    assert_eq!(texts(&wrapped[0]), vec![("abcdefgh".to_string(), false)]);
    let (n, content) = d.next_screenshot();
    assert_eq!(n, 1);
    assert_eq!(content, "abcdefgh\nxy\nthird\nfourth");
    assert_eq!(d.next_screenshot().0, 2);
}

#[test]
fn layout_never_cuts_inside_a_character() {
    let mut d = Display::new(2, 4);
    let changes = DiffEngine::new().calculate_diff("", false);
    // 'é' takes two bytes: a 2-byte cut falls inside it, so only "a" is shown.
    let lines = d.layout_output("aé
éa
ab", false, DiffMode::Disabled, &changes, 0);
    assert_eq!(texts(&lines[0]), vec![("a".to_string(), false)]);
    assert_eq!(texts(&lines[1]), vec![("é".to_string(), false)]);
    assert_eq!(texts(&lines[2]), vec![("ab".to_string(), false)]);
}

#[test]
fn title_truncation_is_unicode_safe() {
    let time = "T"; // 1 byte; room = 12 - 3 = 9, cut at 6 bytes
    let left = header_left("1.0s", "ééé"); // "Every 1.0s: " + 6 bytes = 18 bytes
    assert!(can_title(&left, time, 12));
    // The first 6 bytes are "Every ", within the room; then "..." and the time.
    assert_eq!(title_line(&left, time, 12), "Every ...  T");
    let left = header_left("1", "x"); // "Every 1: x"
    assert!(can_title("ééééé", "", 7));
    // room = 5, cut at 2 bytes: one 'é'
    assert_eq!(title_line("ééééé", "", 7), "é...  ");
    assert_eq!(left, "Every 1: x");
}

#[test]
fn layout_highlights_runs() {
    let mut engine = DiffEngine::new();
    engine.calculate_diff("abcdef", false);
    let changes = engine.calculate_diff("aXcYYf", false);
    let mut d = Display::new(80, 24);
    let lines = d.layout_output("aXcYYf", true, DiffMode::Normal, &changes, 0);
    assert_eq!(
        texts(&lines[0]),
        vec![
            ("a".to_string(), false),
            ("X".to_string(), true),
            ("c".to_string(), false),
            ("YY".to_string(), true),
            ("f".to_string(), false),
        ]
    );
    let plain = d.layout_output("aXcYYf", true, DiffMode::Disabled, &changes, 0);
    assert_eq!(texts(&plain[0]), vec![("aXcYYf".to_string(), false)]);
}

#[test]
fn header_parts() {
    assert_eq!(header_height(false, false), 0);
    assert_eq!(header_height(true, true), 2);
    assert_eq!(header_height(true, false), 3);
    assert_eq!(status_line(true, Some(3)), None);
    assert_eq!(status_line(false, Some(3)), Some(Status::ExitCode(3)));
    assert_eq!(status_line(false, None), Some(Status::Signal));
    assert_eq!(header_left("2.0s", "ls -l"), "Every 2.0s: ls -l");
}

#[test]
fn title_right_aligns_and_truncates() {
    let time = "Mon Jan 01 00:00:00 2024"; // 24 bytes
    let left = header_left("2.0s", "ls -l"); // 17 bytes
    assert!(can_title(&left, time, 50));
    let t = title_line(&left, time, 50);
    assert_eq!(t.len(), 50);
    assert!(t.starts_with("Every 2.0s: ls -l ") && t.ends_with(time));
    // room = 30 - 26 = 4, cut to 1 byte plus "..."
    assert!(can_title(&left, time, 30));
    assert_eq!(title_line(&left, time, 30), format!("E...  {}", time));
    // too narrow: not even the time and "..." fit
    assert!(!can_title(&left, time, 20));
}
