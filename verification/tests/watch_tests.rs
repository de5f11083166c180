use watch_rs::config::{Config, DiffMode};
use watch_rs::display::InputEvent;
use watch_rs::runner::CommandResult;
use watch_rs::watch::{normalize_exit_code, CycleExit, Watcher, WatchState, POLL_INTERVAL_NANOS};

#[test]
fn test_normalize_exit_code_bounds() {
    assert_eq!(normalize_exit_code(-1), 1);
    assert_eq!(normalize_exit_code(0), 0);
    assert_eq!(normalize_exit_code(255), 255);
    assert_eq!(normalize_exit_code(512), 255);
}

// ---------------------------------------------------------------------------

fn ok(out: &str) -> CommandResult {
    CommandResult { stdout: out.to_string(), stderr: String::new(), exit_code: Some(0), success: true }
}

fn failed(code: Option<i32>) -> CommandResult {
    CommandResult { stdout: "x".to_string(), stderr: String::new(), exit_code: code, success: false }
}

fn watcher(config: Config) -> Watcher {
    Watcher::new(config, 80, 24)
}

fn cycle(w: &mut Watcher, result: &CommandResult) -> CycleExit {
    w.start_run();
    w.finish_run(result).exit
}

#[test]
fn watch_state_starts_empty() {
    let s = WatchState::new();
    assert_eq!(s.iteration, 0);
    assert!(s.previous_output.is_empty());
    assert_eq!(s.unchanged_cycles, 0);
    assert!(s.last_exit_code.is_none() && !s.command_running && !s.screenshot_requested);
}

#[test]
fn first_run_is_forced_and_scheduling() {
    let mut config = Config::default();
    config.interval_nanos = 1_000;
    let mut w = watcher(config);
    assert!(w.should_run(0));
    assert_eq!(w.poll_timeout(0), 0);
    w.start_run();
    assert!(!w.force_refresh);
    w.schedule(100, 250);
    assert_eq!(w.next_run, 1_250);
    assert!(!w.should_run(1_000));
    assert_eq!(w.poll_timeout(1_000), 250);
    assert!(w.should_run(1_250));
    w.config.precise = true;
    w.schedule(100, 250);
    assert_eq!(w.next_run, 1_100);
    w.schedule(100, 5_000);
    assert_eq!(w.next_run, 5_000);
    w.config.interval_nanos = 1_000_000_000;
    w.schedule(0, 0);
    assert_eq!(w.poll_timeout(0), POLL_INTERVAL_NANOS);
}

#[test]
fn events() {
    let mut w = watcher(Config::default());
    w.force_refresh = false;
    assert!(w.handle_event(InputEvent::Quit, (80, 24)));
    assert!(!w.handle_event(InputEvent::Idle, (80, 24)));
    assert!(!w.force_refresh);
    assert!(!w.handle_event(InputEvent::Refresh, (80, 24)));
    assert!(w.force_refresh);
    assert!(!w.handle_event(InputEvent::Screenshot, (80, 24)));
    assert!(w.state.screenshot_requested);
}

#[test]
fn resize_resets_highlighting_and_reruns() {
    let mut config = Config::default();
    config.diff_mode = DiffMode::Normal;
    let mut w = watcher(config);
    cycle(&mut w, &ok("abc"));
    assert!(!w.diff.is_first());
    w.force_refresh = false;
    // Same size: nothing happens.
    w.handle_event(InputEvent::Resize, (80, 24));
    assert!(!w.diff.is_first() && !w.force_refresh);
    // New size: highlighting starts over and the command reruns.
    let shots = w.display.screenshot_count();
    w.handle_event(InputEvent::Resize, (100, 30));
    assert!(w.diff.is_first() && w.force_refresh);
    assert_eq!(w.display.screenshot_count(), shots);
    assert_eq!(w.display.size(), (100, 30));
    // Without rerun on resize, only the highlighting starts over.
    w.force_refresh = false;
    w.config.rerun_on_resize = false;
    w.handle_event(InputEvent::Resize, (90, 30));
    assert!(!w.force_refresh);
}

#[test]
fn chgexit_never_on_first_run() {
    let mut config = Config::default();
    config.chgexit = true;
    let mut w = watcher(config);
    assert_eq!(cycle(&mut w, &ok("a")), CycleExit::Continue);
    assert_eq!(cycle(&mut w, &ok("a")), CycleExit::Continue);
    assert_eq!(cycle(&mut w, &ok("b")), CycleExit::Exit(0));
}

#[test]
fn equexit_after_n_unchanged_cycles() {
    let mut config = Config::default();
    config.equexit = Some(2);
    let mut w = watcher(config);
    assert_eq!(cycle(&mut w, &ok("a")), CycleExit::Continue); // changed from ""
    assert_eq!(cycle(&mut w, &ok("a")), CycleExit::Continue); // 1 unchanged
    assert_eq!(cycle(&mut w, &ok("b")), CycleExit::Continue); // changed: count restarts
    assert_eq!(cycle(&mut w, &ok("b")), CycleExit::Continue); // 1
    assert_eq!(cycle(&mut w, &ok("b")), CycleExit::Exit(0)); // 2
}

#[test]
fn errexit_waits_for_a_key_with_the_exit_code() {
    let mut config = Config::default();
    config.errexit = true;
    config.beep = true;
    let mut w = watcher(config);
    w.start_run();
    let o = w.finish_run(&failed(Some(3)));
    assert_eq!(o.exit, CycleExit::ExitAfterKey(3));
    assert!(o.beep);
    assert_eq!(cycle(&mut w, &failed(None)), CycleExit::ExitAfterKey(2));
    assert_eq!(w.state.last_exit_code, None);
}

#[test]
fn output_is_cleaned_and_highlighted() {
    let mut config = Config::default();
    config.diff_mode = DiffMode::Normal;
    let mut w = watcher(config);
    w.start_run();
    let o = w.finish_run(&ok("a\x1b[1mb"));
    assert_eq!(o.output, "ab");
    assert!(!o.highlight);
    w.handle_event(InputEvent::Screenshot, (80, 24));
    w.start_run();
    let o = w.finish_run(&ok("ax"));
    assert!(o.highlight && o.changes.len() == 1);
    assert!(o.screenshot);
    assert!(!w.state.screenshot_requested);
    assert_eq!(w.state.previous_output, "ax");
}
