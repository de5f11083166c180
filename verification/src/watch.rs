//! The decisions of the watch loop: when to run the command, what an input event does,
//! and what follows from each run (highlighting, beeping, exiting). The loop itself, with
//! the terminal, the clock and the child process, is driven from outside.
use std::borrow::Cow;

use vstd::prelude::*;

use crate::config::{Config, DiffMode};
use crate::diff::{spec_calculate_diff, ChangeSet, DiffEngine, initial_diff_state, output_changed};
use crate::display::{Display, DisplayState, InputEvent};
use crate::runner::{spec_combined_output, spec_strip_non_printable, strip_non_printable, CommandResult};

verus! {

/// Exit status: success
pub const EXIT_SUCCESS: i32 = 0;

/// Exit status: general error
pub const EXIT_ERROR: i32 = 1;

/// Exit status: the command failed without an exit code
pub const EXIT_COMMAND_ERROR: i32 = 2;

/// How long one wait for input may last at most: 50 ms, in nanoseconds.
pub const POLL_INTERVAL_NANOS: u64 = 50_000_000;

/// The process exit status for a run's result: 1 for a negative code, else the code
/// capped at 255.
pub open spec fn spec_normalize_exit_code(code: i32) -> u8 {
    if code < 0 {
        1
    } else if code > 255 {
        255
    } else {
        code as u8
    }
}

pub fn normalize_exit_code(code: i32) -> (r: u8)
    ensures
        r == spec_normalize_exit_code(code),
{
    if code < 0 {
        1
    } else if code > 255 {
        255
    } else {
        code as u8
    }
}

/// An exit code that fits a process exit status is passed through unchanged.
pub proof fn law_exit_code_passes_through(code: i32)
    requires
        0 <= code <= 255,
    ensures
        spec_normalize_exit_code(code) as i32 == code,
{
}

/// The count of consecutive runs with unchanged output, after a run: with `--equexit`
/// it restarts at 0 on a change and grows by one otherwise (stopping at the largest
/// `u32`); without it, it stays as it is.
pub open spec fn spec_next_unchanged(equexit: Option<u32>, count: u32, changed: bool) -> u32 {
    match equexit {
        None => count,
        Some(_) => if changed {
            0
        } else if count < u32::MAX {
            (count + 1) as u32
        } else {
            u32::MAX
        },
    }
}

/// `--equexit N` ends the loop: the output did not change and has now stayed the same
/// for at least N runs in a row.
pub open spec fn spec_equexit_fires(equexit: Option<u32>, count: u32, changed: bool) -> bool {
    equexit matches Some(n) && !changed && count >= n
}

/// The count after `j` unchanged runs in a row, starting from a change.
pub open spec fn unchanged_run_count(j: nat) -> u32 {
    if j > u32::MAX {
        u32::MAX
    } else {
        j as u32
    }
}

/// With `--equexit N`, after a changed output the count of unchanged runs goes 1, 2, ...
/// and the loop ends on the N-th unchanged run in a row (the first one when N is 0), not
/// before.
pub proof fn law_equexit_after_n_unchanged_runs(n: u32, j: nat)
    ensures
        spec_next_unchanged(Some(n), 0, true) == 0,
        spec_next_unchanged(Some(n), unchanged_run_count(j), false) == unchanged_run_count(j + 1),
        spec_equexit_fires(Some(n), unchanged_run_count(j + 1), false) <==> j + 1 >= n,
        !spec_equexit_fires(Some(n), spec_next_unchanged(Some(n), unchanged_run_count(j), true), true),
{
}

/// State for the watch loop
pub struct WatchState {
    /// Current iteration number
    pub iteration: u64,
    /// Previous output for change detection
    pub previous_output: String,
    /// Number of consecutive cycles with unchanged output
    pub unchanged_cycles: u32,
    /// Last command exit code
    pub last_exit_code: Option<i32>,
    /// Whether the command is currently running
    pub command_running: bool,
    /// Whether a screenshot was requested
    pub screenshot_requested: bool,
}

impl WatchState {
    pub fn new() -> (s: WatchState)
        ensures
            s.iteration == 0,
            s.previous_output@.len() == 0,
            s.unchanged_cycles == 0,
            s.last_exit_code.is_none(),
            !s.command_running,
            !s.screenshot_requested,
    {
        WatchState {
            iteration: 0,
            previous_output: String::new(),
            unchanged_cycles: 0,
            last_exit_code: None,
            command_running: false,
            screenshot_requested: false,
        }
    }
}

/// How a cycle ends.
#[derive(Debug, Clone, Copy, PartialEq, Eq, Structural)]
pub enum CycleExit {
    /// Keep watching.
    Continue,
    /// Exit at once with this status.
    Exit(i32),
    /// Wait for a key press, then exit with this status.
    ExitAfterKey(i32),
}

/// What follows from one run of the command.
pub struct CycleOutcome {
    /// The output to show, cleaned of non-printable characters.
    pub output: String,
    /// The positions to highlight.
    pub changes: ChangeSet,
    /// Whether to highlight at all.
    pub highlight: bool,
    /// Whether to save a screenshot now.
    pub screenshot: bool,
    /// Whether to beep.
    pub beep: bool,
    /// Whether to go on.
    pub exit: CycleExit,
}

/// The watch loop's state between events: the configuration, the loop's counters, the
/// diff engine, the display, whether a run is forced, and when the next run is due
/// (in nanoseconds on the caller's monotonic clock).
pub struct Watcher {
    pub config: Config,
    pub state: WatchState,
    pub diff: DiffEngine,
    pub display: Display,
    pub force_refresh: bool,
    pub next_run: u64,
}

/// The next run is due: forced, or its time has come.
pub open spec fn spec_should_run(force_refresh: bool, next_run: u64, now: u64) -> bool {
    force_refresh || now >= next_run
}

/// When the next run is due: in precise mode one interval after the previous run
/// started (but not in the past), else one interval from now.
pub open spec fn spec_next_run(precise: bool, run_start: u64, now: u64, interval: u64) -> u64 {
    if precise {
        let due = if run_start + interval > u64::MAX {
            u64::MAX
        } else {
            (run_start + interval) as u64
        };
        if due < now {
            now
        } else {
            due
        }
    } else if now + interval > u64::MAX {
        u64::MAX
    } else {
        (now + interval) as u64
    }
}

impl Watcher {
    /// A watcher before its first run, on a terminal of the given size: the first run is
    /// forced.
    pub fn new(config: Config, width: u16, height: u16) -> (w: Watcher)
        ensures
            w.config == config,
            w.state.iteration == 0,
            w.state.previous_output@.len() == 0,
            w.state.unchanged_cycles == 0,
            w.state.last_exit_code.is_none(),
            !w.state.command_running,
            !w.state.screenshot_requested,
            w.diff@ == initial_diff_state(),
            w.display@.width == width && w.display@.height == height,
            w.display@.screenshot_counter == 0,
            w.display@.screen_buffer.len() == 0,
            w.force_refresh,
            w.next_run == 0,
    {
        Watcher {
            config,
            state: WatchState::new(),
            diff: DiffEngine::new(),
            display: Display::new(width, height),
            force_refresh: true,
            next_run: 0,
        }
    }

    /// How long to wait for input at `now`: not at all when a run is forced, else until
    /// the next run is due, but at most 50 ms.
    pub fn poll_timeout(&self, now: u64) -> (t: u64)
        ensures
            t == if self.force_refresh {
                0
            } else if self.next_run <= now {
                0
            } else if self.next_run - now < POLL_INTERVAL_NANOS {
                (self.next_run - now) as u64
            } else {
                POLL_INTERVAL_NANOS
            },
    {
        if self.force_refresh {
            return 0;
        }
        let remaining = if self.next_run <= now {
            0
        } else {
            self.next_run - now
        };
        if remaining < POLL_INTERVAL_NANOS {
            remaining
        } else {
            POLL_INTERVAL_NANOS
        }
    }

    /// Handle an input event; `size` is the terminal's size at the time. Returns whether
    /// to quit (with success). A refresh forces a run, a screenshot is taken after the
    /// next run, and a resize that changes the size resets the highlighting and, unless
    /// disabled, forces a run.
    pub fn handle_event(&mut self, event: InputEvent, size: (u16, u16)) -> (quit: bool)
        ensures
            quit == (event == InputEvent::Quit),
            final(self).config == old(self).config,
            final(self).state.iteration == old(self).state.iteration,
            final(self).state.previous_output@ == old(self).state.previous_output@,
            final(self).state.unchanged_cycles == old(self).state.unchanged_cycles,
            final(self).state.last_exit_code == old(self).state.last_exit_code,
            final(self).state.command_running == old(self).state.command_running,
            final(self).next_run == old(self).next_run,
            final(self).state.screenshot_requested == (old(self).state.screenshot_requested
                || event == InputEvent::Screenshot),
            event == InputEvent::Resize ==> final(self).display@ == (DisplayState {
                width: size.0,
                height: size.1,
                ..old(self).display@
            }),
            event != InputEvent::Resize ==> final(self).display@ == old(self).display@,
            if event == InputEvent::Resize && (size.0 != old(self).display@.width || size.1
                != old(self).display@.height) {
                &&& final(self).diff@ == initial_diff_state()
                &&& final(self).force_refresh == (old(self).force_refresh
                    || old(self).config.rerun_on_resize)
            } else {
                &&& final(self).diff@ == old(self).diff@
                &&& final(self).force_refresh == (old(self).force_refresh || event
                    == InputEvent::Refresh)
            },
    {
        match event {
            InputEvent::Quit => {
                return true;
            },
            InputEvent::Refresh => {
                self.force_refresh = true;
            },
            InputEvent::Screenshot => {
                self.state.screenshot_requested = true;
            },
            InputEvent::Resize => {
                if self.display.update_size(size.0, size.1) {
                    // Terminal was resized
                    self.diff.reset();
                    if self.config.rerun_on_resize {
                        self.force_refresh = true;
                    }
                }
            },
            InputEvent::Idle => {},
        }
        false
    }

    /// Whether it is time to run the command at `now`.
    pub fn should_run(&self, now: u64) -> (r: bool)
        ensures
            r == spec_should_run(self.force_refresh, self.next_run, now),
    {
        self.force_refresh || now >= self.next_run
    }

    /// Bookkeeping as a run starts: the forced run is consumed and the iteration counted.
    pub fn start_run(&mut self)
        requires
            old(self).state.iteration < u64::MAX,
        ensures
            !final(self).force_refresh,
            final(self).state.iteration == old(self).state.iteration + 1,
            final(self).state.command_running,
            final(self).config == old(self).config,
            final(self).diff@ == old(self).diff@,
            final(self).display@ == old(self).display@,
            final(self).next_run == old(self).next_run,
            final(self).state.previous_output@ == old(self).state.previous_output@,
            final(self).state.unchanged_cycles == old(self).state.unchanged_cycles,
            final(self).state.screenshot_requested == old(self).state.screenshot_requested,
            final(self).state.last_exit_code == old(self).state.last_exit_code,
    {
        self.force_refresh = false;
        self.state.iteration = self.state.iteration + 1;
        self.state.command_running = true;
    }

    /// What follows from a finished run. The output (stdout and stderr) is cleaned, kept
    /// in color only with `--color`, and compared for highlighting. A requested
    /// screenshot is taken now; a failure beeps with `--beep`. With `--errexit` a failure
    /// ends the loop after a key press, with the command's exit code (2 without one).
    /// With `--chgexit` a changed output ends it, but never on the first run. With
    /// `--equexit N` it ends once the output stayed the same N runs in a row. Otherwise
    /// the output is remembered for the next comparison.
    pub fn finish_run(&mut self, result: &CommandResult) -> (o: CycleOutcome)
        ensures
            ({
                let out = spec_strip_non_printable(
                    spec_combined_output(result.stdout@, result.stderr@),
                    old(self).config.color,
                );
                let mode = old(self).config.diff_mode;
                let changed = out != old(self).state.previous_output@;
                &&& o.output@ == out
                &&& !final(self).state.command_running
                &&& final(self).state.last_exit_code == result.exit_code
                &&& final(self).state.iteration == old(self).state.iteration
                &&& final(self).config == old(self).config
                &&& final(self).display@ == old(self).display@
                &&& final(self).force_refresh == old(self).force_refresh
                &&& final(self).next_run == old(self).next_run
                &&& o.screenshot == old(self).state.screenshot_requested
                &&& !final(self).state.screenshot_requested
                &&& o.beep == (old(self).config.beep && !result.success)
                &&& if mode == DiffMode::Disabled {
                    &&& final(self).diff@ == old(self).diff@
                    &&& o.changes@ == Set::<crate::diff::ChangedPosition>::empty()
                } else {
                    (final(self).diff@, o.changes@) == spec_calculate_diff(
                        old(self).diff@,
                        out,
                        mode == DiffMode::Permanent,
                    )
                }
                &&& o.highlight == (mode != DiffMode::Disabled && o.changes@
                    != Set::<crate::diff::ChangedPosition>::empty())
                &&& if old(self).config.errexit && !result.success {
                    &&& o.exit == CycleExit::ExitAfterKey(
                        match result.exit_code {
                            Some(c) => c,
                            None => EXIT_COMMAND_ERROR,
                        },
                    )
                    &&& final(self).state.previous_output@ == old(self).state.previous_output@
                    &&& final(self).state.unchanged_cycles == old(self).state.unchanged_cycles
                } else if old(self).config.chgexit && changed && old(self).state.iteration > 1 {
                    &&& o.exit == CycleExit::Exit(EXIT_SUCCESS)
                    &&& final(self).state.previous_output@ == old(self).state.previous_output@
                    &&& final(self).state.unchanged_cycles == old(self).state.unchanged_cycles
                } else {
                    let unchanged = spec_next_unchanged(
                        old(self).config.equexit,
                        old(self).state.unchanged_cycles,
                        changed,
                    );
                    &&& final(self).state.unchanged_cycles == unchanged
                    &&& if spec_equexit_fires(old(self).config.equexit, unchanged, changed) {
                        &&& o.exit == CycleExit::Exit(EXIT_SUCCESS)
                        &&& final(self).state.previous_output@
                            == old(self).state.previous_output@
                    } else {
                        &&& o.exit == CycleExit::Continue
                        &&& final(self).state.previous_output@ == out
                    }
                }
            }),
    {
        self.state.command_running = false;
        self.state.last_exit_code = result.exit_code;

        // Process output
        let combined = result.combined_output();
        let output = match &combined {
            Cow::Borrowed(text) => strip_non_printable(text, self.config.color),
            Cow::Owned(text) => strip_non_printable(text.as_str(), self.config.color),
        };

        // Calculate differences if needed
        let changes = match self.config.diff_mode {
            DiffMode::Disabled => ChangeSet::new(),
            DiffMode::Normal => self.diff.calculate_diff(output.as_str(), false),
            DiffMode::Permanent => self.diff.calculate_diff(output.as_str(), true),
        };
        let highlight = match self.config.diff_mode {
            DiffMode::Disabled => false,
            _ => !changes.is_empty(),
        };

        let screenshot = self.state.screenshot_requested;
        self.state.screenshot_requested = false;
        let beep = self.config.beep && !result.success;

        // Exit on command error, after a key press
        if self.config.errexit && !result.success {
            let code = match result.exit_code {
                Some(c) => c,
                None => EXIT_COMMAND_ERROR,
            };
            return CycleOutcome {
                output,
                changes,
                highlight,
                screenshot,
                beep,
                exit: CycleExit::ExitAfterKey(code),
            };
        }

        let changed = output_changed(output.as_str(), self.state.previous_output.as_str());

        if self.config.chgexit && changed && self.state.iteration > 1 {
            return CycleOutcome {
                output,
                changes,
                highlight,
                screenshot,
                beep,
                exit: CycleExit::Exit(EXIT_SUCCESS),
            };
        }

        if let Some(cycles) = self.config.equexit {
            if changed {
                self.state.unchanged_cycles = 0;
            } else {
                if self.state.unchanged_cycles < u32::MAX {
                    self.state.unchanged_cycles = self.state.unchanged_cycles + 1;
                }
                if self.state.unchanged_cycles >= cycles {
                    return CycleOutcome {
                        output,
                        changes,
                        highlight,
                        screenshot,
                        beep,
                        exit: CycleExit::Exit(EXIT_SUCCESS),
                    };
                }
            }
        }

        self.state.previous_output = output.clone();
        CycleOutcome { output, changes, highlight, screenshot, beep, exit: CycleExit::Continue }
    }

    /// Set when the next run is due, given when the last one started and the time now.
    pub fn schedule(&mut self, run_start: u64, now: u64)
        ensures
            final(self).next_run == spec_next_run(
                old(self).config.precise,
                run_start,
                now,
                old(self).config.interval_nanos,
            ),
            final(self).force_refresh == old(self).force_refresh,
            final(self).config == old(self).config,
            final(self).diff@ == old(self).diff@,
            final(self).display@ == old(self).display@,
            final(self).state.iteration == old(self).state.iteration,
            final(self).state.previous_output@ == old(self).state.previous_output@,
            final(self).state.unchanged_cycles == old(self).state.unchanged_cycles,
            final(self).state.screenshot_requested == old(self).state.screenshot_requested,
            final(self).state.last_exit_code == old(self).state.last_exit_code,
            final(self).state.command_running == old(self).state.command_running,
    {
        let interval = self.config.interval_nanos;
        if self.config.precise {
            // Precise mode: interval from start of previous run
            let due = run_start.saturating_add(interval);
            // If we're already past the next run time, run immediately
            self.next_run = if due < now {
                now
            } else {
                due
            };
        } else {
            // Normal mode: interval from end of previous run
            self.next_run = now.saturating_add(interval);
        }
    }
}

} // verus!
