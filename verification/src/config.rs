//! Command-line options and the runtime configuration derived from them.
use vstd::prelude::*;

use crate::text::{copy_opt_string, copy_strings, join_with_spaces, same_text, seq_join};

verus! {

/// Command execution mode
#[derive(Debug, Clone, Copy, PartialEq, Eq, Structural)]
pub enum CommandMode {
    /// Decide automatically between direct exec and shell execution
    Auto,
    /// Always execute via a shell
    Shell,
    /// Always execute directly without a shell
    Exec,
}

/// Difference highlighting mode
#[derive(Debug, Clone, Copy, PartialEq, Eq, Structural)]
pub enum DiffMode {
    /// No difference highlighting
    Disabled,
    /// Highlight differences from previous update only
    Normal,
    /// Highlight all differences since first update
    Permanent,
}

/// The shortest update interval, 0.1 s, in nanoseconds.
pub const MIN_INTERVAL_NANOS: u64 = 100_000_000;

/// The longest update interval, 31 days, in nanoseconds.
pub const MAX_INTERVAL_NANOS: u64 = 2_678_400_000_000_000;

/// The default update interval, 2 s, in nanoseconds.
pub const DEFAULT_INTERVAL_NANOS: u64 = 2_000_000_000;

/// The interval brought into the valid range (0.1 s to 31 days).
pub open spec fn spec_clamp_interval(nanos: u64) -> u64 {
    if nanos < MIN_INTERVAL_NANOS {
        MIN_INTERVAL_NANOS
    } else if nanos > MAX_INTERVAL_NANOS {
        MAX_INTERVAL_NANOS
    } else {
        nanos
    }
}

/// Clamp an interval (in nanoseconds) to the valid range, 0.1 s to 31 days.
pub fn clamp_interval_nanos(nanos: u64) -> (r: u64)
    ensures
        r == spec_clamp_interval(nanos),
{
    if nanos < MIN_INTERVAL_NANOS {
        MIN_INTERVAL_NANOS
    } else if nanos > MAX_INTERVAL_NANOS {
        MAX_INTERVAL_NANOS
    } else {
        nanos
    }
}

/// The `--differences` value selects permanent mode: it is "permanent" or "1".
pub open spec fn spec_is_permanent_mode(mode: Seq<char>) -> bool {
    mode == seq!['p', 'e', 'r', 'm', 'a', 'n', 'e', 'n', 't'] || mode == seq!['1']
}

fn is_permanent_mode(mode: &String) -> (r: bool)
    ensures
        r == spec_is_permanent_mode(mode@),
{
    proof {
        reveal_strlit("permanent");
        reveal_strlit("1");
    }
    let permanent = same_text(mode.as_str(), "permanent");
    let one = same_text(mode.as_str(), "1");
    assert("permanent"@ =~= seq!['p', 'e', 'r', 'm', 'a', 'n', 'e', 'n', 't']);
    assert("1"@ =~= seq!['1']);
    permanent || one
}

/// The parsed command line, as plain values. The interval is in nanoseconds and the
/// screenshot directory a path string.
pub struct Args {
    /// Update interval, in nanoseconds
    pub interval_nanos: u64,
    /// Highlight differences between updates: `None` when off, else the mode given
    pub differences: Option<String>,
    /// Interpret ANSI color and style sequences
    pub color: bool,
    /// Do not interpret ANSI color and style sequences
    pub no_color: bool,
    /// Turn off the header showing the interval, command, and current time
    pub no_title: bool,
    /// Beep if command has a non-zero exit
    pub beep: bool,
    /// Freeze updates on command error and exit after a key press
    pub errexit: bool,
    /// Exit when the output of command changes
    pub chgexit: bool,
    /// Exit when output does not change for the given number of cycles
    pub equexit: Option<u32>,
    /// Execute command at precise intervals (from start of previous run)
    pub precise: bool,
    /// Pass command to exec instead of shell
    pub use_exec: bool,
    /// Always execute through a shell
    pub shell: bool,
    /// Turn off line wrapping (truncate long lines)
    pub no_wrap: bool,
    /// Do not run the program on terminal resize
    pub no_rerun: bool,
    /// Scroll output like tail -f instead of clearing screen
    pub follow: bool,
    /// Directory to save screenshots into
    pub shotsdir: Option<String>,
    /// The command to execute
    pub command: Vec<String>,
}

impl Args {
    /// The same arguments with the interval clamped to the valid range.
    pub fn clamp_interval(self) -> (r: Args)
        ensures
            r.interval_nanos == spec_clamp_interval(self.interval_nanos),
            r.differences == self.differences,
            r.shotsdir == self.shotsdir,
            r.command == self.command,
            r.color == self.color && r.no_color == self.no_color && r.no_title == self.no_title,
            r.beep == self.beep && r.errexit == self.errexit && r.chgexit == self.chgexit,
            r.equexit == self.equexit && r.precise == self.precise && r.use_exec == self.use_exec,
            r.shell == self.shell && r.no_wrap == self.no_wrap && r.no_rerun == self.no_rerun,
            r.follow == self.follow,
    {
        let interval_nanos = clamp_interval_nanos(self.interval_nanos);
        Args { interval_nanos, ..self }
    }

    /// Check if permanent difference mode is enabled
    pub fn is_permanent_diff(&self) -> (r: bool)
        ensures
            r == (self.differences matches Some(m) && spec_is_permanent_mode(m@)),
    {
        match &self.differences {
            Some(mode) => is_permanent_mode(mode),
            None => false,
        }
    }

    /// Check if any difference highlighting is enabled
    pub fn has_differences(&self) -> (r: bool)
        ensures
            r == self.differences.is_some(),
    {
        self.differences.is_some()
    }

    /// Get the command as a single string for shell execution
    pub fn command_string(&self) -> (r: String)
        ensures
            r@ == seq_join(self.command.deep_view(), seq![' ']),
    {
        join_with_spaces(&self.command)
    }
}

/// The highlighting mode that the `--differences` option selects.
pub open spec fn spec_diff_mode(differences: Option<String>) -> DiffMode {
    match differences {
        None => DiffMode::Disabled,
        Some(m) => if spec_is_permanent_mode(m@) {
            DiffMode::Permanent
        } else {
            DiffMode::Normal
        },
    }
}

/// The execution mode: `--exec` wins over `--shell`; with neither it is decided per command.
pub open spec fn spec_command_mode(use_exec: bool, shell: bool) -> CommandMode {
    if use_exec {
        CommandMode::Exec
    } else if shell {
        CommandMode::Shell
    } else {
        CommandMode::Auto
    }
}

/// Runtime configuration derived from command-line arguments
#[derive(Debug, Clone)]
pub struct Config {
    /// Update interval, in nanoseconds
    pub interval_nanos: u64,
    /// Difference highlighting mode
    pub diff_mode: DiffMode,
    /// Whether to interpret ANSI colors
    pub color: bool,
    /// Whether to show the header
    pub show_title: bool,
    /// Whether to beep on error
    pub beep: bool,
    /// Whether to exit on command error
    pub errexit: bool,
    /// Whether to exit on output change
    pub chgexit: bool,
    /// Number of unchanged cycles before exit (None = disabled)
    pub equexit: Option<u32>,
    /// Whether to use precise timing
    pub precise: bool,
    /// How the command is executed
    pub command_mode: CommandMode,
    /// Whether to wrap long lines
    pub wrap: bool,
    /// Whether to rerun on terminal resize
    pub rerun_on_resize: bool,
    /// Whether to use follow mode (scroll instead of clear)
    pub follow: bool,
    /// Directory for screenshots
    pub shotsdir: Option<String>,
    /// The command to execute
    pub command: Vec<String>,
}

impl Config {
    /// Create a new Config from command-line arguments
    pub fn from_args(args: &Args) -> (c: Config)
        ensures
            c.interval_nanos == args.interval_nanos,
            c.diff_mode == spec_diff_mode(args.differences),
            c.color == (args.color && !args.no_color),
            c.show_title == !args.no_title,
            c.beep == args.beep,
            c.errexit == args.errexit,
            c.chgexit == args.chgexit,
            c.equexit == args.equexit,
            c.precise == args.precise,
            c.command_mode == spec_command_mode(args.use_exec, args.shell),
            c.wrap == !args.no_wrap,
            c.rerun_on_resize == !args.no_rerun,
            c.follow == args.follow,
            c.shotsdir.deep_view() == args.shotsdir.deep_view(),
            c.command.deep_view() == args.command.deep_view(),
    {
        let diff_mode = match &args.differences {
            None => DiffMode::Disabled,
            Some(mode) => if is_permanent_mode(mode) {
                DiffMode::Permanent
            } else {
                DiffMode::Normal
            },
        };
        // Determine color mode: --no-color disables colors, else --color turns them on
        let color = if args.no_color {
            false
        } else {
            args.color
        };
        let command_mode = if args.use_exec {
            CommandMode::Exec
        } else if args.shell {
            CommandMode::Shell
        } else {
            CommandMode::Auto
        };
        Config {
            interval_nanos: args.interval_nanos,
            diff_mode,
            color,
            show_title: !args.no_title,
            beep: args.beep,
            errexit: args.errexit,
            chgexit: args.chgexit,
            equexit: args.equexit,
            precise: args.precise,
            command_mode,
            wrap: !args.no_wrap,
            rerun_on_resize: !args.no_rerun,
            follow: args.follow,
            shotsdir: copy_opt_string(&args.shotsdir),
            command: copy_strings(args.command.as_slice()),
        }
    }

    /// Get the command as a single string
    pub fn command_string(&self) -> (r: String)
        ensures
            r@ == seq_join(self.command.deep_view(), seq![' ']),
    {
        join_with_spaces(&self.command)
    }
}

impl Default for Config {
    /// A 2 second interval, no highlighting, title shown, lines wrapped, rerun on resize,
    /// automatic command mode, every other option off, and no command.
    fn default() -> (c: Config)
        ensures
            c.interval_nanos == DEFAULT_INTERVAL_NANOS,
            c.diff_mode == DiffMode::Disabled,
            !c.color,
            c.show_title,
            !c.beep,
            !c.errexit,
            !c.chgexit,
            c.equexit.is_none(),
            !c.precise,
            c.command_mode == CommandMode::Auto,
            c.wrap,
            c.rerun_on_resize,
            !c.follow,
            c.shotsdir.is_none(),
            c.command@.len() == 0,
    {
        Config {
            interval_nanos: DEFAULT_INTERVAL_NANOS,
            diff_mode: DiffMode::Disabled,
            color: false,
            show_title: true,
            beep: false,
            errexit: false,
            chgexit: false,
            equexit: None,
            precise: false,
            command_mode: CommandMode::Auto,
            wrap: true,
            rerun_on_resize: true,
            follow: false,
            shotsdir: None,
            command: Vec::new(),
        }
    }
}

/// A clamped interval lies in the valid range, and clamping it again changes nothing.
pub proof fn law_clamp_interval(nanos: u64)
    ensures
        MIN_INTERVAL_NANOS <= spec_clamp_interval(nanos) <= MAX_INTERVAL_NANOS,
        spec_clamp_interval(spec_clamp_interval(nanos)) == spec_clamp_interval(nanos),
        MIN_INTERVAL_NANOS <= nanos <= MAX_INTERVAL_NANOS ==> spec_clamp_interval(nanos) == nanos,
{
}

} // verus!
