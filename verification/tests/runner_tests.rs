use std::borrow::Cow;

use watch_rs::config::CommandMode;
use watch_rs::runner::{
    build_shell_command, is_shell_operator, looks_like_env_assignment, quote_for_cmd,
    quote_for_posix_sh, should_use_shell, strip_non_printable, CommandResult, RunError, Runner,
    ShellSyntax,
};

#[test]
fn test_strip_non_printable_basic() {
    let input = "Hello\x00World";
    let result = strip_non_printable(input, false);
    assert_eq!(result, "HelloWorld");
}

#[test]
fn test_strip_preserves_newlines() {
    let input = "Hello\nWorld";
    let result = strip_non_printable(input, false);
    assert_eq!(result, "Hello\nWorld");
}

#[test]
fn test_strip_ansi_when_disabled() {
    let input = "Hello \x1b[31mRed\x1b[0m World";
    let result = strip_non_printable(input, false);
    assert_eq!(result, "Hello Red World");
}

#[test]
fn test_preserve_ansi_when_enabled() {
    let input = "Hello \x1b[31mRed\x1b[0m World";
    let result = strip_non_printable(input, true);
    assert_eq!(result, "Hello \x1b[31mRed\x1b[0m World");
}

#[test]
fn test_combined_output_borrows_stdout_when_stderr_empty() {
    let result = CommandResult {
        stdout: "out".to_string(),
        stderr: String::new(),
        exit_code: Some(0),
        success: true,
    };

    assert!(matches!(result.combined_output(), Cow::Borrowed("out")));
}

#[test]
fn test_combined_output_borrows_stderr_when_stdout_empty() {
    let result = CommandResult {
        stdout: String::new(),
        stderr: "err".to_string(),
        exit_code: Some(1),
        success: false,
    };

    assert!(matches!(result.combined_output(), Cow::Borrowed("err")));
}

#[test]
fn test_combined_output_allocates_when_both_present() {
    let result = CommandResult {
        stdout: "out".to_string(),
        stderr: "err".to_string(),
        exit_code: Some(1),
        success: false,
    };

    assert!(matches!(
        result.combined_output(),
        Cow::Owned(ref s) if s == "out\nerr"
    ));
}

#[test]
fn test_auto_mode_prefers_exec_for_simple_commands() {
    assert!(!should_use_shell(&[
        "echo".to_string(),
        "hello world".to_string()
    ]));
}

#[test]
fn test_auto_mode_uses_shell_for_operators() {
    assert!(should_use_shell(&[
        "echo".to_string(),
        "hello".to_string(),
        "|".to_string(),
        "grep".to_string(),
        "h".to_string()
    ]));
}

#[test]
fn test_auto_mode_uses_shell_for_single_string() {
    assert!(should_use_shell(&["echo $HOME && date".to_string()]));
}

#[test]
fn test_runner_construction() {
    let runner = Runner::new(CommandMode::Auto);
    assert!(matches!(runner.mode, CommandMode::Auto));
}

// ---------------------------------------------------------------------------

fn strings(v: &[&str]) -> Vec<String> {
    v.iter().map(|s| s.to_string()).collect()
}

#[test]
fn strip_removes_other_control_characters_but_keeps_tab_and_cr() {
    assert_eq!(strip_non_printable("a\tb\rc\x07d\x7fe\u{85}f", false), "a\tb\rcdef");
    assert_eq!(strip_non_printable("a\tb\rc\x07d", true), "a\tb\rcd");
}

#[test]
fn strip_unterminated_escape_runs_to_the_end() {
    assert_eq!(strip_non_printable("ok\x1b[12", false), "ok");
    assert_eq!(strip_non_printable("ok\x1b[12", true), "ok\x1b[12");
}

#[test]
fn strip_is_idempotent() {
    let input = "x\x1b[1;31mred\x1b[0m\x01y\x1b";
    for preserve in [false, true] {
        let once = strip_non_printable(input, preserve);
        let twice = strip_non_printable(&once, preserve);
        assert_eq!(once, twice);
    }
}

#[test]
fn strip_keeps_plain_text() {
    let input = "plain text\nwith ünïcode\tand tabs";
    assert_eq!(strip_non_printable(input, false), input);
    assert_eq!(strip_non_printable(input, true), input);
}

#[test]
fn combined_output_of_two_empty_streams_is_empty() {
    let result = CommandResult {
        stdout: String::new(),
        stderr: String::new(),
        exit_code: None,
        success: false,
    };
    assert!(matches!(result.combined_output(), Cow::Borrowed("")));
}

#[test]
fn shell_operators() {
    for op in ["|", "||", "&&", ";", "<", ">", ">>", "2>", "2>>", "2>&1", "(", ")"] {
        assert!(is_shell_operator(op), "{op}");
    }
    for not_op in ["", "&", "|||", "2", "2>&", "echo", "a|b"] {
        assert!(!is_shell_operator(not_op), "{not_op}");
    }
}

#[test]
fn env_assignments() {
    assert!(looks_like_env_assignment("FOO=bar"));
    assert!(looks_like_env_assignment("_a1=x=y"));
    assert!(!looks_like_env_assignment("=bar"));
    assert!(!looks_like_env_assignment("FOO="));
    assert!(!looks_like_env_assignment("FOO"));
    assert!(!looks_like_env_assignment("FO-O=bar"));
    assert!(!looks_like_env_assignment("--opt=value"));
}

#[test]
fn auto_mode_uses_shell_for_assignments_and_never_for_nothing() {
    assert!(should_use_shell(&strings(&["LANG=C", "ls"])));
    assert!(!should_use_shell(&[]));
}

#[test]
fn posix_quoting() {
    assert_eq!(quote_for_posix_sh(""), "''");
    assert_eq!(quote_for_posix_sh("hello world"), "'hello world'");
    assert_eq!(quote_for_posix_sh("it's"), "'it'\"'\"'s'");
}

#[test]
fn cmd_quoting() {
    assert_eq!(quote_for_cmd(""), "\"\"");
    assert_eq!(quote_for_cmd("a&b"), "a^&b");
    assert_eq!(quote_for_cmd("50%"), "50%%");
    assert_eq!(quote_for_cmd("hi!"), "hi^!");
    assert_eq!(quote_for_cmd("say \"x\""), "\"say \\\"x\\\"\"");
}

#[test]
fn shell_command_lines() {
    assert_eq!(
        build_shell_command(&strings(&["echo $HOME | wc"]), ShellSyntax::Posix),
        "echo $HOME | wc"
    );
    assert_eq!(
        build_shell_command(&strings(&["echo", "a b", "it's"]), ShellSyntax::Posix),
        "'echo' 'a b' 'it'\"'\"'s'"
    );
    assert_eq!(
        build_shell_command(&strings(&["echo", "a b", "x|y"]), ShellSyntax::Cmd),
        "echo \"a b\" x^|y"
    );
}

#[test]
fn invocation_exec_and_shell() {
    let cmd = strings(&["ls", "-l", "dir"]);
    let exec = Runner::new(CommandMode::Exec).invocation(&cmd, "/bin/sh", ShellSyntax::Posix).unwrap();
    assert_eq!(exec.program, "ls");
    assert_eq!(exec.args, strings(&["-l", "dir"]));

    let shell = Runner::new(CommandMode::Shell).invocation(&cmd, "/bin/sh", ShellSyntax::Posix).unwrap();
    assert_eq!(shell.program, "/bin/sh");
    assert_eq!(shell.args, strings(&["-c", "'ls' '-l' 'dir'"]));

    let auto = Runner::new(CommandMode::Auto).invocation(&cmd, "/bin/sh", ShellSyntax::Posix).unwrap();
    assert_eq!(auto.program, "ls");

    let auto_single = Runner::new(CommandMode::Auto)
        .invocation(&strings(&["date; uptime"]), "cmd.exe", ShellSyntax::Cmd)
        .unwrap();
    assert_eq!(auto_single.program, "cmd.exe");
    assert_eq!(auto_single.args, strings(&["/C", "date; uptime"]));
}

#[test]
fn invocation_of_empty_command_is_refused() {
    for mode in [CommandMode::Auto, CommandMode::Shell, CommandMode::Exec] {
        let r = Runner::new(mode).invocation(&[], "/bin/sh", ShellSyntax::Posix);
        assert!(matches!(r, Err(RunError::NoCommand)));
    }
}

#[test]
fn success_is_a_zero_exit_code() {
    assert!(CommandResult::from_capture("a".to_string(), String::new(), Some(0)).success);
    let failed = CommandResult::from_capture(String::new(), "e".to_string(), Some(2));
    assert!(!failed.success);
    assert_eq!(failed.stderr, "e");
    assert_eq!(failed.exit_code, Some(2));
    assert!(!CommandResult::from_capture(String::new(), String::new(), None).success);
}
