use watch_rs::config::{
    clamp_interval_nanos, Args, CommandMode, Config, DiffMode, DEFAULT_INTERVAL_NANOS,
    MAX_INTERVAL_NANOS, MIN_INTERVAL_NANOS,
};

fn args(command: &[&str]) -> Args {
    Args {
        interval_nanos: 2_000_000_000,
        differences: None,
        color: false,
        no_color: false,
        no_title: false,
        beep: false,
        errexit: false,
        chgexit: false,
        equexit: None,
        precise: false,
        use_exec: false,
        shell: false,
        no_wrap: false,
        no_rerun: false,
        follow: false,
        shotsdir: None,
        command: command.iter().map(|s| s.to_string()).collect(),
    }
}

#[test]
fn test_interval_clamping() {
    // Test minimum clamping: 0.01 s
    let mut a = args(&["test"]);
    a.interval_nanos = 10_000_000;
    let a = a.clamp_interval();
    assert_eq!(a.interval_nanos, 100_000_000);
}

// ---------------------------------------------------------------------------

#[test]
fn interval_clamping_bounds() {
    assert_eq!(clamp_interval_nanos(0), MIN_INTERVAL_NANOS);
    assert_eq!(clamp_interval_nanos(u64::MAX), MAX_INTERVAL_NANOS);
    assert_eq!(clamp_interval_nanos(1_500_000_000), 1_500_000_000);
    assert_eq!(clamp_interval_nanos(clamp_interval_nanos(7)), clamp_interval_nanos(7));
}

#[test]
fn difference_modes() {
    let mut a = args(&["ls"]);
    assert!(!a.has_differences());
    assert!(!a.is_permanent_diff());
    assert_eq!(Config::from_args(&a).diff_mode, DiffMode::Disabled);
    a.differences = Some("normal".to_string());
    assert!(a.has_differences());
    assert!(!a.is_permanent_diff());
    assert_eq!(Config::from_args(&a).diff_mode, DiffMode::Normal);
    a.differences = Some("permanent".to_string());
    assert!(a.is_permanent_diff());
    assert_eq!(Config::from_args(&a).diff_mode, DiffMode::Permanent);
    a.differences = Some("1".to_string());
    assert!(a.is_permanent_diff());
    assert_eq!(Config::from_args(&a).diff_mode, DiffMode::Permanent);
}

#[test]
fn no_color_wins_and_exec_wins_over_shell() {
    let mut a = args(&["ls"]);
    assert!(!Config::from_args(&a).color);
    a.color = true;
    assert!(Config::from_args(&a).color);
    a.no_color = true;
    // --no-color wins over --color
    assert!(!Config::from_args(&a).color);
    a.color = false;
    assert!(!Config::from_args(&a).color);
    assert_eq!(Config::from_args(&a).command_mode, CommandMode::Auto);
    a.shell = true;
    assert_eq!(Config::from_args(&a).command_mode, CommandMode::Shell);
    a.use_exec = true;
    assert_eq!(Config::from_args(&a).command_mode, CommandMode::Exec);
}

#[test]
fn negated_flags_and_copies() {
    let mut a = args(&["ls", "-l"]);
    a.no_title = true;
    a.no_wrap = true;
    a.no_rerun = true;
    a.equexit = Some(3);
    a.shotsdir = Some("shots".to_string());
    let c = Config::from_args(&a);
    assert!(!c.show_title && !c.wrap && !c.rerun_on_resize);
    assert_eq!(c.equexit, Some(3));
    assert_eq!(c.shotsdir.as_deref(), Some("shots"));
    assert_eq!(c.command, vec!["ls".to_string(), "-l".to_string()]);
    assert_eq!(c.command_string(), "ls -l");
    assert_eq!(a.command_string(), "ls -l");
}

#[test]
fn default_config() {
    let c = Config::default();
    assert_eq!(c.interval_nanos, DEFAULT_INTERVAL_NANOS);
    assert_eq!(c.diff_mode, DiffMode::Disabled);
    assert!(c.show_title && c.wrap && c.rerun_on_resize);
    assert!(!c.color && !c.beep && !c.errexit && !c.chgexit && !c.precise && !c.follow);
    assert_eq!(c.command_mode, CommandMode::Auto);
    assert!(c.command.is_empty() && c.shotsdir.is_none() && c.equexit.is_none());
    assert_eq!(c.command_string(), "");
}
