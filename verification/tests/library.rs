use hoist::cli::selected_profile;
use hoist::config::{
    resolve_config_path, resolve_from_paths, user_config_path, validate_config, validate_hooks,
    validate_profile_name,
    AmdGpuLevel, Config, ConfigError, CpuConfig, Global, GpuConfig, GpuKind, HookPhase, Hooks,
    ProcessConfig, Profile, ProfileMap,
};
use hoist::helper::{run_gpuctl, AmdGpuLevelArg, GpuCtlCommand, HelperError};
use hoist::procutil::{discover_descendants, IdSet};
use hoist::runtime::{
    apply_start_outcome, command_launch, exit_code, helper_path, is_env_assignment,
    is_valid_env_key, parse_env_assignments, plan_start, poll_interval_ms, prepare_run,
    renice_due, restore_all, ChildStatus, Effect, Flow, Outcome, RunError, StartStep,
};
use hoist::state::{is_orphaned, is_toml_file_name, proc_path, RuntimeState};
use hoist::system::{
    failure_message, gpu_level_contents, read_gpu_level, run_pkexec_gpuctl, tuned_set_profile,
    write_gpu_level, CommandFailure, CommandKind, GpuLevelError,
};

const LEVELS: [AmdGpuLevel; 8] = [
    AmdGpuLevel::Auto,
    AmdGpuLevel::Low,
    AmdGpuLevel::High,
    AmdGpuLevel::Manual,
    AmdGpuLevel::ProfileStandard,
    AmdGpuLevel::ProfileMinSclk,
    AmdGpuLevel::ProfileMinMclk,
    AmdGpuLevel::ProfilePeak,
];

fn empty_profile() -> Profile {
    Profile { cpu: None, gpu: None, process: None, hooks: None }
}

fn config(default: &str, poll: Option<u64>, profiles: Vec<(&str, Profile)>) -> Config {
    let mut map = ProfileMap::new();
    for (name, p) in profiles {
        map.insert(name.to_string(), p);
    }
    Config {
        global: Global {
            poll_interval_ms: poll,
            require_all: false,
            log_level: None,
            default_profile: default.to_string(),
            helper_timeout_secs: None,
        },
        profile: map,
    }
}

fn s(v: &[&str]) -> Vec<String> {
    v.iter().map(|x| x.to_string()).collect()
}

#[test]
fn level_names_round_trip_through_sysfs() {
    for level in LEVELS {
        assert_eq!(AmdGpuLevel::parse_sysfs(level.as_str()), Some(level));
        let written = gpu_level_contents(level);
        assert_eq!(AmdGpuLevel::parse_sysfs(&written), Some(level));
    }
    assert_eq!(AmdGpuLevel::ProfileMinSclk.as_str(), "profile_min_sclk");
    assert_eq!(AmdGpuLevel::parse_sysfs("  manual \n"), Some(AmdGpuLevel::Manual));
    assert_eq!(AmdGpuLevel::parse_sysfs("turbo"), None);
    assert_eq!(AmdGpuLevel::parse_sysfs("Auto"), None);
}

#[test]
fn user_file_replaces_system_file_only_when_present() {
    let user = user_config_path("/home/ada");
    assert_eq!(user, "/home/ada/.config/hoist/default.toml");
    assert_eq!(user_config_path("/root/"), "/root/.config/hoist/default.toml");
    assert_eq!(user_config_path(""), ".config/hoist/default.toml");

    let p = resolve_config_path(None, user.clone(), true, true);
    assert_eq!(p.selected, user);
    assert_eq!(p.system, "/etc/hoist/default.toml");
    let p = resolve_config_path(None, user.clone(), true, false);
    assert_eq!(p.selected, "/etc/hoist/default.toml");
    let p = resolve_config_path(Some("/tmp/x.toml".to_string()), user.clone(), true, true);
    assert_eq!(p.selected, "/tmp/x.toml");
    assert!(p.user_exists && p.system_exists);
    let p = resolve_from_paths("/a".into(), "/b".into(), None, false, false);
    assert_eq!(p.selected, "/a");
}

#[test]
fn profile_names() {
    assert!(validate_profile_name("gaming_1-x").is_ok());
    assert!(validate_profile_name("").is_err());
    match validate_profile_name("bad name") {
        Err(ConfigError::InvalidProfileName { name }) => assert_eq!(name, "bad name"),
        other => panic!("unexpected {:?}", other),
    }
    assert!(validate_profile_name("é").is_err());
}

#[test]
fn profile_map_keeps_one_entry_per_name_in_order() {
    let mut map = ProfileMap::new();
    assert!(map.insert("b".into(), empty_profile()).is_none());
    assert!(map.insert("a".into(), empty_profile()).is_none());
    let mut p = empty_profile();
    p.process = Some(ProcessConfig { nice: 3, renice_descendants: false, renice_interval_ms: 1 });
    assert!(map.insert("b".into(), p).is_some());
    assert_eq!(map.len(), 2);
    assert_eq!(map.entry(0).0, "a");
    assert_eq!(map.entry(1).0, "b");
    assert_eq!(map.get("b").unwrap().process.as_ref().unwrap().nice, 3);
    assert!(map.get("c").is_none());
    assert!(map.contains_key("a"));
}

#[test]
fn validation_reports_each_problem() {
    let cfg = config("missing", None, vec![("default", empty_profile())]);
    let e = validate_config(&cfg).unwrap_err();
    assert_eq!(e.message(), "global.default_profile 'missing' is missing from [profile]");

    let cfg = config("default", Some(0), vec![("default", empty_profile())]);
    assert_eq!(
        validate_config(&cfg).unwrap_err().message(),
        "global.poll_interval_ms must be greater than 0"
    );

    let cfg = config("default", None, vec![("default", empty_profile()), ("bad name", empty_profile())]);
    assert_eq!(validate_config(&cfg).unwrap_err().message(), "invalid profile name 'bad name'");

    let mut p = empty_profile();
    p.process = Some(ProcessConfig { nice: 20, renice_descendants: false, renice_interval_ms: 0 });
    let cfg = config("default", None, vec![("default", p)]);
    assert_eq!(
        validate_config(&cfg).unwrap_err().message(),
        "profile.default.process.nice must be between -20 and 19"
    );

    let mut p = empty_profile();
    p.process = Some(ProcessConfig { nice: -20, renice_descendants: false, renice_interval_ms: 0 });
    assert!(validate_config(&config("default", None, vec![("default", p)])).is_ok());

    let mut p = empty_profile();
    p.hooks = Some(Hooks { start: vec![s(&["/bin/true"]), vec![]], stop: vec![], start_sh: vec![], stop_sh: vec![] });
    let e = validate_config(&config("default", None, vec![("default", p)])).unwrap_err();
    assert_eq!(e.message(), "profile.default.hooks.start[1] must not be empty");
    match e {
        ConfigError::EmptyHook { phase, index, .. } => {
            assert_eq!(phase, HookPhase::Start);
            assert_eq!(index, 1);
        },
        _ => panic!("wrong error"),
    }

    let mut p = empty_profile();
    p.hooks = Some(Hooks { start: vec![], stop: vec![s(&["true", "x"])], start_sh: vec![], stop_sh: vec![] });
    let e = validate_config(&config("default", None, vec![("default", p)])).unwrap_err();
    assert_eq!(e.message(), "profile.default.hooks.stop[0][0] must be an absolute path");

    let mut p = empty_profile();
    p.hooks = Some(Hooks { start: vec![], stop: vec![], start_sh: vec![], stop_sh: vec!["ok".into(), "\t".into()] });
    let e = validate_config(&config("default", None, vec![("default", p)])).unwrap_err();
    assert_eq!(e.message(), "profile.default.hooks.stop_sh[1] must not be empty");
}

#[test]
fn validation_reports_the_first_profile_in_name_order() {
    let mut bad = empty_profile();
    bad.process = Some(ProcessConfig { nice: 0, renice_descendants: true, renice_interval_ms: 0 });
    let mut worse = empty_profile();
    worse.process = Some(ProcessConfig { nice: -30, renice_descendants: false, renice_interval_ms: 0 });
    let cfg = config("default", None, vec![("zeta", bad), ("default", empty_profile()), ("alpha", worse)]);
    assert_eq!(
        validate_config(&cfg).unwrap_err().message(),
        "profile.alpha.process.nice must be between -20 and 19"
    );
}

#[test]
fn env_words() {
    assert!(is_valid_env_key("_A1"));
    assert!(is_valid_env_key("path"));
    assert!(!is_valid_env_key("1A"));
    assert!(!is_valid_env_key(""));
    assert!(!is_valid_env_key("A-B"));
    assert!(is_env_assignment("A=b=c"));
    assert!(is_env_assignment("A="));
    assert!(!is_env_assignment("=x"));
    assert!(!is_env_assignment("/bin/echo"));

    let pairs = parse_env_assignments(&s(&["A=1", "B=x=y"])).unwrap();
    assert_eq!(pairs, vec![("A".to_string(), "1".to_string()), ("B".to_string(), "x=y".to_string())]);
    let e = parse_env_assignments(&s(&["A=1", "NOEQ", "1X=2"])).unwrap_err();
    assert_eq!(e.message(), "invalid --env 'NOEQ', expected KEY=VALUE");
    let e = parse_env_assignments(&s(&["A=1", "1X=2"])).unwrap_err();
    assert_eq!(e.message(), "invalid environment variable name '1X'");
}

#[test]
fn launch_splits_inline_assignments() {
    let l = command_launch(&s(&["A=1", "B=2", "/bin/echo", "C=3"]), &s(&["X=9"])).unwrap();
    assert_eq!(l.program, "/bin/echo");
    assert_eq!(l.args, s(&["C=3"]));
    assert_eq!(
        l.env,
        vec![
            ("X".to_string(), "9".to_string()),
            ("A".to_string(), "1".to_string()),
            ("B".to_string(), "2".to_string())
        ]
    );
    assert!(matches!(command_launch(&s(&["A=1"]), &[]), Err(RunError::MissingCommand)));
    assert!(matches!(command_launch(&s(&["/bin/true"]), &s(&["bad"])), Err(RunError::MalformedEnv { .. })));
}

#[test]
fn prepare_checks_name_command_and_profile() {
    let cfg = config("default", None, vec![("default", empty_profile())]);
    let argv = s(&["/bin/true"]);
    let (_, st) = prepare_run(&cfg, "default", &argv).unwrap();
    assert_eq!(st.selected_profile, "default");
    assert!(!st.cpu_applied && st.child_pid.is_none());
    assert_eq!(prepare_run(&cfg, "default", &[]).unwrap_err().message(), "missing command");
    assert_eq!(
        prepare_run(&cfg, "nonexistent", &argv).unwrap_err().message(),
        "unknown profile 'nonexistent'"
    );
    assert_eq!(prepare_run(&cfg, "a b", &argv).unwrap_err().message(), "invalid profile name 'a b'");
}

#[test]
fn exit_codes_are_forwarded() {
    assert_eq!(exit_code(ChildStatus::Exited(0)), Some(0));
    assert_eq!(exit_code(ChildStatus::Exited(42)), Some(42));
    assert_eq!(exit_code(ChildStatus::Signaled(15)), Some(143));
    assert_eq!(exit_code(ChildStatus::Running), None);
    assert_eq!(exit_code(ChildStatus::Other), None);
    let cfg = config("default", None, vec![("default", empty_profile())]);
    assert_eq!(poll_interval_ms(&cfg), 700);
    let cfg = config("default", Some(20), vec![("default", empty_profile())]);
    assert_eq!(poll_interval_ms(&cfg), 20);
    let pc = Some(ProcessConfig { nice: 0, renice_descendants: true, renice_interval_ms: 100 });
    assert!(renice_due(&pc, 100));
    assert!(!renice_due(&pc, 99));
    assert!(!renice_due(&None, 1000));
}

fn tuned_profile() -> Profile {
    let mut p = empty_profile();
    p.cpu = Some(CpuConfig {
        enabled: None,
        enter_profile: "throughput-performance".into(),
        restore_previous: true,
        restore_to_profile: None,
        fallback_exit_profile: Some("balanced".into()),
    });
    p.gpu = Some(GpuConfig {
        enabled: Some(true),
        kind: GpuKind::Amdgpu,
        card: 1,
        enter_level: AmdGpuLevel::High,
        restore_previous: true,
        restore_to_level: None,
        fallback_exit_level: Some(AmdGpuLevel::Auto),
    });
    p.hooks = Some(Hooks {
        start: vec![s(&["/bin/start"])],
        stop: vec![s(&["/bin/stop", "now"])],
        start_sh: vec!["echo a".into()],
        stop_sh: vec!["echo b".into()],
    });
    p.process = Some(ProcessConfig { nice: -12, renice_descendants: false, renice_interval_ms: 1 });
    p
}

#[test]
fn start_plan_lists_every_step_in_order() {
    let steps = plan_start(true, &tuned_profile());
    assert_eq!(steps.len(), 10);
    assert!(matches!(steps[0], StartStep::QueryTunedActive));
    match &steps[1] {
        StartStep::Notice { text } => assert_eq!(text, "applying tuned profile throughput-performance"),
        _ => panic!(),
    }
    match &steps[2] {
        StartStep::Run { effect: Effect::SetTunedProfile { profile }, abort_on_failure, .. } => {
            assert_eq!(profile, "throughput-performance");
            assert!(*abort_on_failure);
        },
        _ => panic!(),
    }
    match &steps[3] {
        StartStep::Notice { text } => assert_eq!(text, "warning: gpu tweaks enabled; use at your own risk"),
        _ => panic!(),
    }
    assert!(matches!(steps[4], StartStep::ReadGpuLevel { card: 1 }));
    match &steps[5] {
        StartStep::Notice { text } => assert_eq!(text, "setting amdgpu card1 level high"),
        _ => panic!(),
    }
    match &steps[6] {
        StartStep::Run { effect: Effect::RunGpuctl { args }, .. } => {
            assert_eq!(args, &s(&["apply", "--card", "1", "--level", "high"]))
        },
        _ => panic!(),
    }
    assert!(matches!(&steps[7], StartStep::Run { effect: Effect::RunArgv { .. }, abort_on_failure: true, .. }));
    assert!(matches!(&steps[8], StartStep::Run { effect: Effect::RunShell { .. }, abort_on_failure: true, .. }));
    match &steps[9] {
        StartStep::Notice { text } => assert_eq!(
            text,
            "warning: configured nice=-12 is below packaged policy (@hoist - nice -15)"
        ),
        _ => panic!(),
    }
    let lenient = plan_start(false, &tuned_profile());
    assert!(matches!(&lenient[2], StartStep::Run { abort_on_failure: false, .. }));
    assert!(plan_start(false, &empty_profile()).is_empty());
}

#[test]
fn start_outcomes_update_the_state() {
    let steps = plan_start(false, &tuned_profile());
    let mut st = RuntimeState::default();
    assert!(matches!(apply_start_outcome(&mut st, &steps[0], Outcome::TunedActive(Some("balanced".into()))), Flow::Continue));
    assert_eq!(st.previous_tuned_profile.as_deref(), Some("balanced"));
    match apply_start_outcome(&mut st, &steps[2], Outcome::Ran(Err("boom".into()))) {
        Flow::Warn(e) => assert_eq!(e, "boom"),
        _ => panic!(),
    }
    assert!(!st.cpu_applied);
    assert!(matches!(apply_start_outcome(&mut st, &steps[2], Outcome::Ran(Ok(()))), Flow::Continue));
    assert!(st.cpu_applied);
    apply_start_outcome(&mut st, &steps[4], Outcome::GpuLevel(Some(AmdGpuLevel::Low)));
    assert_eq!(st.previous_amdgpu_level.as_deref(), Some("low"));
    apply_start_outcome(&mut st, &steps[6], Outcome::Ran(Ok(())));
    assert!(st.gpu_applied);
    match apply_start_outcome(&mut st, &steps[7], Outcome::Ran(Err("hook".into()))) {
        Flow::Abort(e) => assert_eq!(e, "hook"),
        _ => panic!(),
    }
    assert!(!st.start_hooks_ran);
    apply_start_outcome(&mut st, &steps[8], Outcome::Ran(Ok(())));
    assert!(st.start_hooks_ran);
}

#[test]
fn restore_undoes_only_what_was_applied() {
    let p = tuned_profile();
    let st = RuntimeState::default();
    assert!(restore_all(&p, &st).is_empty());

    let mut st = RuntimeState::default();
    st.cpu_applied = true;
    st.gpu_applied = true;
    st.start_hooks_ran = true;
    st.previous_amdgpu_level = Some("low".into());
    let steps = restore_all(&p, &st);
    assert_eq!(steps.len(), 4);
    match &steps[0].effect {
        Effect::SetTunedProfile { profile } => assert_eq!(profile, "balanced"),
        _ => panic!(),
    }
    assert_eq!(steps[0].notice.as_deref(), Some("restoring tuned profile balanced"));
    assert_eq!(steps[0].failure, "cpu restore failed");
    match &steps[1].effect {
        Effect::RunGpuctl { args } => assert_eq!(args, &s(&["revert", "--card", "1", "--level", "low"])),
        _ => panic!(),
    }
    match &steps[2].effect {
        Effect::RunArgv { argv } => assert_eq!(argv, &s(&["/bin/stop", "now"])),
        _ => panic!(),
    }
    match &steps[3].effect {
        Effect::RunShell { snippet } => assert_eq!(snippet, "echo b"),
        _ => panic!(),
    }
    assert_eq!(steps[3].failure, "stop hook failed");
}

#[test]
fn descendants_follow_parent_links() {
    let links = vec![(10, 1), (11, 10), (12, 11), (20, 2), (13, 10), (5, 13)];
    assert_eq!(discover_descendants(10, &links).to_vec(), vec![5, 11, 12, 13]);
    assert_eq!(discover_descendants(1, &links).to_vec(), vec![5, 10, 11, 12, 13]);
    assert!(discover_descendants(12, &links).to_vec().is_empty());
    assert!(discover_descendants(0, &links).to_vec().is_empty());
    assert!(discover_descendants(-1, &links).to_vec().is_empty());

    let mut set = IdSet::new();
    assert!(set.insert(7));
    assert!(set.insert(3));
    assert!(!set.insert(7));
    assert!(set.contains(3));
    assert_eq!(set.to_vec(), vec![3, 7]);
    assert_eq!(set.len(), 2);
}

#[test]
fn commands_and_failures() {
    let c = run_pkexec_gpuctl(&s(&["apply", "--card", "0", "--level", "auto"]));
    assert_eq!(c.program, "pkexec");
    assert_eq!(c.args, s(&["/usr/libexec/hoist-gpuctl", "apply", "--card", "0", "--level", "auto"]));
    assert_eq!(c.timeout_secs, 8);
    assert_eq!(failure_message(&c.kind, &CommandFailure::Timeout(8)), "helper timed out after 8s");
    assert_eq!(
        failure_message(&c.kind, &CommandFailure::Launch("no such file".into())),
        "pkexec launch failed: no such file"
    );
    let t = tuned_set_profile("balanced");
    assert_eq!(t.program, "tuned-adm");
    assert_eq!(t.args, s(&["profile", "balanced"]));
    assert_eq!(
        failure_message(&t.kind, &CommandFailure::Exit("exit status: 1".into())),
        "tuned-adm profile balanced failed: exit status: 1"
    );
    assert_eq!(
        failure_message(&CommandKind::Helper, &CommandFailure::Exit("exit status: 3".into())),
        "helper exited with status exit status: 3"
    );
    assert_eq!(helper_path(), "/usr/libexec/hoist-gpuctl");
}

#[test]
fn gpu_helper_writes_and_checks_levels() {
    let cmd = GpuCtlCommand::Apply { card: 2, level: AmdGpuLevelArg::ProfilePeak };
    match run_gpuctl(&cmd, false) {
        Err(e @ HelperError::NotRoot { .. }) => assert_eq!(e.message(), "hoist-gpuctl must run as root"),
        Ok(_) => panic!(),
    }
    let w = run_gpuctl(&cmd, true).unwrap();
    assert_eq!(w.card, 2);
    assert_eq!(w.level, AmdGpuLevel::ProfilePeak);
    assert_eq!(w.path, "/sys/class/drm/card2/device/power_dpm_force_performance_level");
    assert_eq!(w.contents, "profile_peak\n");
    let back = GpuCtlCommand::Revert { card: 0, level: AmdGpuLevelArg::Auto };
    assert_eq!(run_gpuctl(&back, true).unwrap().level, AmdGpuLevel::Auto);
    assert_eq!(AmdGpuLevel::from(AmdGpuLevelArg::ProfileMinMclk), AmdGpuLevel::ProfileMinMclk);

    assert!(write_gpu_level(2, AmdGpuLevel::ProfilePeak, &w.contents).is_ok());
    let e = write_gpu_level(2, AmdGpuLevel::High, "low\n").unwrap_err();
    assert_eq!(e.message(), "failed to verify amdgpu level on card2: expected high, got low");
    match read_gpu_level(" bogus \n") {
        Err(e @ GpuLevelError::Unsupported { .. }) => assert_eq!(e.message(), "unsupported amdgpu level 'bogus'"),
        _ => panic!(),
    }
    assert_eq!(read_gpu_level("auto\n").unwrap(), AmdGpuLevel::Auto);
}

#[test]
fn tuned_output_variants() {
    assert_eq!(hoist::system::parse_tuned_active(""), None);
    assert_eq!(hoist::system::parse_tuned_active("Current active profile:   \nCurrent active profile: x\n").as_deref(), Some("x"));
    assert_eq!(hoist::system::parse_tuned_active("  Current active profile: a b  \r\n").as_deref(), Some("a b"));
    assert_eq!(hoist::system::parse_tuned_active("No current active profile.").as_deref(), None);
}

#[test]
fn state_files() {
    assert!(is_toml_file_name("state-1-2-3.toml"));
    assert!(!is_toml_file_name(".toml"));
    assert!(!is_toml_file_name("a.toml.bak"));
    assert!(!is_toml_file_name("toml"));
    assert_eq!(proc_path(42), "/proc/42");
    let mut st = RuntimeState::default();
    assert!(!is_orphaned(&st, true));
    assert!(!is_orphaned(&st, false));
    st.child_pid = Some(5);
    assert!(!is_orphaned(&st, true));
    assert!(is_orphaned(&st, false));
}

#[test]
fn profile_selection() {
    let cfg = config("default", None, vec![("default", empty_profile())]);
    assert_eq!(selected_profile(&None, &cfg), "default");
    assert_eq!(selected_profile(&Some("game".into()), &cfg), "game");
}

#[test]
fn hooks_law_examples() {
    let hooks = |start: Vec<Vec<String>>, start_sh: Vec<String>| Hooks { start, stop: vec![], start_sh, stop_sh: vec![] };
    let name = "p".to_string();
    assert_eq!(
        validate_hooks(&name, &hooks(vec![s(&["echo"])], vec![])).unwrap_err().message(),
        "profile.p.hooks.start[0][0] must be an absolute path"
    );
    assert!(validate_hooks(&name, &hooks(vec![s(&["/bin/echo", "hi"])], vec!["echo hi".into()])).is_ok());
    assert!(validate_hooks(&name, &hooks(vec![], vec![" \t ".into()])).is_err());
}

#[test]
fn tuned_law_examples() {
    assert_eq!(
        hoist::system::parse_tuned_active("Current active profile:  \nCurrent active profile: x").as_deref(),
        Some("x")
    );
    assert_eq!(
        hoist::system::parse_tuned_active("  Current active profile: powersave  ").as_deref(),
        Some("powersave")
    );
    assert_eq!(hoist::system::parse_tuned_active("a\r\nCurrent active profile: b\r\n").as_deref(), Some("b"));
}
