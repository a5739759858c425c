use hoist::cli::inspect_profile;
use hoist::config::{Config, Global, ProcessConfig, Profile, ProfileMap};
use hoist::runtime::{
    command_launch, exit_code, group_wait_step, prepare_run, run_step, ChildStatus, RunAction, RunError,
    RunEvent, RunStage, GROUP_WAIT_MS,
};

fn no_tuning_config() -> Config {
    let mut profiles = ProfileMap::new();
    profiles.insert(
        "default".to_string(),
        Profile {
            cpu: None,
            gpu: None,
            process: None,
            hooks: None,
        },
    );
    Config {
        global: Global {
            poll_interval_ms: Some(20),
            require_all: false,
            log_level: None,
            default_profile: "default".to_string(),
            helper_timeout_secs: None,
        },
        profile: profiles,
    }
}

fn strings(v: &[&str]) -> Vec<String> {
    v.iter().map(|x| x.to_string()).collect()
}

/// The decisions a run makes before the child exists: the checks, then what is launched.
fn launch_ok(argv: &[String]) {
    let cfg = no_tuning_config();
    let (profile, state) = prepare_run(&cfg, "default", argv).unwrap();
    assert!(profile.cpu.is_none() && profile.gpu.is_none());
    assert_eq!(state.selected_profile, "default");
    let launch = command_launch(argv, &[]).unwrap();
    assert_eq!(launch.program, argv[0]);
    assert_eq!(launch.args, argv[1..].to_vec());
}

#[test]
fn exit_zero_is_forwarded() {
    launch_ok(&strings(&["/bin/true"]));
    assert_eq!(exit_code(ChildStatus::Exited(0)), Some(0));
}

#[test]
fn exit_nonzero_is_forwarded() {
    launch_ok(&strings(&["/bin/sh", "-c", "exit 42"]));
    assert_eq!(exit_code(ChildStatus::Exited(42)), Some(42));
}

#[test]
fn signal_exit_code_is_forwarded() {
    // SIGTERM = 15, exit code should be 128 + 15 = 143
    launch_ok(&strings(&["/bin/sh", "-c", "kill -TERM $$"]));
    assert_eq!(exit_code(ChildStatus::Signaled(15)), Some(128 + 15));
}

#[test]
fn missing_command_argv_fails() {
    let cfg = no_tuning_config();
    let err = prepare_run(&cfg, "default", &[]).unwrap_err();
    assert!(err.message().contains("missing command"));
}

#[test]
fn unknown_profile_fails() {
    let cfg = no_tuning_config();
    let err = prepare_run(&cfg, "nonexistent", &strings(&["/bin/true"])).unwrap_err();
    assert!(err.message().contains("unknown profile"));
}

#[test]
fn group_wait_is_bounded() {
    let cfg = no_tuning_config();
    // A living group is polled at the configured interval.
    assert_eq!(group_wait_step(&cfg, true, 0), Some(20));
    // Never past the bound.
    assert_eq!(group_wait_step(&cfg, true, GROUP_WAIT_MS - 5), Some(5));
    assert_eq!(group_wait_step(&cfg, true, GROUP_WAIT_MS), None);
    // A group that is gone needs no wait.
    assert_eq!(group_wait_step(&cfg, false, 0), None);
}

fn stop_parts(a: RunAction) -> (bool, bool, String) {
    match a {
        RunAction::Stop { restore, remove_state_file, error } => (restore, remove_state_file, error),
        other => panic!("unexpected {other:?}"),
    }
}

#[test]
fn run_stages_follow_in_order() {
    let cfg = no_tuning_config();
    let plain = Profile { cpu: None, gpu: None, process: None, hooks: None };
    let niced = Profile {
        process: Some(ProcessConfig { nice: 5, renice_descendants: true, renice_interval_ms: 100 }),
        ..plain.clone()
    };
    let next = |p: &Profile, s: RunStage| match run_step(&cfg, p, s, RunEvent::StageDone) {
        RunAction::Proceed(n) => Some(n),
        RunAction::Finish => None,
        other => panic!("unexpected {other:?}"),
    };
    assert_eq!(next(&plain, RunStage::Starting), Some(RunStage::Launching));
    assert_eq!(next(&plain, RunStage::Launching), Some(RunStage::Spawning));
    assert_eq!(next(&plain, RunStage::Spawning), Some(RunStage::Watching));
    assert_eq!(next(&niced, RunStage::Spawning), Some(RunStage::Renicing));
    assert_eq!(next(&niced, RunStage::Renicing), Some(RunStage::Watching));
    assert_eq!(next(&plain, RunStage::Watching), None);
}

#[test]
fn run_failures_are_answered() {
    let mut cfg = no_tuning_config();
    let p = Profile { cpu: None, gpu: None, process: None, hooks: None };
    let e = || "boom".to_string();
    assert_eq!(
        stop_parts(run_step(&cfg, &p, RunStage::Starting, RunEvent::StartFailed { error: e() })),
        (true, true, "startup apply failed: boom".to_string())
    );
    assert_eq!(
        stop_parts(run_step(&cfg, &p, RunStage::Launching, RunEvent::LaunchRefused { reason: RunError::MissingCommand })),
        (true, true, "missing command".to_string())
    );
    assert_eq!(
        stop_parts(run_step(
            &cfg,
            &p,
            RunStage::Spawning,
            RunEvent::SpawnFailed { program: "/nonexistent/binary-xyzzy".to_string(), error: e() }
        )),
        (true, false, "failed to spawn /nonexistent/binary-xyzzy: boom".to_string())
    );
    match run_step(&cfg, &p, RunStage::Renicing, RunEvent::ChildReniceFailed { nice: -5, error: e() }) {
        RunAction::Warn { warning, next } => {
            assert_eq!(warning, "warning: failed to set nice=-5: boom");
            assert_eq!(next, RunStage::Watching);
        }
        other => panic!("unexpected {other:?}"),
    }
    assert!(matches!(
        run_step(&cfg, &p, RunStage::Watching, RunEvent::DescendantReniceFailed { error: e() }),
        RunAction::Proceed(RunStage::Watching)
    ));
    cfg.global.require_all = true;
    assert_eq!(
        stop_parts(run_step(&cfg, &p, RunStage::Renicing, RunEvent::ChildReniceFailed { nice: -5, error: e() })),
        (true, false, "failed to set process priority: boom".to_string())
    );
    assert_eq!(
        stop_parts(run_step(&cfg, &p, RunStage::Watching, RunEvent::DescendantReniceFailed { error: e() })),
        (true, false, "failed to renice descendant: boom".to_string())
    );
}

#[test]
fn inspect_needs_a_known_profile() {
    let cfg = no_tuning_config();
    assert!(inspect_profile(&cfg, "default").is_ok());
    assert_eq!(inspect_profile(&cfg, "nonexistent").unwrap_err().message(), "unknown profile 'nonexistent'");
}

#[test]
fn nonexistent_binary_fails() {
    let cfg = no_tuning_config();
    let argv = strings(&["/nonexistent/binary-xyzzy"]);
    let (profile, _state) = prepare_run(&cfg, "default", &argv).unwrap();
    let launch = command_launch(&argv, &[]).unwrap();
    let event = RunEvent::SpawnFailed {
        program: launch.program.clone(),
        error: "No such file or directory (os error 2)".to_string(),
    };
    let (restore, _, err) = stop_parts(run_step(&cfg, profile, RunStage::Spawning, event));
    assert!(restore);
    assert!(err.contains("failed to spawn"));
}
