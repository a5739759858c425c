use hoist::config::{
    validate_config, AmdGpuLevel, Config, CpuConfig, Global, GpuConfig, GpuKind, Hooks, ProcessConfig,
    Profile, ProfileMap,
};
use hoist::procutil::discover_descendants;
use hoist::runtime::{
    choose_cpu_restore_target, choose_gpu_restore_target, parse_leading_env_assignments,
};
use hoist::state::RuntimeState;
use hoist::system::{gpu_level_path, parse_tuned_active};

fn global(poll: Option<u64>) -> Global {
    Global {
        poll_interval_ms: poll,
        require_all: false,
        log_level: None,
        default_profile: "default".to_string(),
        helper_timeout_secs: None,
    }
}

fn empty_profile() -> Profile {
    Profile { cpu: None, gpu: None, process: None, hooks: None }
}

fn config_with(poll: Option<u64>, profile: Profile) -> Config {
    let mut profiles = ProfileMap::new();
    profiles.insert("default".to_string(), profile);
    Config { global: global(poll), profile: profiles }
}

#[test]
fn parse_config_ok() {
    let mut p = empty_profile();
    p.process = Some(ProcessConfig { nice: -10, renice_descendants: true, renice_interval_ms: 700 });
    let cfg = config_with(Some(700), p);
    validate_config(&cfg).expect("validate");
}

#[test]
fn rejects_zero_poll_interval() {
    let mut p = empty_profile();
    p.process = Some(ProcessConfig { nice: 0, renice_descendants: false, renice_interval_ms: 700 });
    let cfg = config_with(Some(0), p);
    let err = validate_config(&cfg).expect_err("must reject");
    assert!(err.message().contains("poll_interval_ms"));
}

#[test]
fn rejects_zero_renice_interval_when_enabled() {
    let mut p = empty_profile();
    p.process = Some(ProcessConfig { nice: 0, renice_descendants: true, renice_interval_ms: 0 });
    let cfg = config_with(Some(700), p);
    let err = validate_config(&cfg).expect_err("must reject");
    assert!(err.message().contains("renice_interval_ms"));
}

#[test]
fn accepts_inline_shell_hooks() {
    let mut p = empty_profile();
    p.hooks = Some(Hooks {
        start: vec![],
        stop: vec![],
        start_sh: vec!["echo start".to_string()],
        stop_sh: vec!["echo stop".to_string()],
    });
    let cfg = config_with(Some(700), p);
    validate_config(&cfg).expect("validate");
}

#[test]
fn rejects_empty_inline_shell_hook() {
    let mut p = empty_profile();
    p.hooks = Some(Hooks {
        start: vec![],
        stop: vec![],
        start_sh: vec!["  ".to_string()],
        stop_sh: vec![],
    });
    let cfg = config_with(Some(700), p);
    let err = validate_config(&cfg).expect_err("must reject");
    assert!(err.message().contains("start_sh"));
}

#[test]
fn cpu_enabled_defaults_true_when_omitted() {
    let mut p = empty_profile();
    p.cpu = Some(CpuConfig {
        enabled: None,
        enter_profile: "throughput-performance".to_string(),
        restore_previous: true,
        restore_to_profile: None,
        fallback_exit_profile: None,
    });
    let cfg = config_with(None, p);
    let cpu = cfg.profile.get("default").expect("default").cpu.as_ref().expect("cpu");
    assert!(cpu.enabled());
}

#[test]
fn gpu_enabled_defaults_false_when_omitted() {
    let mut p = empty_profile();
    p.gpu = Some(GpuConfig {
        enabled: None,
        kind: GpuKind::Amdgpu,
        card: 1,
        enter_level: AmdGpuLevel::High,
        restore_previous: true,
        restore_to_level: None,
        fallback_exit_level: None,
    });
    let cfg = config_with(None, p);
    let gpu = cfg.profile.get("default").expect("default").gpu.as_ref().expect("gpu");
    assert!(!gpu.enabled());
}

#[test]
fn descendants_of_invalid_pid_is_empty() {
    let links = vec![(2, 1), (3, 2), (4, 1)];
    let set = discover_descendants(999_999, &links);
    assert!(set.to_vec().is_empty());
}

#[test]
fn cpu_restore_target_prefers_previous_then_restore_to_then_fallback() {
    let cpu = CpuConfig {
        enabled: None,
        enter_profile: "throughput-performance".into(),
        restore_previous: true,
        restore_to_profile: Some("balanced".into()),
        fallback_exit_profile: Some("powersave".into()),
    };
    let mut state = RuntimeState::default();
    state.previous_tuned_profile = Some("latency-performance".into());
    assert_eq!(
        choose_cpu_restore_target(&cpu, &state).as_deref(),
        Some("latency-performance")
    );

    state.previous_tuned_profile = None;
    assert_eq!(choose_cpu_restore_target(&cpu, &state).as_deref(), Some("balanced"));
}

#[test]
fn cpu_restore_target_uses_restore_to_when_restore_previous_disabled() {
    let cpu = CpuConfig {
        enabled: None,
        enter_profile: "throughput-performance".into(),
        restore_previous: false,
        restore_to_profile: Some("balanced".into()),
        fallback_exit_profile: Some("powersave".into()),
    };
    let mut state = RuntimeState::default();
    state.previous_tuned_profile = Some("latency-performance".into());
    assert_eq!(choose_cpu_restore_target(&cpu, &state).as_deref(), Some("balanced"));
}

#[test]
fn gpu_restore_target_uses_restore_to_when_restore_previous_disabled() {
    let gpu = GpuConfig {
        enabled: None,
        kind: GpuKind::Amdgpu,
        card: 1,
        enter_level: AmdGpuLevel::High,
        restore_previous: false,
        restore_to_level: Some(AmdGpuLevel::Auto),
        fallback_exit_level: Some(AmdGpuLevel::Low),
    };
    let mut state = RuntimeState::default();
    state.previous_amdgpu_level = Some("high".into());
    assert_eq!(choose_gpu_restore_target(&gpu, &state).as_deref(), Some("auto"));
}

#[test]
fn cpu_restore_target_uses_fallback_when_restore_previous_disabled_and_restore_to_missing() {
    let cpu = CpuConfig {
        enabled: None,
        enter_profile: "throughput-performance".into(),
        restore_previous: false,
        restore_to_profile: None,
        fallback_exit_profile: Some("balanced".into()),
    };
    let mut state = RuntimeState::default();
    state.previous_tuned_profile = Some("latency-performance".into());
    assert_eq!(choose_cpu_restore_target(&cpu, &state).as_deref(), Some("balanced"));
}

#[test]
fn gpu_restore_target_uses_fallback_when_restore_previous_disabled_and_restore_to_missing() {
    let gpu = GpuConfig {
        enabled: None,
        kind: GpuKind::Amdgpu,
        card: 1,
        enter_level: AmdGpuLevel::High,
        restore_previous: false,
        restore_to_level: None,
        fallback_exit_level: Some(AmdGpuLevel::Auto),
    };
    let mut state = RuntimeState::default();
    state.previous_amdgpu_level = Some("high".into());
    assert_eq!(choose_gpu_restore_target(&gpu, &state).as_deref(), Some("auto"));
}

#[test]
fn parse_leading_env_assignments_stops_at_first_non_assignment() {
    let argv = vec![
        "FOO=1".to_string(),
        "BAR=baz".to_string(),
        "/bin/echo".to_string(),
        "hello".to_string(),
    ];
    assert_eq!(parse_leading_env_assignments(&argv).len(), 2);
}

#[test]
fn parses_tuned_output() {
    let p = parse_tuned_active("foo\nCurrent active profile: balanced\n");
    assert_eq!(p.as_deref(), Some("balanced"));
}

#[test]
fn gpu_path() {
    assert_eq!(
        gpu_level_path(1),
        "/sys/class/drm/card1/device/power_dpm_force_performance_level"
    );
}
