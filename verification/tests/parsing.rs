use hoist::cli::{config_paths_report, helper_info_report, inspect_report, InspectFacts};
use hoist::config::{AmdGpuLevel, ConfigPaths};
use hoist::procutil::{parse_i32, parse_ppid, parse_u32, IdSet};
use hoist::runtime::{group_hoist_gid, in_hoist_group};
use hoist::state::{
    is_toml_file_name, runtime_dir, state_file_name, state_file_step, temp_file_name, CreateOutcome,
    CreateStep, STATE_FILE_ATTEMPTS,
};
use hoist::system::{wait_step, ChildPoll, CommandFailure, WaitStep};

#[test]
fn parses_signed_integers() {
    assert_eq!(parse_i32("42"), Some(42));
    assert_eq!(parse_i32("-7"), Some(-7));
    assert_eq!(parse_i32("+5"), Some(5));
    assert_eq!(parse_i32("2147483647"), Some(i32::MAX));
    assert_eq!(parse_i32("-2147483648"), Some(i32::MIN));
    assert_eq!(parse_i32("2147483648"), None);
    assert_eq!(parse_i32(""), None);
    assert_eq!(parse_i32("-"), None);
    assert_eq!(parse_i32("1a"), None);
    assert_eq!(parse_i32(" 1"), None);
}

#[test]
fn parses_unsigned_integers() {
    assert_eq!(parse_u32("0"), Some(0));
    assert_eq!(parse_u32("+9"), Some(9));
    assert_eq!(parse_u32("4294967295"), Some(u32::MAX));
    assert_eq!(parse_u32("4294967296"), None);
    assert_eq!(parse_u32("-1"), None);
    assert_eq!(parse_u32(""), None);
}

#[test]
fn reads_parent_pid_from_stat() {
    assert_eq!(parse_ppid("1234 (bash) S 1 1234 1234 0 -1"), Some(1));
    assert_eq!(parse_ppid("77 (odd) name) R 42 77 77"), Some(42));
    assert_eq!(parse_ppid("12 (a)  S   9 rest"), Some(9));
    assert_eq!(parse_ppid("no parens here"), None);
    assert_eq!(parse_ppid("5 (x) S"), None);
    assert_eq!(parse_ppid("5 (x) S abc 1"), None);
}

#[test]
fn finds_hoist_group_gid() {
    assert_eq!(group_hoist_gid("root:x:0:\nhoist:x:1001:alice,bob\n"), Some(1001));
    assert_eq!(group_hoist_gid("root:x:0:\r\nhoist:x:1002:\r\n"), Some(1002));
    assert_eq!(group_hoist_gid("hoistx:x:5:\nwheel:x:10:\n"), None);
    assert_eq!(group_hoist_gid("hoist:x\n"), None);
    assert_eq!(group_hoist_gid("hoist:x:abc:\nhoist:x:7:\n"), None);
    assert_eq!(group_hoist_gid(""), None);
}

#[test]
fn hoist_group_membership() {
    assert!(in_hoist_group(0, &vec![], None));
    assert!(in_hoist_group(1000, &vec![1000, 1001], Some(1001)));
    assert!(!in_hoist_group(1000, &vec![1000, 1002], Some(1001)));
    assert!(!in_hoist_group(1000, &vec![1000, 1001], None));
}

#[test]
fn runtime_dir_prefers_run_user() {
    assert_eq!(runtime_dir(1000, true, "/tmp"), "/run/user/1000/hoist");
    assert_eq!(runtime_dir(1000, false, "/tmp"), "/tmp/hoist-1000");
    assert_eq!(runtime_dir(0, false, "/var/tmp/"), "/var/tmp/hoist-0");
}

#[test]
fn insert_all_reports_new_ids() {
    let mut seen = IdSet::new();
    seen.insert(5);
    seen.insert(9);
    let mut found = IdSet::new();
    found.insert(9);
    found.insert(3);
    found.insert(12);
    assert_eq!(seen.insert_all(&found), vec![3, 12]);
    assert_eq!(seen.to_vec(), vec![3, 5, 9, 12]);
    assert_eq!(seen.insert_all(&found), Vec::<i32>::new());
}

#[test]
fn config_paths_lines() {
    let paths = ConfigPaths {
        system: "/etc/hoist/default.toml".to_string(),
        user: "/home/a/.config/hoist/default.toml".to_string(),
        selected: "/home/a/.config/hoist/default.toml".to_string(),
        system_exists: false,
        user_exists: true,
    };
    assert_eq!(
        config_paths_report(&paths),
        vec![
            "system_config=/etc/hoist/default.toml exists=false".to_string(),
            "user_config=/home/a/.config/hoist/default.toml exists=true".to_string(),
            "selected_config=/home/a/.config/hoist/default.toml".to_string(),
        ]
    );
}

#[test]
fn helper_info_lines() {
    assert_eq!(
        helper_info_report(false),
        vec!["gpuctl_path=/usr/libexec/hoist-gpuctl".to_string(), "gpuctl_exists=false".to_string()]
    );
}

#[test]
fn inspect_lines_with_gpu() {
    let facts = InspectFacts {
        selected_config: "/etc/hoist/default.toml".to_string(),
        profile: "game".to_string(),
        require_all: true,
        helper_exists: true,
        in_hoist_group: false,
        tuned_active: None,
        gpu: Some((1, Some(AmdGpuLevel::ProfilePeak))),
    };
    assert_eq!(
        inspect_report(&facts),
        vec![
            "selected_config=/etc/hoist/default.toml".to_string(),
            "selected_profile=game".to_string(),
            "require_all=true".to_string(),
            "gpuctl_path=/usr/libexec/hoist-gpuctl exists=true".to_string(),
            "user_in_hoist_group=false".to_string(),
            "tuned_active=unavailable".to_string(),
            "amdgpu_card1_level=profile_peak".to_string(),
        ]
    );
}

#[test]
fn inspect_lines_without_gpu() {
    let facts = InspectFacts {
        selected_config: "c".to_string(),
        profile: "default".to_string(),
        require_all: false,
        helper_exists: false,
        in_hoist_group: true,
        tuned_active: Some("balanced".to_string()),
        gpu: None,
    };
    let lines = inspect_report(&facts);
    assert_eq!(lines.len(), 6);
    assert_eq!(lines[5], "tuned_active=balanced");
    let facts = InspectFacts { gpu: Some((0, None)), ..facts };
    assert_eq!(inspect_report(&facts)[6], "amdgpu_card0_level=unavailable");
}

#[test]
fn timed_wait_decisions() {
    let ok = ChildPoll::Exited { success: true, status: "exit status: 0".to_string() };
    assert!(matches!(wait_step(ok, 10_000, 50), WaitStep::Done));
    let bad = ChildPoll::Exited { success: false, status: "exit status: 3".to_string() };
    match wait_step(bad, 0, 8000) {
        WaitStep::Fail(CommandFailure::Exit(s)) => assert_eq!(s, "exit status: 3"),
        other => panic!("unexpected {other:?}"),
    }
    match wait_step(ChildPoll::Error("gone".to_string()), 0, 8000) {
        WaitStep::Fail(CommandFailure::Launch(s)) => assert_eq!(s, "gone"),
        other => panic!("unexpected {other:?}"),
    }
    assert!(matches!(wait_step(ChildPoll::Running, 49, 50), WaitStep::Wait));
    assert!(matches!(wait_step(ChildPoll::Running, 50, 50), WaitStep::TimeUp(0)));
    assert!(matches!(wait_step(ChildPoll::Running, 7999, 8000), WaitStep::Wait));
    assert!(matches!(wait_step(ChildPoll::Running, 9000, 8000), WaitStep::TimeUp(8)));
}

#[test]
fn state_file_names() {
    let name = state_file_name(4242, 1_700_000_000_123_456_789, 3);
    assert_eq!(name, "state-4242-1700000000123456789-3.toml");
    assert!(is_toml_file_name(&name));
    let tmp = temp_file_name(4242, 7);
    assert_eq!(tmp, ".tmp-4242-7");
    assert!(!is_toml_file_name(&tmp));
    assert_eq!(state_file_name(0, u128::MAX, u64::MAX).len(), "state-0--.toml".len() + 39 + 20);
}

#[test]
fn state_file_creation_attempts() {
    assert_eq!(state_file_step(0, CreateOutcome::Created), CreateStep::Done);
    assert_eq!(state_file_step(0, CreateOutcome::Failed), CreateStep::Fail);
    assert_eq!(state_file_step(0, CreateOutcome::AlreadyExists), CreateStep::Retry);
    assert_eq!(state_file_step(30, CreateOutcome::AlreadyExists), CreateStep::Retry);
    assert_eq!(state_file_step(31, CreateOutcome::AlreadyExists), CreateStep::Exhausted);
    assert_eq!(STATE_FILE_ATTEMPTS, 32);
}

#[test]
fn command_timeout_returns_timeout_error() {
    // `sh -c "sleep 1"` is still running when its 50 ms are up.
    let step = wait_step(ChildPoll::Running, 50, 50);
    assert!(matches!(step, WaitStep::TimeUp(_)));
}

#[test]
fn command_nonzero_exit_returns_exit_error() {
    // `sh -c "exit 3"` exits unsuccessfully well within its second.
    let poll = ChildPoll::Exited { success: false, status: "exit status: 3".to_string() };
    let step = wait_step(poll, 5, 1000);
    assert!(matches!(step, WaitStep::Fail(CommandFailure::Exit(_))));
}
