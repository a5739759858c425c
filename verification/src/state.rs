use vstd::prelude::*;
use crate::text;

verus! {

/// What a running session has changed, kept on disk so that it can be restored.
#[derive(Debug, Clone)]
pub struct RuntimeState {
    pub selected_profile: String,
    pub previous_tuned_profile: Option<String>,
    pub previous_amdgpu_level: Option<String>,
    pub cpu_applied: bool,
    pub gpu_applied: bool,
    pub start_hooks_ran: bool,
    pub child_pid: Option<i32>,
    pub child_pgid: Option<i32>,
}

impl Default for RuntimeState {
    /// Nothing selected, nothing applied, no child.
    fn default() -> (r: RuntimeState)
        ensures
            r.selected_profile@ == Seq::<char>::empty(),
            r.previous_tuned_profile is None,
            r.previous_amdgpu_level is None,
            !r.cpu_applied,
            !r.gpu_applied,
            !r.start_hooks_ran,
            r.child_pid is None,
            r.child_pgid is None,
    {
        RuntimeState {
            selected_profile: String::new(),
            previous_tuned_profile: None,
            previous_amdgpu_level: None,
            cpu_applied: false,
            gpu_applied: false,
            start_hooks_ran: false,
            child_pid: None,
            child_pgid: None,
        }
    }
}

/// `/proc/<pid>`, the directory that exists while process `pid` lives.
pub open spec fn proc_dir(pid: int) -> Seq<char> {
    "/proc/"@ + text::signed_decimal(pid)
}

/// The `/proc` directory of process `pid`.
pub fn proc_path(pid: i32) -> (r: String)
    ensures
        r@ == proc_dir(pid as int),
{
    let mut r = "/proc/".to_owned();
    text::push_signed_decimal(&mut r, pid as i64);
    r
}

/// A state file is orphaned when the child it records is no longer alive; a
/// file that records no child is not.
pub fn is_orphaned(state: &RuntimeState, child_alive: bool) -> (r: bool)
    ensures
        r == (state.child_pid is Some && !child_alive),
{
    match state.child_pid {
        None => false,
        Some(_) => !child_alive,
    }
}

/// The extension of a file name, as `Path::extension` finds it: what follows
/// the last `.`, unless that dot starts the name.
pub open spec fn has_extension(file_name: Seq<char>, ext: Seq<char>) -> bool {
    exists|i: int|
        0 < i < file_name.len() && file_name[i] == '.' && (forall|k: int|
            i < k < file_name.len() ==> file_name[k] != '.') && file_name.subrange(
            i + 1,
            file_name.len() as int,
        ) == ext
}

/// Whether the file name `name` has the extension `toml`.
pub fn is_toml_file_name(name: &str) -> (r: bool)
    ensures
        r == has_extension(name@, "toml"@),
{
    let v = text::chars_of(name);
    let ext = text::chars_of("toml");
    let mut i: usize = v.len();
    while i > 0 && v[i - 1] != '.'
        invariant
            v@ == name@,
            i <= v.len(),
            forall|k: int| i <= k < v.len() ==> v@[k] != '.',
        decreases i,
    {
        i = i - 1;
    }
    // `i - 1` is the last dot, if `i > 0`.
    if i <= 1 {
        proof {
            assert forall|j: int|
                0 < j < name@.len() && name@[j] == '.' implies exists|k: int|
                j < k < name@.len() && name@[k] == '.' by {
                if i == 1 {
                    assert(j > 0 && v@[j] == '.');
                }
            }
        }
        return false;
    }
    let mut tail: Vec<char> = Vec::new();
    let mut k: usize = i;
    while k < v.len()
        invariant
            i <= k <= v.len(),
            tail@ == v@.subrange(i as int, k as int),
        decreases v.len() - k,
    {
        tail.push(v[k]);
        k = k + 1;
    }
    let r = text::chars_eq(&tail, &ext);
    proof {
        let j = i - 1;
        assert(v@[j] == '.');
        if r {
            assert(0 < j < name@.len() && name@[j as int] == '.' && name@.subrange(j + 1, name@.len() as int) == "toml"@);
        } else {
            assert forall|m: int|
                0 < m < name@.len() && name@[m] == '.' && (forall|q: int|
                    m < q < name@.len() ==> name@[q] != '.') implies name@.subrange(
                m + 1,
                name@.len() as int,
            ) != "toml"@ by {
                assert(m == j);
            }
        }
    }
    r
}


/// The state directory of user `uid`: `/run/user/<uid>/hoist` when
/// `/run/user/<uid>` is a directory, else `hoist-<uid>` in the temporary directory.
pub open spec fn runtime_dir_text(uid: u32, run_user_is_dir: bool, temp_dir: Seq<char>) -> Seq<char> {
    if run_user_is_dir {
        "/run/user/"@ + text::decimal(uid as nat) + "/hoist"@
    } else {
        crate::config::join_relative(temp_dir, "hoist-"@ + text::decimal(uid as nat))
    }
}

/// Where the state files of user `uid` go, given whether `/run/user/<uid>` is a
/// directory and what the temporary directory is.
pub fn runtime_dir(uid: u32, run_user_is_dir: bool, temp_dir: &str) -> (r: String)
    ensures
        r@ == runtime_dir_text(uid, run_user_is_dir, temp_dir@),
{
    if run_user_is_dir {
        let mut r = "/run/user/".to_owned();
        text::push_decimal(&mut r, uid as u128);
        r.append("/hoist");
        r
    } else {
        let v = text::chars_of(temp_dir);
        let mut r = temp_dir.to_owned();
        if v.len() > 0 && v[v.len() - 1] != '/' {
            proof {
            reveal_strlit("/");
        }
        r.append("/");
        }
        r.append("hoist-");
        text::push_decimal(&mut r, uid as u128);
        assert(r@ == runtime_dir_text(uid, run_user_is_dir, temp_dir@));
        r
    }
}

/// The name of a new state file: `state-<pid>-<nanos>-<nonce>.toml`.
pub open spec fn state_file_name_text(pid: u32, nanos: u128, nonce: u64) -> Seq<char> {
    "state-"@ + text::decimal(pid as nat) + "-"@ + text::decimal(nanos as nat) + "-"@
        + text::decimal(nonce as nat) + ".toml"@
}

/// The name of a new state file of process `pid`, made at `nanos` nanoseconds
/// after the epoch, with the per-process counter at `nonce`.
pub fn state_file_name(pid: u32, nanos: u128, nonce: u64) -> (r: String)
    ensures
        r@ == state_file_name_text(pid, nanos, nonce),
{
    let mut r = "state-".to_owned();
    text::push_decimal(&mut r, pid as u128);
    r.append("-");
    text::push_decimal(&mut r, nanos);
    r.append("-");
    text::push_decimal(&mut r, nonce as u128);
    r.append(".toml");
    r
}

/// The name of the temporary file a state is written to before it is renamed
/// into place: `.tmp-<pid>-<nonce>`.
pub open spec fn temp_file_name_text(pid: u32, nonce: u64) -> Seq<char> {
    ".tmp-"@ + text::decimal(pid as nat) + "-"@ + text::decimal(nonce as nat)
}

/// The name of the temporary file of process `pid` with the counter at `nonce`.
pub fn temp_file_name(pid: u32, nonce: u64) -> (r: String)
    ensures
        r@ == temp_file_name_text(pid, nonce),
{
    let mut r = ".tmp-".to_owned();
    text::push_decimal(&mut r, pid as u128);
    r.append("-");
    text::push_decimal(&mut r, nonce as u128);
    r
}

/// Every state file that is created has the extension `toml`, so the scan for
/// orphaned state files looks at it.
pub proof fn lemma_state_file_is_scanned(pid: u32, nanos: u128, nonce: u64)
    ensures
        has_extension(state_file_name_text(pid, nanos, nonce), "toml"@),
{
    reveal_strlit("state-");
    reveal_strlit("-");
    reveal_strlit(".toml");
    reveal_strlit("toml");
    let name = state_file_name_text(pid, nanos, nonce);
    let head = "state-"@ + text::decimal(pid as nat) + "-"@ + text::decimal(nanos as nat) + "-"@
        + text::decimal(nonce as nat);
    assert(name == head + ".toml"@);
    let i = head.len() as int;
    assert(name[i] == '.');
    assert(name.subrange(i + 1, name.len() as int) =~= "toml"@);
    assert(forall|k: int| i < k < name.len() ==> name[k] != '.');
}

/// A temporary state file never has the extension `toml`, so the scan for
/// orphaned state files never takes a half-written one.
pub proof fn lemma_temp_file_not_scanned(pid: u32, nonce: u64)
    ensures
        !has_extension(temp_file_name_text(pid, nonce), "toml"@),
{
    reveal_strlit(".tmp-");
    reveal_strlit("-");
    let name = temp_file_name_text(pid, nonce);
    let a = text::decimal(pid as nat);
    let b = text::decimal(nonce as nat);
    text::lemma_decimal_digits(pid as nat);
    text::lemma_decimal_digits(nonce as nat);
    assert(name == ".tmp-"@ + a + "-"@ + b);
    assert forall|i: int| 0 < i < name.len() implies name[i] != '.' by {
        if i < 5 {
        } else if i < 5 + a.len() {
            assert(name[i] == a[i - 5]);
            assert(text::is_ascii_digit(a[i - 5]));
        } else if i == 5 + a.len() {
        } else {
            assert(name[i] == b[i - 6 - a.len()]);
            assert(text::is_ascii_digit(b[i - 6 - a.len()]));
        }
    }
}

/// How many names are tried for a new state file before giving up.
pub const STATE_FILE_ATTEMPTS: u32 = 32;

/// What an attempt to create a state file exclusively found.
#[derive(Debug)]
pub enum CreateOutcome {
    /// The file was created.
    Created,
    /// A file of that name exists already.
    AlreadyExists,
    /// Creating it failed for another reason.
    Failed,
}

/// What to do after an attempt to create a state file.
#[derive(Debug, PartialEq, Eq, Structural)]
pub enum CreateStep {
    /// Use the file just created.
    Done,
    /// Try again with a fresh name.
    Retry,
    /// Give up with the error of this attempt.
    Fail,
    /// Give up: every attempt met an existing file.
    Exhausted,
}

/// Decides after attempt number `attempt` (counting from 0): a created file is
/// used, an existing one leads to another name while attempts are left, and any
/// other failure ends the search.
pub fn state_file_step(attempt: u32, outcome: CreateOutcome) -> (r: CreateStep)
    ensures
        r == match outcome {
            CreateOutcome::Created => CreateStep::Done,
            CreateOutcome::Failed => CreateStep::Fail,
            CreateOutcome::AlreadyExists => if attempt + 1 < STATE_FILE_ATTEMPTS {
                CreateStep::Retry
            } else {
                CreateStep::Exhausted
            },
        },
{
    match outcome {
        CreateOutcome::Created => CreateStep::Done,
        CreateOutcome::Failed => CreateStep::Fail,
        CreateOutcome::AlreadyExists => {
            if attempt < STATE_FILE_ATTEMPTS - 1 {
                CreateStep::Retry
            } else {
                CreateStep::Exhausted
            }
        },
    }
}

} // verus!
