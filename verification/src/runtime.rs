use vstd::prelude::*;
use crate::text;
use crate::config::{AmdGpuLevel, Config, CpuConfig, GpuConfig, Profile, ProcessConfig};
use crate::config;
use crate::state::RuntimeState;

verus! {

/// A character that may follow the first one in an environment variable name.
pub open spec fn is_env_key_char(c: char) -> bool {
    c == '_' || text::is_ascii_alnum(c)
}

/// Environment variable names: a letter or `_`, then letters, digits or `_`.
pub open spec fn is_env_key(k: Seq<char>) -> bool {
    &&& k.len() > 0
    &&& (k[0] == '_' || text::is_ascii_alpha(k[0]))
    &&& forall|i: int| 1 <= i < k.len() ==> is_env_key_char(#[trigger] k[i])
}

/// `i` is the position of the first `=` in `s`.
pub open spec fn is_first_eq(s: Seq<char>, i: int) -> bool {
    0 <= i < s.len() && s[i] == '=' && forall|k: int| 0 <= k < i ==> s[k] != '='
}

/// `s` split at its first `=`, as `split_once('=')` does.
pub open spec fn split_at_eq(s: Seq<char>) -> Option<(Seq<char>, Seq<char>)> {
    if exists|i: int| is_first_eq(s, i) {
        let i = choose|i: int| is_first_eq(s, i);
        Some((s.subrange(0, i), s.subrange(i + 1, s.len() as int)))
    } else {
        None
    }
}

/// `KEY=VALUE` with a valid variable name before the first `=`.
pub open spec fn is_assignment(s: Seq<char>) -> bool {
    split_at_eq(s) matches Some(kv) && is_env_key(kv.0)
}

proof fn lemma_first_eq_unique(s: Seq<char>, i: int, j: int)
    requires
        is_first_eq(s, i),
        is_first_eq(s, j),
    ensures
        i == j,
{
    if i < j {
        assert(s[i] == '=');
    } else if j < i {
        assert(s[j] == '=');
    }
}

/// A word `KEY=VALUE` whose key is a letter or `_` followed by letters, digits
/// and `_` is an assignment of that key to `VALUE`, whatever `VALUE` holds
/// (more `=` signs included); a word whose first character is a digit or `=`
/// is never an assignment.
pub proof fn lemma_assignment_words(key: Seq<char>, value: Seq<char>)
    ensures
        ({
            &&& key.len() > 0
            &&& (key[0] == '_' || ('a' <= key[0] <= 'z') || ('A' <= key[0] <= 'Z'))
            &&& forall|k: int|
                1 <= k < key.len() ==> (#[trigger] key[k] == '_' || ('a' <= key[k] <= 'z') || ('A'
                    <= key[k] <= 'Z') || ('0' <= key[k] <= '9'))
        }) ==> split_at_eq(key + "="@ + value) == Some((key, value)) && is_assignment(key + "="@ + value),
        key.len() > 0 && (('0' <= key[0] <= '9') || key[0] == '=') ==> !is_assignment(key + "="@ + value),
{
    reveal_strlit("=");
    let w = key + "="@ + value;
    let i = key.len() as int;
    assert(w[i] == '=');
    if forall|k: int| 0 <= k < key.len() ==> key[k] != '=' {
        assert(is_first_eq(w, i)) by {
            assert forall|k: int| 0 <= k < i implies w[k] != '=' by {
                assert(w[k] == key[k]);
            }
        }
        let j = choose|j: int| is_first_eq(w, j);
        lemma_first_eq_unique(w, i, j);
        assert(w.subrange(0, i) =~= key);
        assert(w.subrange(i + 1, w.len() as int) =~= value);
    }
    if key.len() > 0 && (('0' <= key[0] <= '9') || key[0] == '=') {
        if let Some(kv) = split_at_eq(w) {
            let j = choose|j: int| is_first_eq(w, j);
            if key[0] == '=' {
                assert(is_first_eq(w, 0));
                lemma_first_eq_unique(w, 0, j);
                assert(kv.0.len() == 0);
            } else {
                assert(j > 0) by {
                    assert(w[0] == key[0]);
                }
                assert(kv.0[0] == key[0]);
            }
        }
    }
}


/// Finds the first `=` of `v`.
fn find_eq(v: &Vec<char>) -> (r: Option<usize>)
    ensures
        match r {
            Some(i) => is_first_eq(v@, i as int),
            None => forall|k: int| 0 <= k < v@.len() ==> v@[k] != '=',
        },
{
    let mut i: usize = 0;
    while i < v.len()
        invariant
            i <= v@.len(),
            forall|k: int| 0 <= k < i ==> v@[k] != '=',
        decreases v@.len() - i,
    {
        if v[i] == '=' {
            return Some(i);
        }
        i = i + 1;
    }
    None
}

/// `s` split at its first `=`.
fn split_once_eq(s: &str) -> (r: Option<(String, String)>)
    ensures
        match r {
            Some(kv) => split_at_eq(s@) == Some((kv.0@, kv.1@)),
            None => split_at_eq(s@) is None,
        },
{
    let v = text::chars_of(s);
    match find_eq(&v) {
        Some(i) => {
            proof {
                assert forall|j: int| is_first_eq(s@, j) implies j == i by {
                    lemma_first_eq_unique(s@, i as int, j);
                }
            }
            assert(i < v.len());
            let key = s.substring_char(0, i).to_owned();
            let value = s.substring_char(i + 1, v.len()).to_owned();
            Some((key, value))
        },
        None => {
            assert(!exists|i: int| is_first_eq(s@, i));
            None
        },
    }
}

/// Whether `key` is a valid environment variable name.
pub fn is_valid_env_key(key: &str) -> (r: bool)
    ensures
        r == is_env_key(key@),
{
    let v = text::chars_of(key);
    if v.len() == 0 {
        return false;
    }
    let first = v[0];
    if !(first == '_' || ('a' <= first && first <= 'z') || ('A' <= first && first <= 'Z')) {
        return false;
    }
    let mut i: usize = 1;
    while i < v.len()
        invariant
            v@ == key@,
            1 <= i <= v@.len(),
            forall|k: int| 1 <= k < i ==> is_env_key_char(#[trigger] v@[k]),
        decreases v@.len() - i,
    {
        let c = v[i];
        if !(c == '_' || ('a' <= c && c <= 'z') || ('A' <= c && c <= 'Z') || ('0' <= c && c <= '9')) {
            return false;
        }
        i = i + 1;
    }
    true
}

/// Whether `arg` has the form `KEY=VALUE` with a valid variable name.
pub fn is_env_assignment(arg: &str) -> (r: bool)
    ensures
        r == is_assignment(arg@),
{
    match split_once_eq(arg) {
        Some((key, _value)) => is_valid_env_key(key.as_str()),
        None => false,
    }
}

/// The number of environment assignments at the start of `argv[i..]`, plus `i`.
pub open spec fn leading_end(argv: Seq<String>, i: int) -> int
    decreases argv.len() - i,
{
    if 0 <= i < argv.len() && is_assignment(argv[i]@) {
        leading_end(argv, i + 1)
    } else {
        i
    }
}

proof fn lemma_leading_end_bounds(argv: Seq<String>, i: int)
    requires
        0 <= i <= argv.len(),
    ensures
        i <= leading_end(argv, i) <= argv.len(),
    decreases argv.len() - i,
{
    if i < argv.len() && is_assignment(argv[i]@) {
        lemma_leading_end_bounds(argv, i + 1);
    }
}

/// The leading `KEY=VALUE` words of a command line: the longest prefix of
/// `argv` made of environment assignments.
pub fn parse_leading_env_assignments(argv: &[String]) -> (r: &[String])
    ensures
        r@ == argv@.subrange(0, leading_end(argv@, 0)),
        forall|k: int| 0 <= k < r@.len() ==> is_assignment(#[trigger] argv@[k]@),
        r@.len() < argv@.len() ==> !is_assignment(argv@[r@.len() as int]@),
{
    let mut idx: usize = 0;
    while idx < argv.len() && is_env_assignment(argv[idx].as_str())
        invariant
            idx <= argv@.len(),
            forall|k: int| 0 <= k < idx ==> is_assignment(#[trigger] argv@[k]@),
            leading_end(argv@, 0) == leading_end(argv@, idx as int),
        decreases argv@.len() - idx,
    {
        idx = idx + 1;
    }
    &argv[0..idx]
}

/// Why a launch is refused.
#[derive(Debug)]
pub enum RunError {
    /// The profile name is not a valid profile name.
    InvalidProfileName { name: String },
    /// No command was given.
    MissingCommand,
    /// No profile has the requested name.
    UnknownProfile { name: String },
    /// An `--env` value has no `=`.
    MalformedEnv { item: String },
    /// An `--env` value names an invalid variable.
    InvalidEnvKey { key: String },
}

/// The position of the first of `raw[i..]` that is not a valid assignment.
pub open spec fn first_bad_env(raw: Seq<String>, i: int) -> Option<int>
    decreases raw.len() - i,
{
    if i < 0 || i >= raw.len() {
        None
    } else if !is_assignment(raw[i]@) {
        Some(i)
    } else {
        first_bad_env(raw, i + 1)
    }
}

/// `e` reports the word `w`: a word without `=` is malformed, otherwise its
/// name is invalid.
pub open spec fn reports_env_word(e: RunError, w: Seq<char>) -> bool {
    match split_at_eq(w) {
        None => e matches RunError::MalformedEnv { item } && item@ == w,
        Some(kv) => e matches RunError::InvalidEnvKey { key } && key@ == kv.0,
    }
}

/// Splits `KEY=VALUE` words into pairs; the first word without `=`, or with an
/// invalid name, is reported.
pub fn parse_env_assignments(raw: &[String]) -> (r: Result<Vec<(String, String)>, RunError>)
    ensures
        match r {
            Ok(pairs) => first_bad_env(raw@, 0) is None && pairs@.len() == raw@.len() && forall|k: int|
                0 <= k < raw@.len() ==> split_at_eq(#[trigger] raw@[k]@) == Some(
                    (pairs@[k].0@, pairs@[k].1@),
                ),
            Err(e) => first_bad_env(raw@, 0) matches Some(j) && reports_env_word(e, raw@[j]@),
        },
{
    let mut parsed: Vec<(String, String)> = Vec::new();
    let mut i: usize = 0;
    while i < raw.len()
        invariant
            i <= raw@.len(),
            parsed@.len() == i,
            first_bad_env(raw@, 0) == first_bad_env(raw@, i as int),
            forall|k: int|
                0 <= k < i ==> split_at_eq(#[trigger] raw@[k]@) == Some(
                    (parsed@[k].0@, parsed@[k].1@),
                ),
        decreases raw@.len() - i,
    {
        match split_once_eq(raw[i].as_str()) {
            None => {
                return Err(RunError::MalformedEnv { item: raw[i].clone() });
            },
            Some((key, value)) => {
                if !is_valid_env_key(key.as_str()) {
                    return Err(RunError::InvalidEnvKey { key });
                }
                parsed.push((key, value));
            },
        }
        i = i + 1;
    }
    Ok(parsed)
}


/// The texts of optional strings.
pub open spec fn opt_text(o: Option<String>) -> Option<Seq<char>> {
    match o {
        Some(s) => Some(s@),
        None => None,
    }
}

/// The sysfs name of an optional level.
pub open spec fn opt_level_text(o: Option<AmdGpuLevel>) -> Option<Seq<char>> {
    match o {
        Some(l) => Some(config::level_name(l)),
        None => None,
    }
}

/// The first of `a`, `b` that is present.
pub open spec fn or_else<T>(a: Option<T>, b: Option<T>) -> Option<T> {
    if a is Some {
        a
    } else {
        b
    }
}

/// The tuned profile to go back to: with `restore_previous`, the profile that was
/// active before, else `restore_to_profile`, else `fallback_exit_profile`;
/// without it, `restore_to_profile`, else `fallback_exit_profile`.
pub open spec fn cpu_restore_target(cpu: CpuConfig, state: RuntimeState) -> Option<Seq<char>> {
    let configured = or_else(opt_text(cpu.restore_to_profile), opt_text(cpu.fallback_exit_profile));
    if cpu.restore_previous {
        or_else(opt_text(state.previous_tuned_profile), configured)
    } else {
        configured
    }
}

/// The GPU level to go back to, in the same order of preference as for the CPU.
pub open spec fn gpu_restore_target(gpu: GpuConfig, state: RuntimeState) -> Option<Seq<char>> {
    let configured = or_else(opt_level_text(gpu.restore_to_level), opt_level_text(gpu.fallback_exit_level));
    if gpu.restore_previous {
        or_else(opt_text(state.previous_amdgpu_level), configured)
    } else {
        configured
    }
}

fn clone_opt(o: &Option<String>) -> (r: Option<String>)
    ensures
        opt_text(r) == opt_text(*o),
{
    match o {
        Some(s) => Some(s.clone()),
        None => None,
    }
}

fn level_text(o: &Option<AmdGpuLevel>) -> (r: Option<String>)
    ensures
        opt_text(r) == opt_level_text(*o),
{
    match o {
        Some(l) => Some(l.as_str().to_owned()),
        None => None,
    }
}

/// Which tuned profile to restore when the command ends.
pub fn choose_cpu_restore_target(cpu: &CpuConfig, state: &RuntimeState) -> (r: Option<String>)
    ensures
        opt_text(r) == cpu_restore_target(*cpu, *state),
{
    let configured = match clone_opt(&cpu.restore_to_profile) {
        Some(p) => Some(p),
        None => clone_opt(&cpu.fallback_exit_profile),
    };
    if cpu.restore_previous {
        match clone_opt(&state.previous_tuned_profile) {
            Some(p) => Some(p),
            None => configured,
        }
    } else {
        configured
    }
}

/// Which GPU level to restore when the command ends.
pub fn choose_gpu_restore_target(gpu: &GpuConfig, state: &RuntimeState) -> (r: Option<String>)
    ensures
        opt_text(r) == gpu_restore_target(*gpu, *state),
{
    let configured = match level_text(&gpu.restore_to_level) {
        Some(p) => Some(p),
        None => level_text(&gpu.fallback_exit_level),
    };
    if gpu.restore_previous {
        match clone_opt(&state.previous_amdgpu_level) {
            Some(p) => Some(p),
            None => configured,
        }
    } else {
        configured
    }
}

/// The texts of a list of strings.
pub open spec fn texts(v: Seq<String>) -> Seq<Seq<char>> {
    v.map_values(|s: String| s@)
}

/// An outside command that tuning runs.
#[derive(Debug)]
pub enum Effect {
    /// `tuned-adm profile <profile>`.
    SetTunedProfile { profile: String },
    /// `pkexec hoist-gpuctl <args>`.
    RunGpuctl { args: Vec<String> },
    /// A hook given as a program and its arguments.
    RunArgv { argv: Vec<String> },
    /// A hook given as a `/bin/sh -c` snippet.
    RunShell { snippet: String },
}

/// The content of an `Effect`.
pub enum EffectView {
    SetTunedProfile(Seq<char>),
    RunGpuctl(Seq<Seq<char>>),
    RunArgv(Seq<Seq<char>>),
    RunShell(Seq<char>),
}

impl View for Effect {
    type V = EffectView;

    open spec fn view(&self) -> EffectView {
        match self {
            Effect::SetTunedProfile { profile } => EffectView::SetTunedProfile(profile@),
            Effect::RunGpuctl { args } => EffectView::RunGpuctl(texts(args@)),
            Effect::RunArgv { argv } => EffectView::RunArgv(texts(argv@)),
            Effect::RunShell { snippet } => EffectView::RunShell(snippet@),
        }
    }
}

/// A copy of a list of strings.
pub fn clone_texts(v: &Vec<String>) -> (r: Vec<String>)
    ensures
        r@ == v@,
{
    let mut r: Vec<String> = Vec::new();
    let mut i: usize = 0;
    while i < v.len()
        invariant
            i <= v@.len(),
            r@ == v@.subrange(0, i as int),
        decreases v@.len() - i,
    {
        r.push(v[i].clone());
        i = i + 1;
    }
    assert(v@.subrange(0, v@.len() as int) == v@);
    r
}

/// The arguments of the GPU helper: `<verb> --card <card> --level <level>`.
pub open spec fn gpuctl_args(verb: Seq<char>, card: u32, level: Seq<char>) -> Seq<Seq<char>> {
    seq![verb, "--card"@, text::decimal(card as nat), "--level"@, level]
}

/// Builds the arguments of the GPU helper.
pub fn gpuctl_arguments(verb: &str, card: u32, level: &str) -> (r: Vec<String>)
    ensures
        texts(r@) == gpuctl_args(verb@, card, level@),
{
    let mut card_text = String::new();
    text::push_decimal(&mut card_text, card as u128);
    let mut r: Vec<String> = Vec::new();
    r.push(verb.to_owned());
    r.push("--card".to_owned());
    r.push(card_text);
    r.push("--level".to_owned());
    r.push(level.to_owned());
    assert(texts(r@) =~= gpuctl_args(verb@, card, level@));
    r
}

/// One restore command: a notice printed before it, the command, and the
/// warning printed (with the error) when it fails.
#[derive(Debug)]
pub struct RestoreStep {
    pub notice: Option<String>,
    pub effect: Effect,
    pub failure: String,
}

/// The content of a `RestoreStep`.
pub struct RestoreStepView {
    pub notice: Option<Seq<char>>,
    pub effect: EffectView,
    pub failure: Seq<char>,
}

impl View for RestoreStep {
    type V = RestoreStepView;

    open spec fn view(&self) -> RestoreStepView {
        RestoreStepView { notice: opt_text(self.notice), effect: self.effect@, failure: self.failure@ }
    }
}

/// Restoring the CPU: only when CPU tuning is enabled and was applied, and a
/// target exists.
pub open spec fn cpu_restore_plan(profile: Profile, state: RuntimeState) -> Seq<RestoreStepView> {
    match profile.cpu {
        Some(cpu) => if cpu.enabled != Some(false) && state.cpu_applied {
            match cpu_restore_target(cpu, state) {
                Some(t) => seq![
                    RestoreStepView {
                        notice: Some("restoring tuned profile "@ + t),
                        effect: EffectView::SetTunedProfile(t),
                        failure: "cpu restore failed"@,
                    },
                ],
                None => seq![],
            }
        } else {
            seq![]
        },
        None => seq![],
    }
}

/// Restoring the GPU: only when GPU tuning is enabled and was applied, and a
/// target exists.
pub open spec fn gpu_restore_plan(profile: Profile, state: RuntimeState) -> Seq<RestoreStepView> {
    match profile.gpu {
        Some(gpu) => if gpu.enabled == Some(true) && state.gpu_applied {
            match gpu_restore_target(gpu, state) {
                Some(level) => seq![
                    RestoreStepView {
                        notice: Some("restoring amdgpu level "@ + level),
                        effect: EffectView::RunGpuctl(gpuctl_args("revert"@, gpu.card, level)),
                        failure: "gpu restore failed"@,
                    },
                ],
                None => seq![],
            }
        } else {
            seq![]
        },
        None => seq![],
    }
}

/// Stop hooks, argv hooks first, run only when start hooks ran.
pub open spec fn hooks_restore_plan(profile: Profile, state: RuntimeState) -> Seq<RestoreStepView> {
    match profile.hooks {
        Some(h) => if state.start_hooks_ran {
            h.stop@.map_values(
                |c: Vec<String>|
                    RestoreStepView {
                        notice: None,
                        effect: EffectView::RunArgv(texts(c@)),
                        failure: "stop hook failed"@,
                    },
            ) + h.stop_sh@.map_values(
                |c: String|
                    RestoreStepView {
                        notice: None,
                        effect: EffectView::RunShell(c@),
                        failure: "stop hook failed"@,
                    },
            )
        } else {
            seq![]
        },
        None => seq![],
    }
}

/// Everything a restore runs, in order: CPU, GPU, then stop hooks.
pub open spec fn restore_plan(profile: Profile, state: RuntimeState) -> Seq<RestoreStepView> {
    cpu_restore_plan(profile, state) + gpu_restore_plan(profile, state) + hooks_restore_plan(
        profile,
        state,
    )
}

/// When the start applied nothing, the restore runs nothing.
pub proof fn lemma_nothing_applied_nothing_restored(profile: Profile, state: RuntimeState)
    requires
        !state.cpu_applied,
        !state.gpu_applied,
        !state.start_hooks_ran,
    ensures
        restore_plan(profile, state).len() == 0,
{
}

/// A CPU change that the start applied is undone first, towards the restore
/// target (the previously active profile when `restore_previous` is set and one
/// was recorded).
pub proof fn lemma_applied_cpu_is_restored(profile: Profile, state: RuntimeState)
    requires
        profile.cpu matches Some(cpu) && cpu.enabled != Some(false),
        state.cpu_applied,
        cpu_restore_target(profile.cpu->0, state) is Some,
    ensures
        restore_plan(profile, state).len() >= 1,
        restore_plan(profile, state)[0].effect == EffectView::SetTunedProfile(
            cpu_restore_target(profile.cpu->0, state)->0,
        ),
        profile.cpu->0.restore_previous ==> (state.previous_tuned_profile matches Some(prev) ==> restore_plan(
            profile,
            state,
        )[0].effect == EffectView::SetTunedProfile(prev@)),
{
}

/// A GPU change that the start applied is reverted, on the same card, to the
/// restore target; it comes right after the CPU restore, if any.
pub proof fn lemma_applied_gpu_is_restored(profile: Profile, state: RuntimeState)
    requires
        profile.gpu matches Some(gpu) && gpu.enabled == Some(true),
        state.gpu_applied,
        gpu_restore_target(profile.gpu->0, state) is Some,
    ensures
        ({
            let k = cpu_restore_plan(profile, state).len() as int;
            &&& restore_plan(profile, state).len() >= k + 1
            &&& restore_plan(profile, state)[k].effect == EffectView::RunGpuctl(
                gpuctl_args(
                    "revert"@,
                    profile.gpu->0.card,
                    gpu_restore_target(profile.gpu->0, state)->0,
                ),
            )
        }),
{
}

/// The commands that undo what the start applied; each is best effort: a failure
/// is only reported.
pub fn restore_all(profile: &Profile, state: &RuntimeState) -> (r: Vec<RestoreStep>)
    ensures
        r@.map_values(|s: RestoreStep| s@) == restore_plan(*profile, *state),
{
    let mut r: Vec<RestoreStep> = Vec::new();
    if let Some(cpu) = &profile.cpu {
        if cpu.enabled() && state.cpu_applied {
            if let Some(target) = choose_cpu_restore_target(cpu, state) {
                let mut notice = "restoring tuned profile ".to_owned();
                notice.append(target.as_str());
                r.push(
                    RestoreStep {
                        notice: Some(notice),
                        effect: Effect::SetTunedProfile { profile: target },
                        failure: "cpu restore failed".to_owned(),
                    },
                );
            }
        }
    }
    let ghost after_cpu = r@.map_values(|s: RestoreStep| s@);
    assert(after_cpu == cpu_restore_plan(*profile, *state));
    if let Some(gpu) = &profile.gpu {
        if gpu.enabled() && state.gpu_applied {
            if let Some(level) = choose_gpu_restore_target(gpu, state) {
                let mut notice = "restoring amdgpu level ".to_owned();
                notice.append(level.as_str());
                let args = gpuctl_arguments("revert", gpu.card, level.as_str());
                r.push(
                    RestoreStep {
                        notice: Some(notice),
                        effect: Effect::RunGpuctl { args },
                        failure: "gpu restore failed".to_owned(),
                    },
                );
            }
        }
    }
    let ghost after_gpu = r@.map_values(|s: RestoreStep| s@);
    assert(after_gpu == cpu_restore_plan(*profile, *state) + gpu_restore_plan(*profile, *state));
    if let Some(h) = &profile.hooks {
        if state.start_hooks_ran {
            let mut i: usize = 0;
            while i < h.stop.len()
                invariant
                    i <= h.stop@.len(),
                    r@.map_values(|s: RestoreStep| s@) == after_gpu + h.stop@.subrange(0, i as int).map_values(
                        |c: Vec<String>|
                            RestoreStepView {
                                notice: None,
                                effect: EffectView::RunArgv(texts(c@)),
                                failure: "stop hook failed"@,
                            },
                    ),
                decreases h.stop@.len() - i,
            {
                let argv = clone_texts(&h.stop[i]);
                let ghost prev = r@;
                r.push(
                    RestoreStep {
                        notice: None,
                        effect: Effect::RunArgv { argv },
                        failure: "stop hook failed".to_owned(),
                    },
                );
                assert(h.stop@.subrange(0, i + 1) == h.stop@.subrange(0, i as int).push(h.stop@[i as int]));
                assert(r@ == prev.push(r@[r@.len() - 1]));
                assert(r@.map_values(|s: RestoreStep| s@) =~= prev.map_values(|s: RestoreStep| s@).push(r@[r@.len() - 1]@));
                i = i + 1;
            }
            assert(h.stop@.subrange(0, h.stop@.len() as int) == h.stop@);
            let ghost after_stop = r@.map_values(|s: RestoreStep| s@);
            let mut j: usize = 0;
            while j < h.stop_sh.len()
                invariant
                    j <= h.stop_sh@.len(),
                    r@.map_values(|s: RestoreStep| s@) == after_stop + h.stop_sh@.subrange(0, j as int).map_values(
                        |c: String|
                            RestoreStepView {
                                notice: None,
                                effect: EffectView::RunShell(c@),
                                failure: "stop hook failed"@,
                            },
                    ),
                decreases h.stop_sh@.len() - j,
            {
                let snippet = h.stop_sh[j].clone();
                let ghost prev = r@;
                r.push(
                    RestoreStep {
                        notice: None,
                        effect: Effect::RunShell { snippet },
                        failure: "stop hook failed".to_owned(),
                    },
                );
                assert(h.stop_sh@.subrange(0, j + 1) == h.stop_sh@.subrange(0, j as int).push(h.stop_sh@[j as int]));
                assert(r@ == prev.push(r@[r@.len() - 1]));
                assert(r@.map_values(|s: RestoreStep| s@) =~= prev.map_values(|s: RestoreStep| s@).push(r@[r@.len() - 1]@));
                j = j + 1;
            }
            assert(h.stop_sh@.subrange(0, h.stop_sh@.len() as int) == h.stop_sh@);
        }
    }
    r
}


/// What a start command records in the state when it succeeds.
#[derive(Debug, Clone, Copy, PartialEq, Eq, Structural)]
pub enum Mark {
    CpuApplied,
    GpuApplied,
    HooksRan,
}

/// One step of applying a profile.
#[derive(Debug)]
pub enum StartStep {
    /// A line to print.
    Notice { text: String },
    /// Ask `tuned-adm` for the active profile, to restore it later.
    QueryTunedActive,
    /// Read the current level of a GPU, to restore it later.
    ReadGpuLevel { card: u32 },
    /// Run a command; on failure either stop the start or only warn.
    Run { effect: Effect, abort_on_failure: bool, mark: Mark },
}

/// The content of a `StartStep`.
pub enum StartStepView {
    Notice(Seq<char>),
    QueryTunedActive,
    ReadGpuLevel(u32),
    Run(EffectView, bool, Mark),
}

impl View for StartStep {
    type V = StartStepView;

    open spec fn view(&self) -> StartStepView {
        match self {
            StartStep::Notice { text } => StartStepView::Notice(text@),
            StartStep::QueryTunedActive => StartStepView::QueryTunedActive,
            StartStep::ReadGpuLevel { card } => StartStepView::ReadGpuLevel(*card),
            StartStep::Run { effect, abort_on_failure, mark } => StartStepView::Run(
                effect@,
                *abort_on_failure,
                *mark,
            ),
        }
    }
}

/// CPU start: report a disabled block; otherwise remember the active tuned
/// profile, then switch to the entry profile.
pub open spec fn cpu_start_plan(require_all: bool, profile: Profile) -> Seq<StartStepView> {
    match profile.cpu {
        Some(cpu) => if cpu.enabled == Some(false) {
            seq![StartStepView::Notice("cpu tweaks disabled by profile"@)]
        } else {
            seq![
                StartStepView::QueryTunedActive,
                StartStepView::Notice("applying tuned profile "@ + cpu.enter_profile@),
                StartStepView::Run(
                    EffectView::SetTunedProfile(cpu.enter_profile@),
                    require_all,
                    Mark::CpuApplied,
                ),
            ]
        },
        None => seq![],
    }
}

/// GPU start: report a disabled block; otherwise warn, remember the current
/// level, then apply the entry level through the helper.
pub open spec fn gpu_start_plan(require_all: bool, profile: Profile) -> Seq<StartStepView> {
    match profile.gpu {
        Some(gpu) => if gpu.enabled != Some(true) {
            seq![StartStepView::Notice("gpu tweaks disabled by profile"@)]
        } else {
            seq![
                StartStepView::Notice("warning: gpu tweaks enabled; use at your own risk"@),
                StartStepView::ReadGpuLevel(gpu.card),
                StartStepView::Notice(
                    "setting amdgpu card"@ + text::decimal(gpu.card as nat) + " level "@
                        + config::level_name(gpu.enter_level),
                ),
                StartStepView::Run(
                    EffectView::RunGpuctl(
                        gpuctl_args("apply"@, gpu.card, config::level_name(gpu.enter_level)),
                    ),
                    require_all,
                    Mark::GpuApplied,
                ),
            ]
        },
        None => seq![],
    }
}

/// Start hooks, argv hooks first; any failure stops the start.
pub open spec fn hooks_start_plan(profile: Profile) -> Seq<StartStepView> {
    match profile.hooks {
        Some(h) => h.start@.map_values(
            |c: Vec<String>| StartStepView::Run(EffectView::RunArgv(texts(c@)), true, Mark::HooksRan),
        ) + h.start_sh@.map_values(
            |c: String| StartStepView::Run(EffectView::RunShell(c@), true, Mark::HooksRan),
        ),
        None => seq![],
    }
}

/// A warning when the nice value is below what the packaged limits allow.
pub open spec fn nice_start_plan(profile: Profile) -> Seq<StartStepView> {
    match profile.process {
        Some(pc) => if pc.nice < -10 {
            seq![
                StartStepView::Notice(
                    "warning: configured nice="@ + text::signed_decimal(pc.nice as int)
                        + " is below packaged policy (@hoist - nice -15)"@,
                ),
            ]
        } else {
            seq![]
        },
        None => seq![],
    }
}

/// Everything a start does, in order: CPU, GPU, start hooks, then the nice check.
pub open spec fn start_plan(require_all: bool, profile: Profile) -> Seq<StartStepView> {
    cpu_start_plan(require_all, profile) + gpu_start_plan(require_all, profile) + hooks_start_plan(
        profile,
    ) + nice_start_plan(profile)
}

/// Without `require_all`, a failed CPU or GPU change never stops the start;
/// a failed start hook always does.
pub proof fn lemma_start_failure_policy(require_all: bool, profile: Profile)
    ensures
        forall|i: int|
            0 <= i < start_plan(require_all, profile).len() ==> match #[trigger] start_plan(
                require_all,
                profile,
            )[i] {
                StartStepView::Run(_, abort, Mark::HooksRan) => abort,
                StartStepView::Run(_, abort, _) => abort == require_all,
                _ => true,
            },
{
    let c = cpu_start_plan(require_all, profile);
    let g = gpu_start_plan(require_all, profile);
    let h = hooks_start_plan(profile);
    let n = nice_start_plan(profile);
    let all = start_plan(require_all, profile);
    assert forall|i: int| 0 <= i < all.len() implies match #[trigger] all[i] {
        StartStepView::Run(_, abort, Mark::HooksRan) => abort,
        StartStepView::Run(_, abort, _) => abort == require_all,
        _ => true,
    } by {
        if i < c.len() {
            assert(all[i] == c[i]);
        } else if i < c.len() + g.len() {
            assert(all[i] == g[i - c.len()]);
        } else if i < c.len() + g.len() + h.len() {
            assert(all[i] == h[i - c.len() - g.len()]);
            match profile.hooks {
                Some(hk) => {
                    let a = hk.start@.map_values(
                        |cmd: Vec<String>| StartStepView::Run(EffectView::RunArgv(texts(cmd@)), true, Mark::HooksRan),
                    );
                    let b = hk.start_sh@.map_values(
                        |cmd: String| StartStepView::Run(EffectView::RunShell(cmd@), true, Mark::HooksRan),
                    );
                    let m = i - c.len() - g.len();
                    if m < a.len() {
                        assert(h[m] == a[m]);
                    } else {
                        assert(h[m] == b[m - a.len()]);
                    }
                },
                None => {},
            }
        } else {
            assert(all[i] == n[i - c.len() - g.len() - h.len()]);
        }
    }
}

/// Whether a start step touches the GPU: it reads a card's level or runs the
/// GPU helper.
pub open spec fn touches_gpu(step: StartStepView) -> bool {
    ||| step is ReadGpuLevel
    ||| step matches StartStepView::Run(EffectView::RunGpuctl(_), _, _)
}

/// The start touches the GPU only when the profile's GPU block sets `enabled`
/// to true: a block that leaves `enabled` out, or sets it to false, is only
/// reported as "gpu tweaks disabled by profile". An enabled block has the
/// helper apply its entry level on its card.
pub proof fn lemma_gpu_only_when_enabled(require_all: bool, profile: Profile)
    ensures
        forall|i: int|
            0 <= i < start_plan(require_all, profile).len() && touches_gpu(
                #[trigger] start_plan(require_all, profile)[i],
            ) ==> (profile.gpu is Some && profile.gpu.unwrap().enabled == Some(true)),
        profile.gpu is Some && profile.gpu.unwrap().enabled != Some(true) ==> start_plan(
            require_all,
            profile,
        ).contains(StartStepView::Notice("gpu tweaks disabled by profile"@)),
        profile.gpu is Some && profile.gpu.unwrap().enabled == Some(true) ==> start_plan(
            require_all,
            profile,
        ).contains(
            StartStepView::Run(
                EffectView::RunGpuctl(
                    seq![
                        "apply"@,
                        "--card"@,
                        text::decimal(profile.gpu.unwrap().card as nat),
                        "--level"@,
                        config::level_name(profile.gpu.unwrap().enter_level),
                    ],
                ),
                require_all,
                Mark::GpuApplied,
            ),
        ),
{
    let c = cpu_start_plan(require_all, profile);
    let g = gpu_start_plan(require_all, profile);
    let h = hooks_start_plan(profile);
    let n = nice_start_plan(profile);
    let all = start_plan(require_all, profile);
    assert forall|i: int|
        0 <= i < all.len() && touches_gpu(#[trigger] all[i]) implies (profile.gpu is Some
            && profile.gpu.unwrap().enabled == Some(true)) by {
        if i < c.len() {
            assert(all[i] == c[i]);
        } else if i < c.len() + g.len() {
            assert(all[i] == g[i - c.len()]);
        } else if i < c.len() + g.len() + h.len() {
            assert(all[i] == h[i - c.len() - g.len()]);
            match profile.hooks {
                Some(hk) => {
                    let a = hk.start@.map_values(
                        |cmd: Vec<String>| StartStepView::Run(EffectView::RunArgv(texts(cmd@)), true, Mark::HooksRan),
                    );
                    let b = hk.start_sh@.map_values(
                        |cmd: String| StartStepView::Run(EffectView::RunShell(cmd@), true, Mark::HooksRan),
                    );
                    let m = i - c.len() - g.len();
                    if m < a.len() {
                        assert(h[m] == a[m]);
                    } else {
                        assert(h[m] == b[m - a.len()]);
                    }
                },
                None => {},
            }
        } else {
            assert(all[i] == n[i - c.len() - g.len() - h.len()]);
        }
    }
    if profile.gpu is Some {
        let k = c.len() as int;
        assert(all[k] == g[0]);
        if profile.gpu.unwrap().enabled == Some(true) {
            assert(all[k + 3] == g[3]);
            assert(all.contains(all[k + 3]));
        } else {
            assert(all.contains(all[k]));
        }
    }
}

/// Whether a start step touches the tuned profile: it asks for the active one
/// or switches to another.
pub open spec fn touches_tuned(step: StartStepView) -> bool {
    ||| step is QueryTunedActive
    ||| step matches StartStepView::Run(EffectView::SetTunedProfile(_), _, _)
}

/// The start touches the tuned profile only when the profile has a CPU block
/// that does not set `enabled` to false (leaving it out enables it); a block
/// with `enabled = false` is only reported as "cpu tweaks disabled by profile".
/// An enabled block switches to its entry profile.
pub proof fn lemma_cpu_only_when_enabled(require_all: bool, profile: Profile)
    ensures
        forall|i: int|
            0 <= i < start_plan(require_all, profile).len() && touches_tuned(
                #[trigger] start_plan(require_all, profile)[i],
            ) ==> (profile.cpu is Some && profile.cpu.unwrap().enabled != Some(false)),
        profile.cpu is Some && profile.cpu.unwrap().enabled == Some(false) ==> start_plan(
            require_all,
            profile,
        ).contains(StartStepView::Notice("cpu tweaks disabled by profile"@)),
        profile.cpu is Some && profile.cpu.unwrap().enabled != Some(false) ==> start_plan(
            require_all,
            profile,
        ).contains(
            StartStepView::Run(
                EffectView::SetTunedProfile(profile.cpu.unwrap().enter_profile@),
                require_all,
                Mark::CpuApplied,
            ),
        ),
{
    let c = cpu_start_plan(require_all, profile);
    let g = gpu_start_plan(require_all, profile);
    let h = hooks_start_plan(profile);
    let n = nice_start_plan(profile);
    let all = start_plan(require_all, profile);
    assert forall|i: int|
        0 <= i < all.len() && touches_tuned(#[trigger] all[i]) implies (profile.cpu is Some
            && profile.cpu.unwrap().enabled != Some(false)) by {
        if i < c.len() {
            assert(all[i] == c[i]);
        } else if i < c.len() + g.len() {
            assert(all[i] == g[i - c.len()]);
        } else if i < c.len() + g.len() + h.len() {
            assert(all[i] == h[i - c.len() - g.len()]);
            match profile.hooks {
                Some(hk) => {
                    let a = hk.start@.map_values(
                        |cmd: Vec<String>| StartStepView::Run(EffectView::RunArgv(texts(cmd@)), true, Mark::HooksRan),
                    );
                    let b = hk.start_sh@.map_values(
                        |cmd: String| StartStepView::Run(EffectView::RunShell(cmd@), true, Mark::HooksRan),
                    );
                    let m = i - c.len() - g.len();
                    if m < a.len() {
                        assert(h[m] == a[m]);
                    } else {
                        assert(h[m] == b[m - a.len()]);
                    }
                },
                None => {},
            }
        } else {
            assert(all[i] == n[i - c.len() - g.len() - h.len()]);
        }
    }
    if profile.cpu is Some {
        assert(all[0] == c[0]);
        if profile.cpu.unwrap().enabled != Some(false) {
            assert(all[2] == c[2]);
            assert(all.contains(all[2]));
        } else {
            assert(all.contains(all[0]));
        }
    }
}

/// A restore switches the tuned profile only when the start applied a CPU
/// change of an enabled CPU block, and runs the GPU helper only when the start
/// applied a GPU change of a block that enables it; the helper then reverts
/// (never applies) a level on that block's card.
pub proof fn lemma_restore_only_what_was_applied(profile: Profile, state: RuntimeState)
    ensures
        forall|j: int|
            0 <= j < restore_plan(profile, state).len() && (#[trigger] restore_plan(profile, state)[j]).effect
                is SetTunedProfile ==> (state.cpu_applied && profile.cpu is Some && profile.cpu.unwrap().enabled
                != Some(false)),
        forall|j: int|
            0 <= j < restore_plan(profile, state).len() && (#[trigger] restore_plan(profile, state)[j]).effect
                is RunGpuctl ==> (state.gpu_applied && profile.gpu is Some && profile.gpu.unwrap().enabled
                == Some(true) && (restore_plan(profile, state)[j].effect->RunGpuctl_0).len() == 5
                && (restore_plan(profile, state)[j].effect->RunGpuctl_0)[0] == "revert"@
                && (restore_plan(profile, state)[j].effect->RunGpuctl_0)[2] == text::decimal(
                profile.gpu.unwrap().card as nat,
            )),
{
    let c = cpu_restore_plan(profile, state);
    let g = gpu_restore_plan(profile, state);
    let hp = hooks_restore_plan(profile, state);
    let plan = restore_plan(profile, state);
    assert forall|j: int| 0 <= j < plan.len() implies ((#[trigger] plan[j]).effect is SetTunedProfile ==> (
    state.cpu_applied && profile.cpu is Some && profile.cpu.unwrap().enabled != Some(false))) && (
    plan[j].effect is RunGpuctl ==> (state.gpu_applied && profile.gpu is Some && profile.gpu.unwrap().enabled
        == Some(true) && (plan[j].effect->RunGpuctl_0).len() == 5 && (plan[j].effect->RunGpuctl_0)[0]
        == "revert"@ && (plan[j].effect->RunGpuctl_0)[2] == text::decimal(
        profile.gpu.unwrap().card as nat,
    ))) by {
        if j < c.len() {
            assert(plan[j] == c[j]);
        } else if j < c.len() + g.len() {
            assert(plan[j] == g[j - c.len()]);
        } else {
            assert(plan[j] == hp[j - c.len() - g.len()]);
            match profile.hooks {
                Some(h) => {
                    if state.start_hooks_ran {
                        let a = h.stop@.map_values(
                            |cmd: Vec<String>|
                                RestoreStepView {
                                    notice: None,
                                    effect: EffectView::RunArgv(texts(cmd@)),
                                    failure: "stop hook failed"@,
                                },
                        );
                        let b = h.stop_sh@.map_values(
                            |cmd: String|
                                RestoreStepView {
                                    notice: None,
                                    effect: EffectView::RunShell(cmd@),
                                    failure: "stop hook failed"@,
                                },
                        );
                        let m = j - c.len() - g.len();
                        if m < a.len() {
                            assert(hp[m] == a[m]);
                        } else {
                            assert(hp[m] == b[m - a.len()]);
                        }
                    }
                },
                None => {},
            }
        }
    }
}

/// Where a restore goes back to. For the CPU: with `restore_previous` and a
/// recorded previous profile, that profile; otherwise `restore_to_profile` if
/// set, else `fallback_exit_profile` (if any). For the GPU: likewise, with the
/// recorded previous level and the sysfs names of the configured levels.
pub proof fn lemma_restore_target_order(cpu: CpuConfig, gpu: GpuConfig, state: RuntimeState)
    ensures
        cpu.restore_previous && state.previous_tuned_profile is Some ==> cpu_restore_target(cpu, state)
            == Some(state.previous_tuned_profile.unwrap()@),
        !(cpu.restore_previous && state.previous_tuned_profile is Some) && cpu.restore_to_profile is Some
            ==> cpu_restore_target(cpu, state) == Some(cpu.restore_to_profile.unwrap()@),
        !(cpu.restore_previous && state.previous_tuned_profile is Some) && cpu.restore_to_profile is None
            ==> cpu_restore_target(cpu, state) == (match cpu.fallback_exit_profile {
            Some(f) => Some(f@),
            None => None,
        }),
        gpu.restore_previous && state.previous_amdgpu_level is Some ==> gpu_restore_target(gpu, state)
            == Some(state.previous_amdgpu_level.unwrap()@),
        !(gpu.restore_previous && state.previous_amdgpu_level is Some) && gpu.restore_to_level is Some
            ==> gpu_restore_target(gpu, state) == Some(config::level_name(gpu.restore_to_level.unwrap())),
        !(gpu.restore_previous && state.previous_amdgpu_level is Some) && gpu.restore_to_level is None
            ==> gpu_restore_target(gpu, state) == (match gpu.fallback_exit_level {
            Some(f) => Some(config::level_name(f)),
            None => None,
        }),
{
}

/// Whether a start step runs a hook.
pub open spec fn runs_start_hook(step: StartStepView) -> bool {
    step matches StartStepView::Run(e, _, _) && (e is RunArgv || e is RunShell)
}

/// The start runs every start hook of the profile, in order, once: each entry
/// of `start` as an argv command, then each entry of `start_sh` as a shell
/// snippet, one after the other; each stops the start when it fails. No other
/// step runs a hook.
/// The start hooks of a profile, as the two lists of its hook block.
pub open spec fn start_hook_lists(profile: Profile) -> (Seq<Vec<String>>, Seq<String>) {
    match profile.hooks {
        Some(h) => (h.start@, h.start_sh@),
        None => (seq![], seq![]),
    }
}

proof fn lemma_start_hooks_at(require_all: bool, profile: Profile)
    ensures
        ({
            let plan = start_plan(require_all, profile);
            let st = start_hook_lists(profile).0;
            let sh = start_hook_lists(profile).1;
            let b = cpu_start_plan(require_all, profile).len() + gpu_start_plan(require_all, profile).len();
            &&& b + st.len() + sh.len() <= plan.len()
            &&& forall|k: int|
                0 <= k < st.len() ==> plan[b + k] == StartStepView::Run(
                    EffectView::RunArgv(texts((#[trigger] st[k])@)),
                    true,
                    Mark::HooksRan,
                )
            &&& forall|k: int|
                0 <= k < sh.len() ==> plan[b + st.len() + k] == StartStepView::Run(
                    EffectView::RunShell((#[trigger] sh[k])@),
                    true,
                    Mark::HooksRan,
                )
        }),
{
    let c = cpu_start_plan(require_all, profile);
    let g = gpu_start_plan(require_all, profile);
    let h = hooks_start_plan(profile);
    let plan = start_plan(require_all, profile);
    let st = start_hook_lists(profile).0;
    let sh = start_hook_lists(profile).1;
    let b = c.len() + g.len();
    assert(h.len() == st.len() + sh.len());
    assert forall|k: int| 0 <= k < st.len() implies plan[b + k] == StartStepView::Run(
        EffectView::RunArgv(texts((#[trigger] st[k])@)),
        true,
        Mark::HooksRan,
    ) by {
        assert(plan[b + k] == h[k]);
    }
    assert forall|k: int| 0 <= k < sh.len() implies plan[b + st.len() + k] == StartStepView::Run(
        EffectView::RunShell((#[trigger] sh[k])@),
        true,
        Mark::HooksRan,
    ) by {
        assert(plan[b + st.len() + k] == h[st.len() + k]);
    }
}

proof fn lemma_no_other_start_hooks(require_all: bool, profile: Profile)
    ensures
        ({
            let plan = start_plan(require_all, profile);
            let st = start_hook_lists(profile).0;
            let sh = start_hook_lists(profile).1;
            let b = cpu_start_plan(require_all, profile).len() + gpu_start_plan(require_all, profile).len();
            forall|j: int|
                0 <= j < plan.len() && !(b <= j < b + st.len() + sh.len()) ==> !runs_start_hook(
                    #[trigger] plan[j],
                )
        }),
{
    let c = cpu_start_plan(require_all, profile);
    let g = gpu_start_plan(require_all, profile);
    let h = hooks_start_plan(profile);
    let n = nice_start_plan(profile);
    let plan = start_plan(require_all, profile);
    let st = start_hook_lists(profile).0;
    let sh = start_hook_lists(profile).1;
    let b = c.len() + g.len();
    assert(h.len() == st.len() + sh.len());
    assert forall|j: int| 0 <= j < plan.len() && !(b <= j < b + st.len() + sh.len()) implies !runs_start_hook(
        #[trigger] plan[j],
    ) by {
        if j < c.len() {
            assert(plan[j] == c[j]);
        } else if j < b {
            assert(plan[j] == g[j - c.len()]);
        } else {
            assert(plan[j] == n[j - b - h.len()]);
        }
    }
}

/// In `plan`, the steps from `b` on are the argv hooks `st` then the shell
/// hooks `sh`, each stopping the start when it fails, and no other step runs a
/// hook.
pub open spec fn start_hooks_at(plan: Seq<StartStepView>, st: Seq<Vec<String>>, sh: Seq<String>, b: int) -> bool {
    &&& 0 <= b && b + st.len() + sh.len() <= plan.len()
    &&& forall|k: int|
        0 <= k < st.len() ==> plan[b + k] == StartStepView::Run(
            EffectView::RunArgv(texts((#[trigger] st[k])@)),
            true,
            Mark::HooksRan,
        )
    &&& forall|k: int|
        0 <= k < sh.len() ==> plan[b + st.len() + k] == StartStepView::Run(
            EffectView::RunShell((#[trigger] sh[k])@),
            true,
            Mark::HooksRan,
        )
    &&& forall|j: int|
        0 <= j < plan.len() && !(b <= j < b + st.len() + sh.len()) ==> !runs_start_hook(#[trigger] plan[j])
}

proof fn lemma_start_hooks_layout(require_all: bool, profile: Profile)
    ensures
        start_hooks_at(
            start_plan(require_all, profile),
            start_hook_lists(profile).0,
            start_hook_lists(profile).1,
            (cpu_start_plan(require_all, profile).len() + gpu_start_plan(require_all, profile).len()) as int,
        ),
{
    lemma_start_hooks_at(require_all, profile);
    lemma_no_other_start_hooks(require_all, profile);
}

/// The start runs every start hook of the profile once, in order and one after
/// the other: each entry of `start` as an argv command, then each entry of
/// `start_sh` as a shell snippet, each stopping the start when it fails. No
/// other step runs a hook.
pub proof fn lemma_start_hooks_run(require_all: bool, profile: Profile)
    ensures
        exists|b: int|
            start_hooks_at(
                start_plan(require_all, profile),
                start_hook_lists(profile).0,
                start_hook_lists(profile).1,
                b,
            ),
{
    lemma_start_hooks_layout(require_all, profile);
}

/// Whether a restore step runs a stop hook.
pub open spec fn runs_hook(step: RestoreStepView) -> bool {
    step.effect is RunArgv || step.effect is RunShell
}

/// How many stop hooks a restore runs: all of them once start hooks ran,
/// none otherwise.
pub open spec fn stop_hook_count(profile: Profile, state: RuntimeState) -> int {
    match profile.hooks {
        Some(h) => if state.start_hooks_ran {
            (h.stop@.len() + h.stop_sh@.len()) as int
        } else {
            0
        },
        None => 0,
    }
}

/// A restore ends with the stop hooks and runs no hook before them. Once start
/// hooks ran, they are every entry of `stop`, in order, as argv commands,
/// followed by every entry of `stop_sh`, in order, as shell snippets; when no
/// start hook ran, no hook runs at all.
pub proof fn lemma_stop_hooks_restored(profile: Profile, state: RuntimeState)
    ensures
        restore_plan(profile, state).len() >= stop_hook_count(profile, state),
        forall|j: int|
            0 <= j < restore_plan(profile, state).len() - stop_hook_count(profile, state) ==> !runs_hook(
                #[trigger] restore_plan(profile, state)[j],
            ),
        !state.start_hooks_ran || profile.hooks is None ==> stop_hook_count(profile, state) == 0,
        state.start_hooks_ran && profile.hooks is Some ==> ({
            let h = profile.hooks.unwrap();
            let plan = restore_plan(profile, state);
            let base = plan.len() - h.stop@.len() - h.stop_sh@.len();
            &&& forall|k: int|
                0 <= k < h.stop@.len() ==> plan[base + k].effect == EffectView::RunArgv(
                    texts((#[trigger] h.stop@[k])@),
                )
            &&& forall|k: int|
                0 <= k < h.stop_sh@.len() ==> plan[base + h.stop@.len() + k].effect == EffectView::RunShell(
                    (#[trigger] h.stop_sh@[k])@,
                )
        }),
{
    let c = cpu_restore_plan(profile, state);
    let g = gpu_restore_plan(profile, state);
    let hp = hooks_restore_plan(profile, state);
    let plan = restore_plan(profile, state);
    assert(hp.len() == stop_hook_count(profile, state));
    assert forall|j: int| 0 <= j < plan.len() - stop_hook_count(profile, state) implies !runs_hook(
        #[trigger] plan[j],
    ) by {
        if j < c.len() {
            assert(plan[j] == c[j]);
        } else {
            assert(plan[j] == g[j - c.len()]);
        }
    }
    if state.start_hooks_ran && profile.hooks is Some {
        let h = profile.hooks.unwrap();
        let base = plan.len() - h.stop@.len() - h.stop_sh@.len();
        assert forall|k: int| 0 <= k < h.stop@.len() implies plan[base + k].effect == EffectView::RunArgv(
            texts((#[trigger] h.stop@[k])@),
        ) by {
            assert(plan[base + k] == hp[k]);
        }
        assert forall|k: int| 0 <= k < h.stop_sh@.len() implies plan[base + h.stop@.len() + k].effect
            == EffectView::RunShell((#[trigger] h.stop_sh@[k])@) by {
            assert(plan[base + h.stop@.len() + k] == hp[h.stop@.len() + k]);
        }
    }
}

fn notice(t: &str) -> (r: StartStep)
    ensures
        r@ == StartStepView::Notice(t@),
{
    StartStep::Notice { text: t.to_owned() }
}

spec fn step_views(v: Seq<StartStep>) -> Seq<StartStepView> {
    v.map_values(|s: StartStep| s@)
}

fn cpu_start_steps(require_all: bool, profile: &Profile) -> (r: Vec<StartStep>)
    ensures
        step_views(r@) == cpu_start_plan(require_all, *profile),
{
    let mut r: Vec<StartStep> = Vec::new();
    if let Some(cpu) = &profile.cpu {
        if !cpu.enabled() {
            r.push(notice("cpu tweaks disabled by profile"));
        } else {
            r.push(StartStep::QueryTunedActive);
            let mut t = "applying tuned profile ".to_owned();
            t.append(cpu.enter_profile.as_str());
            r.push(StartStep::Notice { text: t });
            r.push(
                StartStep::Run {
                    effect: Effect::SetTunedProfile { profile: cpu.enter_profile.clone() },
                    abort_on_failure: require_all,
                    mark: Mark::CpuApplied,
                },
            );
        }
    }
    assert(step_views(r@) =~= cpu_start_plan(require_all, *profile));
    r
}

fn gpu_start_steps(require_all: bool, profile: &Profile) -> (r: Vec<StartStep>)
    ensures
        step_views(r@) == gpu_start_plan(require_all, *profile),
{
    let mut r: Vec<StartStep> = Vec::new();
    if let Some(gpu) = &profile.gpu {
        if !gpu.enabled() {
            r.push(notice("gpu tweaks disabled by profile"));
        } else {
            r.push(notice("warning: gpu tweaks enabled; use at your own risk"));
            r.push(StartStep::ReadGpuLevel { card: gpu.card });
            let mut t = "setting amdgpu card".to_owned();
            text::push_decimal(&mut t, gpu.card as u128);
            t.append(" level ");
            t.append(gpu.enter_level.as_str());
            r.push(StartStep::Notice { text: t });
            let args = gpuctl_arguments("apply", gpu.card, gpu.enter_level.as_str());
            r.push(
                StartStep::Run {
                    effect: Effect::RunGpuctl { args },
                    abort_on_failure: require_all,
                    mark: Mark::GpuApplied,
                },
            );
        }
    }
    assert(step_views(r@) =~= gpu_start_plan(require_all, *profile));
    r
}

fn argv_hook_steps(cmds: &Vec<Vec<String>>) -> (r: Vec<StartStep>)
    ensures
        step_views(r@) == cmds@.map_values(
            |c: Vec<String>| StartStepView::Run(EffectView::RunArgv(texts(c@)), true, Mark::HooksRan),
        ),
{
    let mut r: Vec<StartStep> = Vec::new();
    let mut i: usize = 0;
    while i < cmds.len()
        invariant
            i <= cmds@.len(),
            step_views(r@) == cmds@.subrange(0, i as int).map_values(
                |c: Vec<String>| StartStepView::Run(EffectView::RunArgv(texts(c@)), true, Mark::HooksRan),
            ),
        decreases cmds@.len() - i,
    {
        let argv = clone_texts(&cmds[i]);
        let ghost prev = r@;
        r.push(StartStep::Run { effect: Effect::RunArgv { argv }, abort_on_failure: true, mark: Mark::HooksRan });
        assert(cmds@.subrange(0, i + 1) == cmds@.subrange(0, i as int).push(cmds@[i as int]));
        assert(r@ == prev.push(r@[r@.len() - 1]));
        assert(step_views(r@) =~= step_views(prev).push(r@[r@.len() - 1]@));
        i = i + 1;
    }
    assert(cmds@.subrange(0, cmds@.len() as int) == cmds@);
    r
}

fn shell_hook_steps(snippets: &Vec<String>) -> (r: Vec<StartStep>)
    ensures
        step_views(r@) == snippets@.map_values(
            |c: String| StartStepView::Run(EffectView::RunShell(c@), true, Mark::HooksRan),
        ),
{
    let mut r: Vec<StartStep> = Vec::new();
    let mut j: usize = 0;
    while j < snippets.len()
        invariant
            j <= snippets@.len(),
            step_views(r@) == snippets@.subrange(0, j as int).map_values(
                |c: String| StartStepView::Run(EffectView::RunShell(c@), true, Mark::HooksRan),
            ),
        decreases snippets@.len() - j,
    {
        let snippet = snippets[j].clone();
        let ghost prev = r@;
        r.push(StartStep::Run { effect: Effect::RunShell { snippet }, abort_on_failure: true, mark: Mark::HooksRan });
        assert(snippets@.subrange(0, j + 1) == snippets@.subrange(0, j as int).push(snippets@[j as int]));
        assert(r@ == prev.push(r@[r@.len() - 1]));
        assert(step_views(r@) =~= step_views(prev).push(r@[r@.len() - 1]@));
        j = j + 1;
    }
    assert(snippets@.subrange(0, snippets@.len() as int) == snippets@);
    r
}

fn nice_steps(profile: &Profile) -> (r: Vec<StartStep>)
    ensures
        step_views(r@) == nice_start_plan(*profile),
{
    let mut r: Vec<StartStep> = Vec::new();
    if let Some(pc) = &profile.process {
        if pc.nice < -10 {
            let mut t = "warning: configured nice=".to_owned();
            text::push_signed_decimal(&mut t, pc.nice as i64);
            t.append(" is below packaged policy (@hoist - nice -15)");
            r.push(StartStep::Notice { text: t });
        }
    }
    assert(step_views(r@) =~= nice_start_plan(*profile));
    r
}

proof fn lemma_step_views_append(a: Seq<StartStep>, b: Seq<StartStep>)
    ensures
        step_views(a + b) == step_views(a) + step_views(b),
{
    assert(step_views(a + b) =~= step_views(a) + step_views(b));
}

/// The steps that apply `profile`; with `require_all`, a failed CPU or GPU change
/// stops the start, otherwise it is only reported.
pub fn plan_start(require_all: bool, profile: &Profile) -> (r: Vec<StartStep>)
    ensures
        r@.map_values(|s: StartStep| s@) == start_plan(require_all, *profile),
{
    let mut r = cpu_start_steps(require_all, profile);
    let mut gpu = gpu_start_steps(require_all, profile);
    let ghost (a, b) = (r@, gpu@);
    r.append(&mut gpu);
    proof {
        lemma_step_views_append(a, b);
    }
    let ghost ab = r@;
    let mut hooks = match &profile.hooks {
        Some(h) => {
            let mut v = argv_hook_steps(&h.start);
            let mut w = shell_hook_steps(&h.start_sh);
            let ghost (va, wa) = (v@, w@);
            v.append(&mut w);
            proof {
                lemma_step_views_append(va, wa);
            }
            v
        },
        None => Vec::new(),
    };
    assert(step_views(hooks@) =~= hooks_start_plan(*profile));
    let ghost c = hooks@;
    r.append(&mut hooks);
    proof {
        lemma_step_views_append(ab, c);
    }
    let ghost abc = r@;
    let mut nice = nice_steps(profile);
    let ghost d = nice@;
    r.append(&mut nice);
    proof {
        lemma_step_views_append(abc, d);
    }
    r
}

/// What came back from performing a start step.
#[derive(Debug)]
pub enum Outcome {
    /// The notice was printed.
    Printed,
    /// `tuned-adm active` reported this profile (or none could be read).
    TunedActive(Option<String>),
    /// The GPU level read back (or none could be read).
    GpuLevel(Option<AmdGpuLevel>),
    /// The command's result, with the error's text.
    Ran(Result<(), String>),
}

/// How a start goes on after a step.
#[derive(Debug)]
pub enum Flow {
    Continue,
    /// Go on after printing this warning.
    Warn(String),
    /// Stop the start with this error.
    Abort(String),
}

/// `state` with the effect of a successful command marked in it.
pub open spec fn marked(state: RuntimeState, mark: Mark) -> RuntimeState {
    match mark {
        Mark::CpuApplied => RuntimeState { cpu_applied: true, ..state },
        Mark::GpuApplied => RuntimeState { gpu_applied: true, ..state },
        Mark::HooksRan => RuntimeState { start_hooks_ran: true, ..state },
    }
}

/// Each start command records, when it succeeds, exactly what a restore looks
/// at to undo it: switching the tuned profile records the CPU change, running
/// the GPU helper the GPU change, and a start hook that hooks ran; nothing else
/// in the state changes.
pub proof fn lemma_start_marks(require_all: bool, profile: Profile, state: RuntimeState, i: int)
    requires
        0 <= i < start_plan(require_all, profile).len(),
        start_plan(require_all, profile)[i] is Run,
    ensures
        ({
            let step = start_plan(require_all, profile)[i];
            let effect = step->Run_0;
            let after = marked(state, step->Run_2);
            &&& effect is SetTunedProfile ==> after == RuntimeState { cpu_applied: true, ..state }
            &&& effect is RunGpuctl ==> after == RuntimeState { gpu_applied: true, ..state }
            &&& (effect is RunArgv || effect is RunShell) ==> after == RuntimeState {
                start_hooks_ran: true,
                ..state
            }
        }),
{
    let c = cpu_start_plan(require_all, profile);
    let g = gpu_start_plan(require_all, profile);
    let h = hooks_start_plan(profile);
    let n = nice_start_plan(profile);
    let all = start_plan(require_all, profile);
    if i < c.len() {
        assert(all[i] == c[i]);
    } else if i < c.len() + g.len() {
        assert(all[i] == g[i - c.len()]);
    } else if i < c.len() + g.len() + h.len() {
        assert(all[i] == h[i - c.len() - g.len()]);
        match profile.hooks {
            Some(hk) => {
                let a = hk.start@.map_values(
                    |cmd: Vec<String>| StartStepView::Run(EffectView::RunArgv(texts(cmd@)), true, Mark::HooksRan),
                );
                let b = hk.start_sh@.map_values(
                    |cmd: String| StartStepView::Run(EffectView::RunShell(cmd@), true, Mark::HooksRan),
                );
                let m = i - c.len() - g.len();
                if m < a.len() {
                    assert(h[m] == a[m]);
                } else {
                    assert(h[m] == b[m - a.len()]);
                }
            },
            None => {},
        }
    } else {
        assert(all[i] == n[i - c.len() - g.len() - h.len()]);
    }
}

/// Records the outcome of a start step in `state` and decides how the start goes on.
pub fn apply_start_outcome(state: &mut RuntimeState, step: &StartStep, outcome: Outcome) -> (r: Flow)
    ensures
        match (step, outcome) {
            (StartStep::QueryTunedActive, Outcome::TunedActive(p)) => r is Continue
                && *final(state) == (RuntimeState { previous_tuned_profile: p, ..*old(state) }),
            (StartStep::ReadGpuLevel { .. }, Outcome::GpuLevel(Some(level))) => r is Continue
                && opt_text(final(state).previous_amdgpu_level) == Some(config::level_name(level))
                && *final(state) == (RuntimeState {
                    previous_amdgpu_level: final(state).previous_amdgpu_level,
                    ..*old(state)
                }),
            (StartStep::Run { mark, .. }, Outcome::Ran(Ok(()))) => r is Continue && *final(state)
                == marked(*old(state), *mark),
            (StartStep::Run { abort_on_failure, .. }, Outcome::Ran(Err(e))) => *final(state) == *old(
                state,
            ) && if *abort_on_failure {
                r == Flow::Abort(e)
            } else {
                r == Flow::Warn(e)
            },
            _ => r is Continue && *final(state) == *old(state),
        },
{
    match step {
        StartStep::QueryTunedActive => {
            if let Outcome::TunedActive(p) = outcome {
                state.previous_tuned_profile = p;
            }
            Flow::Continue
        },
        StartStep::ReadGpuLevel { .. } => {
            if let Outcome::GpuLevel(Some(level)) = outcome {
                state.previous_amdgpu_level = Some(level.as_str().to_owned());
            }
            Flow::Continue
        },
        StartStep::Run { abort_on_failure, mark, .. } => {
            match outcome {
                Outcome::Ran(Ok(())) => {
                    match mark {
                        Mark::CpuApplied => state.cpu_applied = true,
                        Mark::GpuApplied => state.gpu_applied = true,
                        Mark::HooksRan => state.start_hooks_ran = true,
                    }
                    Flow::Continue
                },
                Outcome::Ran(Err(e)) => {
                    if *abort_on_failure {
                        Flow::Abort(e)
                    } else {
                        Flow::Warn(e)
                    }
                },
                _ => Flow::Continue,
            }
        },
        StartStep::Notice { .. } => Flow::Continue,
    }
}


/// The profile a run uses and the state it starts from.
pub open spec fn is_fresh_state(st: RuntimeState, profile_name: Seq<char>) -> bool {
    &&& st.selected_profile@ == profile_name
    &&& st.previous_tuned_profile is None
    &&& st.previous_amdgpu_level is None
    &&& !st.cpu_applied
    &&& !st.gpu_applied
    &&& !st.start_hooks_ran
    &&& st.child_pid is None
    &&& st.child_pgid is None
}

/// The checks before a run: a valid profile name, a command, and a profile of
/// that name; then the profile and a state that records only its name.
pub fn prepare_run<'a>(cfg: &'a Config, profile_name: &str, argv: &[String]) -> (r: Result<
    (&'a Profile, RuntimeState),
    RunError,
>)
    ensures
        !config::valid_profile_name(profile_name@) ==> (r matches Err(
            RunError::InvalidProfileName { name },
        ) && name@ == profile_name@),
        config::valid_profile_name(profile_name@) && argv@.len() == 0 ==> r matches Err(
            RunError::MissingCommand,
        ),
        config::valid_profile_name(profile_name@) && argv@.len() > 0 && !config::has_key(
            cfg.profile.entries(),
            profile_name@,
        ) ==> (r matches Err(RunError::UnknownProfile { name }) && name@ == profile_name@),
        r matches Ok((p, st)) ==> ((exists|i: int|
            0 <= i < cfg.profile.entries().len() && #[trigger] cfg.profile.entries()[i].0@
                == profile_name@ && cfg.profile.entries()[i].1 == *p) && is_fresh_state(
            st,
            profile_name@,
        )),
        r is Ok <== config::valid_profile_name(profile_name@) && argv@.len() > 0 && config::has_key(
            cfg.profile.entries(),
            profile_name@,
        ),
{
    if config::validate_profile_name(profile_name).is_err() {
        return Err(RunError::InvalidProfileName { name: profile_name.to_owned() });
    }
    if argv.len() == 0 {
        return Err(RunError::MissingCommand);
    }
    match cfg.profile.get(profile_name) {
        Some(p) => {
            let mut st = RuntimeState::default();
            st.selected_profile = profile_name.to_owned();
            Ok((p, st))
        },
        None => Err(RunError::UnknownProfile { name: profile_name.to_owned() }),
    }
}

/// The `(key, value)` texts of assignments that all hold an `=`.
pub open spec fn env_pairs(raw: Seq<String>) -> Seq<(Seq<char>, Seq<char>)> {
    raw.map_values(|s: String| split_at_eq(s@).unwrap())
}

/// The texts of `(key, value)` pairs.
pub open spec fn pair_texts(v: Seq<(String, String)>) -> Seq<(Seq<char>, Seq<char>)> {
    v.map_values(|p: (String, String)| (p.0@, p.1@))
}

/// What to start: a program, its arguments, and variables to set for it.
#[derive(Debug)]
pub struct Launch {
    pub program: String,
    pub args: Vec<String>,
    pub env: Vec<(String, String)>,
}

proof fn lemma_env_pairs(raw: Seq<String>, pairs: Seq<(String, String)>)
    requires
        pairs.len() == raw.len(),
        forall|k: int|
            0 <= k < raw.len() ==> split_at_eq(#[trigger] raw[k]@) == Some((pairs[k].0@, pairs[k].1@)),
    ensures
        pair_texts(pairs) == env_pairs(raw),
{
    assert(pair_texts(pairs) =~= env_pairs(raw));
}

proof fn lemma_no_bad_env(raw: Seq<String>, i: int)
    requires
        0 <= i <= raw.len(),
        forall|k: int| i <= k < raw.len() ==> is_assignment(#[trigger] raw[k]@),
    ensures
        first_bad_env(raw, i) is None,
    decreases raw.len() - i,
{
    if i < raw.len() {
        lemma_no_bad_env(raw, i + 1);
    }
}

/// Splits a command line into the leading `KEY=VALUE` words and the command, and
/// gathers the variables to set: those of `--env` first, then the inline ones.
pub fn command_launch(argv: &[String], env_overrides: &[String]) -> (r: Result<Launch, RunError>)
    ensures
        ({
            let n = leading_end(argv@, 0);
            if n >= argv@.len() {
                r matches Err(RunError::MissingCommand)
            } else if first_bad_env(env_overrides@, 0) is Some {
                r matches Err(e) && reports_env_word(e, env_overrides@[first_bad_env(env_overrides@, 0)->0]@)
            } else {
                r matches Ok(l) && l.program == argv@[n] && l.args@ == argv@.subrange(n + 1, argv@.len() as int)
                    && pair_texts(l.env@) == env_pairs(env_overrides@) + env_pairs(argv@.subrange(0, n))
            }
        }),
{
    let inline_env = parse_leading_env_assignments(argv);
    let n = inline_env.len();
    proof {
        lemma_leading_end_bounds(argv@, 0);
        assert(n == leading_end(argv@, 0));
    }
    if n >= argv.len() {
        return Err(RunError::MissingCommand);
    }
    let overrides = match parse_env_assignments(env_overrides) {
        Ok(v) => v,
        Err(e) => return Err(e),
    };
    proof {
        assert forall|k: int| 0 <= k < inline_env@.len() implies is_assignment(#[trigger] inline_env@[k]@) by {
            assert(inline_env@[k] == argv@[k]);
        }
        lemma_no_bad_env(inline_env@, 0);
    }
    let inline_pairs = match parse_env_assignments(inline_env) {
        Ok(v) => v,
        Err(e) => return Err(e),
    };
    proof {
        lemma_env_pairs(env_overrides@, overrides@);
        lemma_env_pairs(inline_env@, inline_pairs@);
    }
    let mut env = overrides;
    let ghost first_part = env@;
    let mut i: usize = 0;
    while i < inline_pairs.len()
        invariant
            i <= inline_pairs@.len(),
            env@ == first_part + inline_pairs@.subrange(0, i as int),
        decreases inline_pairs@.len() - i,
    {
        let (k, v) = &inline_pairs[i];
        env.push((k.clone(), v.clone()));
        assert(inline_pairs@.subrange(0, i + 1) == inline_pairs@.subrange(0, i as int).push(inline_pairs@[i as int]));
        i = i + 1;
    }
    assert(inline_pairs@.subrange(0, inline_pairs@.len() as int) == inline_pairs@);
    assert(pair_texts(env@) =~= pair_texts(first_part) + pair_texts(inline_pairs@));
    let program = argv[n].clone();
    let mut args: Vec<String> = Vec::new();
    let mut j: usize = n + 1;
    while j < argv.len()
        invariant
            n < argv@.len(),
            n + 1 <= j <= argv@.len(),
            args@ == argv@.subrange(n + 1, j as int),
        decreases argv@.len() - j,
    {
        args.push(argv[j].clone());
        j = j + 1;
    }
    Ok(Launch { program, args, env })
}

/// How the child was last seen.
#[derive(Debug, Clone, Copy, PartialEq, Eq, Structural)]
pub enum ChildStatus {
    Running,
    Exited(i32),
    /// Killed by the signal with this number.
    Signaled(u8),
    /// Stopped, continued or traced: still there.
    Other,
}

/// The exit code to pass on once the child is gone: its own code, or 128 plus
/// the number of the signal that killed it.
pub fn exit_code(status: ChildStatus) -> (r: Option<i32>)
    ensures
        r == match status {
            ChildStatus::Exited(c) => Some(c),
            ChildStatus::Signaled(s) => Some((128 + s) as i32),
            _ => None,
        },
{
    match status {
        ChildStatus::Exited(c) => Some(c),
        ChildStatus::Signaled(s) => Some(128 + s as i32),
        _ => None,
    }
}

/// The configured poll interval in milliseconds; 700 when none is set.
pub open spec fn configured_poll_ms(cfg: Config) -> u64 {
    match cfg.global.poll_interval_ms {
        Some(ms) => ms,
        None => 700,
    }
}

/// How long to sleep between checks of the child, in milliseconds.
pub fn poll_interval_ms(cfg: &Config) -> (r: u64)
    ensures
        r == configured_poll_ms(*cfg),
{
    match cfg.global.poll_interval_ms {
        Some(ms) => ms,
        None => 700,
    }
}

/// Whether the descendants are due to be reniced, `elapsed_ms` after the last scan.
pub fn renice_due(process: &Option<ProcessConfig>, elapsed_ms: u64) -> (r: bool)
    ensures
        r == (process matches Some(pc) && pc.renice_descendants && elapsed_ms >= pc.renice_interval_ms),
{
    match process {
        Some(pc) => pc.renice_descendants && elapsed_ms >= pc.renice_interval_ms,
        None => false,
    }
}


/// How long, at most, to wait for the rest of the launched process group once
/// the direct child is gone, in milliseconds.
pub const GROUP_WAIT_MS: u64 = 5000;

/// After the direct child is gone: how long to sleep before looking at its
/// process group again, or `None` to stop waiting and restore. The wait goes on
/// while a member of the group lives and `GROUP_WAIT_MS` have not passed since
/// the child was found gone; a sleep is one poll interval, cut to what is left.
pub fn group_wait_step(cfg: &Config, group_alive: bool, elapsed_ms: u64) -> (r: Option<u64>)
    ensures
        r == (if group_alive && elapsed_ms < GROUP_WAIT_MS {
            let left = (GROUP_WAIT_MS - elapsed_ms) as u64;
            Some(if configured_poll_ms(*cfg) < left { configured_poll_ms(*cfg) } else { left })
        } else {
            None
        }),
{
    if group_alive && elapsed_ms < GROUP_WAIT_MS {
        let left = GROUP_WAIT_MS - elapsed_ms;
        let poll = poll_interval_ms(cfg);
        if poll < left {
            Some(poll)
        } else {
            Some(left)
        }
    } else {
        None
    }
}

/// The stages of a run once its checks have passed, in the order they happen.
#[derive(Debug, Clone, Copy, PartialEq, Eq, Structural)]
pub enum RunStage {
    /// Applying the profile's start steps.
    Starting,
    /// Reading the command and the environment to launch it with.
    Launching,
    /// Starting the child in a process group of its own.
    Spawning,
    /// Setting the child's priority.
    Renicing,
    /// Watching the child, passing signals on and renicing its descendants.
    Watching,
}

/// What the work of a stage came to.
#[derive(Debug)]
pub enum RunEvent {
    /// The stage's work succeeded (while watching: the child is gone).
    StageDone,
    /// A start step stopped the start with this error.
    StartFailed { error: String },
    /// The command or an environment assignment was refused.
    LaunchRefused { reason: RunError },
    /// The child could not be started.
    SpawnFailed { program: String, error: String },
    /// Setting the child's priority to `nice` failed.
    ChildReniceFailed { nice: i32, error: String },
    /// Setting the priority of a descendant failed.
    DescendantReniceFailed { error: String },
}

/// What the driver of a run does next.
#[derive(Debug)]
pub enum RunAction {
    /// Go on with this stage.
    Proceed(RunStage),
    /// Print this warning, then go on with this stage.
    Warn { warning: String, next: RunStage },
    /// End the run with this error: restore first when `restore` is set, and
    /// remove the state file when `remove_state_file` is set.
    Stop { restore: bool, remove_state_file: bool, error: String },
    /// The child is gone: wait for its process group, restore, remove the state
    /// file, and pass its exit code on.
    Finish,
}

/// A `RunAction` with its texts as character sequences.
pub enum RunActionView {
    Proceed(RunStage),
    Warn(Seq<char>, RunStage),
    Stop(bool, bool, Seq<char>),
    Finish,
}

impl View for RunAction {
    type V = RunActionView;

    open spec fn view(&self) -> RunActionView {
        match self {
            RunAction::Proceed(s) => RunActionView::Proceed(*s),
            RunAction::Warn { warning, next } => RunActionView::Warn(warning@, *next),
            RunAction::Stop { restore, remove_state_file, error } => RunActionView::Stop(
                *restore,
                *remove_state_file,
                error@,
            ),
            RunAction::Finish => RunActionView::Finish,
        }
    }
}

/// What follows a stage whose work succeeded. The child is reniced only when
/// the profile has a process block.
pub open spec fn stage_after(stage: RunStage, profile: Profile) -> RunActionView {
    match stage {
        RunStage::Starting => RunActionView::Proceed(RunStage::Launching),
        RunStage::Launching => RunActionView::Proceed(RunStage::Spawning),
        RunStage::Spawning => if profile.process is Some {
            RunActionView::Proceed(RunStage::Renicing)
        } else {
            RunActionView::Proceed(RunStage::Watching)
        },
        RunStage::Renicing => RunActionView::Proceed(RunStage::Watching),
        RunStage::Watching => RunActionView::Finish,
    }
}

/// How a run answers an event:
/// - a failed start is undone and its state file removed;
/// - a refused launch (a bad `--env` word, or no command after the inline
///   assignments) is undone and its state file removed, since the start has
///   already applied the profile;
/// - a failed spawn is undone (the state file stays);
/// - a failed renice of the child ends the run, undone, under `require_all`,
///   and is only a warning otherwise;
/// - a failed renice of a descendant ends the run, undone, under `require_all`,
///   and is passed over otherwise.
pub open spec fn run_step_action(require_all: bool, profile: Profile, stage: RunStage, event: RunEvent) -> RunActionView {
    match event {
        RunEvent::StageDone => stage_after(stage, profile),
        RunEvent::StartFailed { error } => RunActionView::Stop(true, true, "startup apply failed: "@ + error@),
        RunEvent::LaunchRefused { reason } => RunActionView::Stop(true, true, run_error_text(reason)),
        RunEvent::SpawnFailed { program, error } => RunActionView::Stop(
            true,
            false,
            "failed to spawn "@ + program@ + ": "@ + error@,
        ),
        RunEvent::ChildReniceFailed { nice, error } => if require_all {
            RunActionView::Stop(true, false, "failed to set process priority: "@ + error@)
        } else {
            RunActionView::Warn(
                "warning: failed to set nice="@ + text::signed_decimal(nice as int) + ": "@ + error@,
                RunStage::Watching,
            )
        },
        RunEvent::DescendantReniceFailed { error } => if require_all {
            RunActionView::Stop(true, false, "failed to renice descendant: "@ + error@)
        } else {
            RunActionView::Proceed(RunStage::Watching)
        },
    }
}

/// The stages of a run follow one another in this order as each succeeds:
/// starting, launching, spawning, renicing (only when the profile has a process
/// block), watching; once the child is gone the run finishes.
pub proof fn lemma_stage_order(require_all: bool, profile: Profile)
    ensures
        run_step_action(require_all, profile, RunStage::Starting, RunEvent::StageDone) == RunActionView::Proceed(
            RunStage::Launching,
        ),
        run_step_action(require_all, profile, RunStage::Launching, RunEvent::StageDone) == RunActionView::Proceed(
            RunStage::Spawning,
        ),
        profile.process is Some ==> run_step_action(require_all, profile, RunStage::Spawning, RunEvent::StageDone)
            == RunActionView::Proceed(RunStage::Renicing),
        profile.process is None ==> run_step_action(require_all, profile, RunStage::Spawning, RunEvent::StageDone)
            == RunActionView::Proceed(RunStage::Watching),
        run_step_action(require_all, profile, RunStage::Renicing, RunEvent::StageDone) == RunActionView::Proceed(
            RunStage::Watching,
        ),
        run_step_action(require_all, profile, RunStage::Watching, RunEvent::StageDone) == RunActionView::Finish,
{
}

/// A run that stops early always undoes what its start applied: every stop
/// restores, so the tuning is never left in place.
pub proof fn lemma_every_stop_restores(require_all: bool, profile: Profile, stage: RunStage, event: RunEvent)
    ensures
        run_step_action(require_all, profile, stage, event) matches RunActionView::Stop(restore, _, _)
            ==> restore,
{
}

/// Decides what a run does after the work of `stage` came to `event`.
pub fn run_step(cfg: &Config, profile: &Profile, stage: RunStage, event: RunEvent) -> (r: RunAction)
    ensures
        r@ == run_step_action(cfg.global.require_all, *profile, stage, event),
{
    match event {
        RunEvent::StageDone => match stage {
            RunStage::Starting => RunAction::Proceed(RunStage::Launching),
            RunStage::Launching => RunAction::Proceed(RunStage::Spawning),
            RunStage::Spawning => {
                if profile.process.is_some() {
                    RunAction::Proceed(RunStage::Renicing)
                } else {
                    RunAction::Proceed(RunStage::Watching)
                }
            },
            RunStage::Renicing => RunAction::Proceed(RunStage::Watching),
            RunStage::Watching => RunAction::Finish,
        },
        RunEvent::StartFailed { error } => {
            let mut e = "startup apply failed: ".to_owned();
            e.append(error.as_str());
            RunAction::Stop { restore: true, remove_state_file: true, error: e }
        },
        RunEvent::LaunchRefused { reason } => RunAction::Stop {
            restore: true,
            remove_state_file: true,
            error: reason.message(),
        },
        RunEvent::SpawnFailed { program, error } => {
            let mut e = "failed to spawn ".to_owned();
            e.append(program.as_str());
            e.append(": ");
            e.append(error.as_str());
            RunAction::Stop { restore: true, remove_state_file: false, error: e }
        },
        RunEvent::ChildReniceFailed { nice, error } => {
            if cfg.global.require_all {
                let mut e = "failed to set process priority: ".to_owned();
                e.append(error.as_str());
                RunAction::Stop { restore: true, remove_state_file: false, error: e }
            } else {
                let mut w = "warning: failed to set nice=".to_owned();
                text::push_signed_decimal(&mut w, nice as i64);
                w.append(": ");
                w.append(error.as_str());
                RunAction::Warn { warning: w, next: RunStage::Watching }
            }
        },
        RunEvent::DescendantReniceFailed { error } => {
            if cfg.global.require_all {
                let mut e = "failed to renice descendant: ".to_owned();
                e.append(error.as_str());
                RunAction::Stop { restore: true, remove_state_file: false, error: e }
            } else {
                RunAction::Proceed(RunStage::Watching)
            }
        },
    }
}

/// The text of a launch error.
pub open spec fn run_error_text(e: RunError) -> Seq<char> {
    match e {
        RunError::InvalidProfileName { name } => "invalid profile name '"@ + name@ + "'"@,
        RunError::MissingCommand => "missing command"@,
        RunError::UnknownProfile { name } => "unknown profile '"@ + name@ + "'"@,
        RunError::MalformedEnv { item } => "invalid --env '"@ + item@ + "', expected KEY=VALUE"@,
        RunError::InvalidEnvKey { key } => "invalid environment variable name '"@ + key@ + "'"@,
    }
}

impl RunError {
    /// The error as a sentence.
    pub fn message(&self) -> (r: String)
        ensures
            r@ == run_error_text(*self),
    {
        match self {
            RunError::InvalidProfileName { name } => {
                let mut r = "invalid profile name '".to_owned();
                r.append(name.as_str());
                r.append("'");
                r
            },
            RunError::MissingCommand => "missing command".to_owned(),
            RunError::UnknownProfile { name } => {
                let mut r = "unknown profile '".to_owned();
                r.append(name.as_str());
                r.append("'");
                r
            },
            RunError::MalformedEnv { item } => {
                let mut r = "invalid --env '".to_owned();
                r.append(item.as_str());
                r.append("', expected KEY=VALUE");
                r
            },
            RunError::InvalidEnvKey { key } => {
                let mut r = "invalid environment variable name '".to_owned();
                r.append(key.as_str());
                r.append("'");
                r
            },
        }
    }
}

/// Where the privileged GPU helper is installed.
pub fn helper_path() -> (r: &'static str)
    ensures
        r@ == config::GPUCTL_PATH@,
{
    config::GPUCTL_PATH
}


/// The end of the text of the line that starts at `i`: a `\r` before the `\n`
/// does not belong to it (as `str::lines` splits).
pub open spec fn line_text_end(s: Seq<char>, i: int) -> int {
    let e = crate::system::line_end(s, i);
    if e < s.len() && e > i && s[e - 1] == '\r' {
        e - 1
    } else {
        e
    }
}

/// The first position in `i..hi` holding `:`, or `hi`.
pub open spec fn field_end(s: Seq<char>, i: int, hi: int) -> int
    decreases hi - i,
{
    if i < hi && s[i] != ':' {
        field_end(s, i + 1, hi)
    } else {
        i
    }
}

/// For the `/etc/group` line `s[lo..hi]`: `None` when it is not the group
/// `name`; otherwise the gid its third `:`-separated field gives, if it reads as one.
pub open spec fn gid_in_line(s: Seq<char>, lo: int, hi: int, name: Seq<char>) -> Option<Option<u32>> {
    let f1 = field_end(s, lo, hi);
    if s.subrange(lo, f1) != name {
        None
    } else if f1 >= hi {
        Some(None)
    } else {
        let f2 = field_end(s, f1 + 1, hi);
        if f2 >= hi {
            Some(None)
        } else {
            Some(crate::procutil::parse_u32_text(s.subrange(f2 + 1, field_end(s, f2 + 1, hi))))
        }
    }
}

/// The gid of the group `name` in the `/etc/group` content `s`, looking at the
/// lines from position `i` on: the first line of that group decides.
pub open spec fn group_gid_from(s: Seq<char>, i: int, name: Seq<char>) -> Option<u32>
    decreases s.len() - i,
{
    if i < 0 || i >= s.len() {
        None
    } else {
        let e = crate::system::line_end(s, i);
        match gid_in_line(s, i, line_text_end(s, i), name) {
            Some(r) => r,
            None => if i <= e < s.len() {
                group_gid_from(s, e + 1, name)
            } else {
                None
            },
        }
    }
}

proof fn lemma_field_end_at(s: Seq<char>, i: int, j: int, hi: int)
    requires
        0 <= i <= j <= hi <= s.len(),
        forall|k: int| i <= k < j ==> s[k] != ':',
        j == hi || s[j] == ':',
    ensures
        field_end(s, i, hi) == j,
    decreases j - i,
{
    if i < j {
        lemma_field_end_at(s, i + 1, j, hi);
    }
}

/// An `/etc/group` content whose first line is `hoist:<password>:<gid>:<members>`
/// gives exactly that gid, whatever follows, when the password field has no
/// `:` and neither field holds a line break.
pub proof fn lemma_group_line_gives_gid(password: Seq<char>, gid: u32, members: Seq<char>, rest: Seq<char>)
    requires
        forall|k: int| 0 <= k < password.len() ==> password[k] != ':' && password[k] != '\n',
        forall|k: int| 0 <= k < members.len() ==> members[k] != '\n',
    ensures
        group_gid_from(
            "hoist:"@ + password + ":"@ + text::decimal(gid as nat) + ":"@ + members + "\n"@ + rest,
            0,
            "hoist"@,
        ) == Some(gid),
{
    reveal_strlit("hoist:");
    reveal_strlit("hoist");
    reveal_strlit(":");
    reveal_strlit("\n");
    let d = text::decimal(gid as nat);
    text::lemma_decimal_digits(gid as nat);
    crate::procutil::lemma_parse_reads_back(0, gid);
    let line = "hoist:"@ + password + ":"@ + d + ":"@ + members;
    let s = line + "\n"@ + rest;
    let p1 = 5int;
    let p2: int = password.len() + 6int;
    let p3: int = p2 + 1 + d.len();
    let len = line.len() as int;
    assert(len == p3 + 1 + members.len());
    assert forall|k: int| 0 <= k < len implies s[k] != '\n' by {
        assert(s[k] == line[k]);
        if 6 <= k < p2 {
            assert(line[k] == password[k - 6]);
        } else if p2 < k < p3 {
            assert(line[k] == d[k - p2 - 1]);
        } else if k > p3 {
            assert(line[k] == members[k - p3 - 1]);
        }
    }
    assert(s[len] == '\n');
    crate::system::lemma_line_end(s, 0);
    let e = crate::system::line_end(s, 0);
    if e < len {
        assert(s[e] != '\n');
    }
    assert(e == len);
    let hi = line_text_end(s, 0);
    assert(p3 < hi <= len);
    assert(s[p1] == ':');
    lemma_field_end_at(s, 0, p1, hi);
    assert(s.subrange(0, p1) =~= "hoist"@);
    assert(s[p2] == ':');
    assert forall|k: int| p1 + 1 <= k < p2 implies s[k] != ':' by {
        assert(s[k] == password[k - 6]);
    }
    lemma_field_end_at(s, p1 + 1, p2, hi);
    assert(s[p3] == ':');
    assert forall|k: int| p2 + 1 <= k < p3 implies s[k] != ':' by {
        assert(s[k] == d[k - p2 - 1]);
        assert(text::is_ascii_digit(d[k - p2 - 1]));
    }
    lemma_field_end_at(s, p2 + 1, p3, hi);
    assert(s.subrange(p2 + 1, p3) =~= d);
}

fn field_end_exec(v: &Vec<char>, i: usize, hi: usize) -> (r: usize)
    requires
        i <= hi <= v.len(),
    ensures
        r == field_end(v@, i as int, hi as int),
        i <= r <= hi,
{
    let mut j = i;
    while j < hi && v[j] != ':'
        invariant
            i <= j <= hi <= v@.len(),
            field_end(v@, i as int, hi as int) == field_end(v@, j as int, hi as int),
        decreases hi - j,
    {
        j = j + 1;
    }
    j
}

fn same_chars(v: &Vec<char>, lo: usize, hi: usize, w: &Vec<char>) -> (r: bool)
    requires
        lo <= hi <= v.len(),
    ensures
        r == (v@.subrange(lo as int, hi as int) == w@),
{
    let mut part: Vec<char> = Vec::new();
    let mut k = lo;
    while k < hi
        invariant
            lo <= k <= hi <= v@.len(),
            part@ == v@.subrange(lo as int, k as int),
        decreases hi - k,
    {
        part.push(v[k]);
        k = k + 1;
    }
    text::chars_eq(&part, w)
}

/// The gid of the `hoist` group in the `/etc/group` content `content`.
pub fn group_hoist_gid(content: &str) -> (r: Option<u32>)
    ensures
        r == group_gid_from(content@, 0, "hoist"@),
{
    let v = text::chars_of(content);
    let name = text::chars_of("hoist");
    let mut i: usize = 0;
    while i < v.len()
        invariant
            v@ == content@,
            name@ == "hoist"@,
            i <= v@.len() + 1,
            group_gid_from(content@, 0, "hoist"@) == group_gid_from(content@, i as int, "hoist"@),
        decreases v@.len() + 1 - i,
    {
        let mut e = i;
        while e < v.len() && v[e] != '\n'
            invariant
                i <= e <= v@.len(),
                crate::system::line_end(v@, i as int) == crate::system::line_end(v@, e as int),
            decreases v@.len() - e,
        {
            e = e + 1;
        }
        let hi = if e < v.len() && e > i && v[e - 1] == '\r' {
            e - 1
        } else {
            e
        };
        let f1 = field_end_exec(&v, i, hi);
        if same_chars(&v, i, f1, &name) {
            if f1 >= hi {
                return None;
            }
            let f2 = field_end_exec(&v, f1 + 1, hi);
            if f2 >= hi {
                return None;
            }
            let f3 = field_end_exec(&v, f2 + 1, hi);
            return crate::procutil::parse_u32(content.substring_char(f2 + 1, f3));
        }
        if e >= v.len() {
            return None;
        }
        i = e + 1;
    }
    None
}

/// Whether the user belongs to the `hoist` group: its primary group is root's,
/// or one of its groups has the gid of `hoist` (never, when that gid is unknown).
pub fn in_hoist_group(primary_gid: u32, groups: &Vec<u32>, hoist_gid: Option<u32>) -> (r: bool)
    ensures
        r == (primary_gid == 0 || groups@.contains(
            match hoist_gid {
                Some(g) => g,
                None => u32::MAX,
            },
        )),
{
    if primary_gid == 0 {
        return true;
    }
    let target = match hoist_gid {
        Some(g) => g,
        None => u32::MAX,
    };
    let mut i: usize = 0;
    while i < groups.len()
        invariant
            i <= groups@.len(),
            primary_gid != 0,
            target == match hoist_gid {
                Some(g) => g,
                None => u32::MAX,
            },
            forall|k: int| 0 <= k < i ==> groups@[k] != target,
        decreases groups@.len() - i,
    {
        if groups[i] == target {
            assert(groups@[i as int] == target);
            assert(groups@.contains(target));
            return true;
        }
        i = i + 1;
    }
    false
}

} // verus!
