use vstd::prelude::*;
use crate::text;

verus! {

/// The system-wide configuration file.
pub const SYSTEM_CONFIG: &'static str = "/etc/hoist/default.toml";

/// The privileged helper that changes the GPU performance level.
pub const GPUCTL_PATH: &'static str = "/usr/libexec/hoist-gpuctl";

/// Where the configuration file is looked for, and which one was chosen.
#[derive(Debug, Clone)]
pub struct ConfigPaths {
    pub system: String,
    pub user: String,
    pub selected: String,
    pub system_exists: bool,
    pub user_exists: bool,
}

/// The whole configuration file.
#[derive(Debug)]
pub struct Config {
    pub global: Global,
    pub profile: ProfileMap,
}

/// The `[global]` table.
#[derive(Debug, Clone)]
pub struct Global {
    pub poll_interval_ms: Option<u64>,
    pub require_all: bool,
    pub log_level: Option<String>,
    pub default_profile: String,
    pub helper_timeout_secs: Option<u64>,
}

/// One `[profile.NAME]` table.
#[derive(Debug, Clone)]
pub struct Profile {
    pub cpu: Option<CpuConfig>,
    pub gpu: Option<GpuConfig>,
    pub process: Option<ProcessConfig>,
    pub hooks: Option<Hooks>,
}

/// CPU tuning through `tuned-adm`.
#[derive(Debug, Clone)]
pub struct CpuConfig {
    pub enabled: Option<bool>,
    pub enter_profile: String,
    pub restore_previous: bool,
    pub restore_to_profile: Option<String>,
    pub fallback_exit_profile: Option<String>,
}

/// AMDGPU performance-level tuning through the privileged helper.
#[derive(Debug, Clone)]
pub struct GpuConfig {
    pub enabled: Option<bool>,
    pub kind: GpuKind,
    pub card: u32,
    pub enter_level: AmdGpuLevel,
    pub restore_previous: bool,
    pub restore_to_level: Option<AmdGpuLevel>,
    pub fallback_exit_level: Option<AmdGpuLevel>,
}

impl CpuConfig {
    /// CPU tuning is on unless `enabled = false` is written.
    pub fn enabled(&self) -> (r: bool)
        ensures
            r == (self.enabled != Some(false)),
    {
        match self.enabled {
            Some(b) => b,
            None => true,
        }
    }
}

impl GpuConfig {
    /// GPU tuning is off unless `enabled = true` is written.
    pub fn enabled(&self) -> (r: bool)
        ensures
            r == (self.enabled == Some(true)),
    {
        match self.enabled {
            Some(b) => b,
            None => false,
        }
    }
}

/// The GPU driver family.
#[derive(Debug, Clone, Copy, PartialEq, Eq, Structural)]
pub enum GpuKind {
    Amdgpu,
}

/// The values of `power_dpm_force_performance_level`.
#[derive(Debug, Clone, Copy, PartialEq, Eq, Structural)]
pub enum AmdGpuLevel {
    Auto,
    Low,
    High,
    Manual,
    ProfileStandard,
    ProfileMinSclk,
    ProfileMinMclk,
    ProfilePeak,
}

/// The sysfs spelling of a level.
pub open spec fn level_name(level: AmdGpuLevel) -> Seq<char> {
    match level {
        AmdGpuLevel::Auto => "auto"@,
        AmdGpuLevel::Low => "low"@,
        AmdGpuLevel::High => "high"@,
        AmdGpuLevel::Manual => "manual"@,
        AmdGpuLevel::ProfileStandard => "profile_standard"@,
        AmdGpuLevel::ProfileMinSclk => "profile_min_sclk"@,
        AmdGpuLevel::ProfileMinMclk => "profile_min_mclk"@,
        AmdGpuLevel::ProfilePeak => "profile_peak"@,
    }
}

/// The level whose sysfs spelling is exactly `t`, if any.
pub open spec fn level_named(t: Seq<char>) -> Option<AmdGpuLevel> {
    if t == "auto"@ {
        Some(AmdGpuLevel::Auto)
    } else if t == "low"@ {
        Some(AmdGpuLevel::Low)
    } else if t == "high"@ {
        Some(AmdGpuLevel::High)
    } else if t == "manual"@ {
        Some(AmdGpuLevel::Manual)
    } else if t == "profile_standard"@ {
        Some(AmdGpuLevel::ProfileStandard)
    } else if t == "profile_min_sclk"@ {
        Some(AmdGpuLevel::ProfileMinSclk)
    } else if t == "profile_min_mclk"@ {
        Some(AmdGpuLevel::ProfileMinMclk)
    } else if t == "profile_peak"@ {
        Some(AmdGpuLevel::ProfilePeak)
    } else {
        None
    }
}

impl AmdGpuLevel {
    /// The sysfs spelling of this level.
    pub fn as_str(&self) -> (r: &'static str)
        ensures
            r@ == level_name(*self),
    {
        match self {
            AmdGpuLevel::Auto => "auto",
            AmdGpuLevel::Low => "low",
            AmdGpuLevel::High => "high",
            AmdGpuLevel::Manual => "manual",
            AmdGpuLevel::ProfileStandard => "profile_standard",
            AmdGpuLevel::ProfileMinSclk => "profile_min_sclk",
            AmdGpuLevel::ProfileMinMclk => "profile_min_mclk",
            AmdGpuLevel::ProfilePeak => "profile_peak",
        }
    }

    /// Reads a level as sysfs prints it; surrounding whitespace is ignored.
    pub fn parse_sysfs(s: &str) -> (r: Option<AmdGpuLevel>)
        ensures
            r == level_named(text::trimmed(s@)),
    {
        let t = text::trim(s);
        if text::text_eq(t, "auto") {
            Some(AmdGpuLevel::Auto)
        } else if text::text_eq(t, "low") {
            Some(AmdGpuLevel::Low)
        } else if text::text_eq(t, "high") {
            Some(AmdGpuLevel::High)
        } else if text::text_eq(t, "manual") {
            Some(AmdGpuLevel::Manual)
        } else if text::text_eq(t, "profile_standard") {
            Some(AmdGpuLevel::ProfileStandard)
        } else if text::text_eq(t, "profile_min_sclk") {
            Some(AmdGpuLevel::ProfileMinSclk)
        } else if text::text_eq(t, "profile_min_mclk") {
            Some(AmdGpuLevel::ProfileMinMclk)
        } else if text::text_eq(t, "profile_peak") {
            Some(AmdGpuLevel::ProfilePeak)
        } else {
            None
        }
    }
}

/// Reading a level accepts nothing but the eight sysfs names: whatever text a
/// level is read from is, once trimmed, that level's name.
pub proof fn lemma_level_named_only_names(t: Seq<char>)
    ensures
        level_named(t) matches Some(l) ==> level_name(l) == t,
{
}

/// Reading back what `as_str` wrote gives the same level, also with the
/// newline that sysfs appends.
pub proof fn lemma_level_name_roundtrip(level: AmdGpuLevel)
    ensures
        level_named(text::trimmed(level_name(level))) == Some(level),
        level_named(text::trimmed(level_name(level).push('\n'))) == Some(level),
{
    reveal_strlit("auto");
    reveal_strlit("low");
    reveal_strlit("high");
    reveal_strlit("manual");
    reveal_strlit("profile_standard");
    reveal_strlit("profile_min_sclk");
    reveal_strlit("profile_min_mclk");
    reveal_strlit("profile_peak");
    let n = level_name(level);
    let (a, b, c, d) = ("profile_standard"@, "profile_min_sclk"@, "profile_min_mclk"@, "profile_peak"@);
    assert(a[8] != b[8] && a[8] != c[8] && b[12] != c[12]);
    assert("auto"@[0] != "high"@[0]);
    assert(n.len() > 0 && !text::is_space(n[0]) && !text::is_space(n.last()));
    assert(text::trim_start(n) == n);
    assert(text::trim_end(n) == n);
    let m = n.push('\n');
    assert(m[0] == n[0]);
    assert(text::trim_start(m) == m);
    assert(m.drop_last() == n);
    assert(text::trim_end(m) == n);
}

/// Process priority settings for the launched command.
#[derive(Debug, Clone)]
pub struct ProcessConfig {
    pub nice: i32,
    pub renice_descendants: bool,
    pub renice_interval_ms: u64,
}

/// Commands run before the launched command starts and after it ends.
#[derive(Debug, Clone)]
pub struct Hooks {
    pub start: Vec<Vec<String>>,
    pub stop: Vec<Vec<String>>,
    pub start_sh: Vec<String>,
    pub stop_sh: Vec<String>,
}


/// Keys strictly increasing in text order: sorted, and no key twice.
pub open spec fn keys_sorted(es: Seq<(String, Profile)>) -> bool {
    forall|i: int, j: int| 0 <= i < j < es.len() ==> text::text_lt(#[trigger] es[i].0@, #[trigger] es[j].0@)
}

/// Whether some entry has the key `k`.
pub open spec fn has_key(es: Seq<(String, Profile)>, k: Seq<char>) -> bool {
    exists|i: int| 0 <= i < es.len() && #[trigger] es[i].0@ == k
}

/// A position where the key `k` is stored, if there is one.
pub open spec fn key_index(es: Seq<(String, Profile)>, k: Seq<char>) -> int {
    choose|i: int| 0 <= i < es.len() && #[trigger] es[i].0@ == k
}

/// The profile stored under `k`, if any.
pub open spec fn lookup(es: Seq<(String, Profile)>, k: Seq<char>) -> Option<Profile> {
    if has_key(es, k) {
        Some(es[key_index(es, k)].1)
    } else {
        None
    }
}

/// In sorted entries a key occurs once.
pub proof fn lemma_sorted_unique(es: Seq<(String, Profile)>, i: int, j: int)
    requires
        keys_sorted(es),
        0 <= i < es.len(),
        0 <= j < es.len(),
        es[i].0@ == es[j].0@,
    ensures
        i == j,
{
    text::lemma_text_lt_irreflexive(es[i].0@);
    if i < j {
        assert(text::text_lt(es[i].0@, es[j].0@));
    } else if j < i {
        assert(text::text_lt(es[j].0@, es[i].0@));
    }
}

/// In sorted entries, the entry at `i` is what `lookup` finds for its key.
pub proof fn lemma_lookup_at(es: Seq<(String, Profile)>, i: int)
    requires
        keys_sorted(es),
        0 <= i < es.len(),
    ensures
        lookup(es, es[i].0@) == Some(es[i].1),
{
    let k = es[i].0@;
    assert(has_key(es, k));
    let j = key_index(es, k);
    assert(0 <= j < es.len() && es[j].0@ == k);
    lemma_sorted_unique(es, i, j);
}

/// The profiles by name, in the order of their names, no name twice (what a
/// `BTreeMap<String, Profile>` holds). They are kept in a sorted vector: vstd
/// specifies `BTreeMap` only for keys whose ordering it proves lawful, which
/// covers integers, references, options and tuples but not `String`.
#[derive(Debug)]
pub struct ProfileMap {
    entries: Vec<(String, Profile)>,
}

impl ProfileMap {
    /// The entries in key order.
    pub closed spec fn entries(self) -> Seq<(String, Profile)> {
        self.entries@
    }

    #[verifier::type_invariant]
    spec fn sorted(self) -> bool {
        keys_sorted(self.entries@)
    }

    /// The map with no profile.
    pub fn new() -> (m: ProfileMap)
        ensures
            m.entries().len() == 0,
    {
        ProfileMap { entries: Vec::new() }
    }

    /// The number of profiles.
    pub fn len(&self) -> (n: usize)
        ensures
            n == self.entries().len(),
    {
        self.entries.len()
    }

    /// The `i`-th profile in key order, with its name.
    pub fn entry(&self, i: usize) -> (e: (&String, &Profile))
        requires
            i < self.entries().len(),
        ensures
            *e.0 == self.entries()[i as int].0,
            *e.1 == self.entries()[i as int].1,
    {
        (&self.entries[i].0, &self.entries[i].1)
    }

    /// The position of `name`, if present.
    fn find(&self, name: &str) -> (r: Option<usize>)
        ensures
            match r {
                Some(i) => i < self.entries().len() && self.entries()[i as int].0@ == name@,
                None => !has_key(self.entries(), name@),
            },
    {
        let mut i: usize = 0;
        while i < self.entries.len()
            invariant
                i <= self.entries@.len(),
                forall|k: int| 0 <= k < i ==> #[trigger] self.entries@[k].0@ != name@,
            decreases self.entries@.len() - i,
        {
            if text::text_eq(self.entries[i].0.as_str(), name) {
                return Some(i);
            }
            i = i + 1;
        }
        None
    }

    /// Whether a profile named `name` is present.
    pub fn contains_key(&self, name: &str) -> (r: bool)
        ensures
            r == has_key(self.entries(), name@),
    {
        self.find(name).is_some()
    }

    /// The profile named `name`, if present.
    pub fn get(&self, name: &str) -> (r: Option<&Profile>)
        ensures
            match r {
                Some(p) => (exists|i: int|
                    0 <= i < self.entries().len() && #[trigger] self.entries()[i].0@ == name@
                        && self.entries()[i].1 == *p) && lookup(self.entries(), name@) == Some(*p),
                None => !has_key(self.entries(), name@) && lookup(self.entries(), name@) is None,
            },
    {
        proof {
            use_type_invariant(self);
        }
        match self.find(name) {
            Some(i) => {
                proof {
                    lemma_lookup_at(self.entries@, i as int);
                }
                Some(&self.entries[i].1)
            },
            None => None,
        }
    }

    /// Adds `profile` under `name`, replacing and returning a profile already
    /// there; the other entries stay, in key order.
    pub fn insert(&mut self, name: String, profile: Profile) -> (r: Option<Profile>)
        ensures
            match r {
                Some(old_profile) => exists|i: int|
                    0 <= i < old(self).entries().len() && #[trigger] old(self).entries()[i].0@
                        == name@ && old(self).entries()[i].1 == old_profile
                        && final(self).entries() == old(self).entries().update(i, (name, profile)),
                None => !has_key(old(self).entries(), name@) && exists|i: int|
                    0 <= i <= old(self).entries().len() && final(self).entries()
                        == old(self).entries().insert(i, (name, profile)),
            },
            r == lookup(old(self).entries(), name@),
            lookup(final(self).entries(), name@) == Some(profile),
            forall|k: Seq<char>|
                k != name@ ==> #[trigger] lookup(final(self).entries(), k) == lookup(
                    old(self).entries(),
                    k,
                ),
    {
        proof {
            use_type_invariant(&*self);
        }
        let mut es: Vec<(String, Profile)> = Vec::new();
        std::mem::swap(&mut es, &mut self.entries);
        let ghost old_es = es@;
        let key = text::chars_of(name.as_str());
        let mut i: usize = 0;
        let mut found = false;
        let mut stop = false;
        while i < es.len() && !stop
            invariant
                es@ == old_es,
                keys_sorted(old_es),
                key@ == name@,
                i <= es@.len(),
                forall|k: int| 0 <= k < i ==> text::text_lt(#[trigger] es@[k].0@, name@),
                stop ==> i < es@.len(),
                stop && found ==> es@[i as int].0@ == name@,
                stop && !found ==> text::text_lt(name@, es@[i as int].0@),
                !stop ==> !found,
            decreases es@.len() - i, if stop { 0int } else { 1int },
        {
            let here = text::chars_of(es[i].0.as_str());
            match text::text_order(&here, &key) {
                text::TextOrder::Before => {
                    i = i + 1;
                },
                text::TextOrder::Same => {
                    found = true;
                    stop = true;
                },
                text::TextOrder::After => {
                    stop = true;
                },
            }
        }
        proof {
            text::lemma_text_lt_irreflexive(name@);
            assert forall|k: int| 0 <= k < es@.len() && #[trigger] es@[k].0@ == name@ implies found && k
                == i by {
                if k < i {
                } else if k > i {
                    if found {
                        assert(text::text_lt(es@[i as int].0@, es@[k].0@));
                    } else {
                        text::lemma_text_lt_transitive(name@, es@[i as int].0@, es@[k].0@);
                    }
                }
            }
        }
        if found {
            let old_entry = es.remove(i);
            es.insert(i, (name, profile));
            proof {
                assert(old_es[i as int].0@ == name@ && old_es[i as int].1 == old_entry.1);
                assert(es@ == old_es.update(i as int, (name, profile)));
                assert(es@ == old_es.update(i as int, es@[i as int]));
                assert forall|a: int, b: int| 0 <= a < b < es@.len() implies text::text_lt(
                    #[trigger] es@[a].0@,
                    #[trigger] es@[b].0@,
                ) by {
                    assert(old_es[i as int].0@ == es@[i as int].0@);
                    assert(text::text_lt(old_es[a].0@, old_es[b].0@));
                }
            }
            proof {
                lemma_lookup_at(old_es, i as int);
                lemma_lookup_at(es@, i as int);
                assert forall|k: Seq<char>| k != name@ implies #[trigger] lookup(es@, k) == lookup(old_es, k) by {
                    assert(has_key(es@, k) == has_key(old_es, k)) by {
                        if has_key(es@, k) {
                            let j = choose|j: int| 0 <= j < es@.len() && #[trigger] es@[j].0@ == k;
                            assert(old_es[j].0@ == k);
                        }
                        if has_key(old_es, k) {
                            let j = choose|j: int| 0 <= j < old_es.len() && #[trigger] old_es[j].0@ == k;
                            assert(es@[j].0@ == k);
                        }
                    }
                    if has_key(es@, k) {
                        let j = choose|j: int| 0 <= j < es@.len() && #[trigger] es@[j].0@ == k;
                        lemma_lookup_at(es@, j);
                        lemma_lookup_at(old_es, j);
                    }
                }
            }
            self.entries = es;
            assert(self.entries() == old(self).entries().update(i as int, (name, profile)));
            assert(old(self).entries()[i as int].0@ == name@);
            assert(old(self).entries()[i as int].1 == old_entry.1);
            let r = Some(old_entry.1);
            assert(match r {
                Some(old_profile) => exists|i: int|
                    0 <= i < old(self).entries().len() && #[trigger] old(self).entries()[i].0@
                        == name@ && old(self).entries()[i].1 == old_profile
                        && self.entries() == old(self).entries().update(i, (name, profile)),
                None => false,
            });
            r
        } else {
            es.insert(i, (name, profile));
            proof {
                assert forall|a: int, b: int| 0 <= a < b < es@.len() implies text::text_lt(
                    #[trigger] es@[a].0@,
                    #[trigger] es@[b].0@,
                ) by {
                    if b < i {
                        assert(text::text_lt(old_es[a].0@, old_es[b].0@));
                    } else if b == i {
                    } else if a < i {
                        assert(text::text_lt(old_es[a].0@, name@));
                        assert(text::text_lt(name@, old_es[i as int].0@));
                        if b - 1 > i {
                            assert(text::text_lt(old_es[i as int].0@, old_es[b - 1].0@));
                            text::lemma_text_lt_transitive(name@, old_es[i as int].0@, old_es[b - 1].0@);
                        }
                        text::lemma_text_lt_transitive(old_es[a].0@, name@, old_es[b - 1].0@);
                    } else if a == i {
                        if b - 1 > i {
                            assert(text::text_lt(old_es[i as int].0@, old_es[b - 1].0@));
                            text::lemma_text_lt_transitive(name@, old_es[i as int].0@, old_es[b - 1].0@);
                        }
                    } else {
                        assert(text::text_lt(old_es[a - 1].0@, old_es[b - 1].0@));
                    }
                }
            }
            proof {
                assert(es@[i as int].0@ == name@);
                lemma_lookup_at(es@, i as int);
                assert forall|k: Seq<char>| k != name@ implies #[trigger] lookup(es@, k) == lookup(old_es, k) by {
                    assert(has_key(es@, k) == has_key(old_es, k)) by {
                        if has_key(es@, k) {
                            let j = choose|j: int| 0 <= j < es@.len() && #[trigger] es@[j].0@ == k;
                            if j < i {
                                assert(old_es[j].0@ == k);
                            } else {
                                assert(j != i);
                                assert(old_es[j - 1].0@ == k);
                            }
                        }
                        if has_key(old_es, k) {
                            let j = choose|j: int| 0 <= j < old_es.len() && #[trigger] old_es[j].0@ == k;
                            if j < i {
                                assert(es@[j].0@ == k);
                            } else {
                                assert(es@[j + 1].0@ == k);
                            }
                        }
                    }
                    if has_key(es@, k) {
                        let j = choose|j: int| 0 <= j < es@.len() && #[trigger] es@[j].0@ == k;
                        lemma_lookup_at(es@, j);
                        if j < i {
                            lemma_lookup_at(old_es, j);
                        } else {
                            lemma_lookup_at(old_es, j - 1);
                        }
                    }
                }
            }
            self.entries = es;
            None
        }
    }
}


/// Which hook list an entry belongs to.
#[derive(Debug, Clone, Copy, PartialEq, Eq, Structural)]
pub enum HookPhase {
    Start,
    Stop,
    StartSh,
    StopSh,
}

/// Why a configuration is refused.
#[derive(Debug)]
pub enum ConfigError {
    /// `global.default_profile` names no profile.
    MissingDefaultProfile { name: String },
    /// `global.poll_interval_ms` is 0.
    ZeroPollInterval,
    /// A profile name is empty or holds a character other than ASCII letters, digits, `_`, `-`.
    InvalidProfileName { name: String },
    /// `process.nice` lies outside -20..=19.
    NiceOutOfRange { profile: String },
    /// `process.renice_interval_ms` is 0 while descendants are reniced.
    ZeroReniceInterval { profile: String },
    /// A hook command is empty (an empty argv, or a blank shell snippet).
    EmptyHook { profile: String, phase: HookPhase, index: usize },
    /// The program of an argv hook is not an absolute path.
    RelativeHookProgram { profile: String, phase: HookPhase, index: usize },
}

/// A character allowed in a profile name.
pub open spec fn is_name_char(c: char) -> bool {
    text::is_ascii_alnum(c) || c == '_' || c == '-'
}

/// Profile names are non-empty and made of ASCII letters, digits, `_` and `-`.
pub open spec fn valid_profile_name(s: Seq<char>) -> bool {
    s.len() > 0 && forall|i: int| 0 <= i < s.len() ==> is_name_char(#[trigger] s[i])
}

/// A path is absolute when it starts at the root.
pub open spec fn is_absolute(p: Seq<char>) -> bool {
    p.len() > 0 && p[0] == '/'
}

/// The first problem among the argv hooks `cmds[i..]`.
pub open spec fn argv_hooks_problem(profile: String, phase: HookPhase, cmds: Seq<Vec<String>>, i: int) -> Option<ConfigError>
    decreases cmds.len() - i,
{
    if i < 0 || i >= cmds.len() {
        None
    } else if cmds[i]@.len() == 0 {
        Some(ConfigError::EmptyHook { profile, phase, index: i as usize })
    } else if !is_absolute(cmds[i]@[0]@) {
        Some(ConfigError::RelativeHookProgram { profile, phase, index: i as usize })
    } else {
        argv_hooks_problem(profile, phase, cmds, i + 1)
    }
}

/// The first problem among the shell hooks `snippets[i..]`.
pub open spec fn shell_hooks_problem(profile: String, phase: HookPhase, snippets: Seq<String>, i: int) -> Option<ConfigError>
    decreases snippets.len() - i,
{
    if i < 0 || i >= snippets.len() {
        None
    } else if text::trimmed(snippets[i]@).len() == 0 {
        Some(ConfigError::EmptyHook { profile, phase, index: i as usize })
    } else {
        shell_hooks_problem(profile, phase, snippets, i + 1)
    }
}

/// The first problem of a profile's hooks: `start`, then `stop`, then `start_sh`, then `stop_sh`.
pub open spec fn hooks_problem(profile: String, h: Hooks) -> Option<ConfigError> {
    if argv_hooks_problem(profile, HookPhase::Start, h.start@, 0) is Some {
        argv_hooks_problem(profile, HookPhase::Start, h.start@, 0)
    } else if argv_hooks_problem(profile, HookPhase::Stop, h.stop@, 0) is Some {
        argv_hooks_problem(profile, HookPhase::Stop, h.stop@, 0)
    } else if shell_hooks_problem(profile, HookPhase::StartSh, h.start_sh@, 0) is Some {
        shell_hooks_problem(profile, HookPhase::StartSh, h.start_sh@, 0)
    } else {
        shell_hooks_problem(profile, HookPhase::StopSh, h.stop_sh@, 0)
    }
}

/// An argv hook is fine when it is not empty and names its program by an
/// absolute path.
pub open spec fn argv_hook_ok(c: Vec<String>) -> bool {
    c@.len() > 0 && is_absolute(c@[0]@)
}

/// A shell hook is fine when it holds more than white space.
pub open spec fn shell_hook_ok(s: String) -> bool {
    text::trimmed(s@).len() > 0
}

proof fn lemma_argv_hooks_none(profile: String, phase: HookPhase, cmds: Seq<Vec<String>>, i: int)
    requires
        0 <= i <= cmds.len(),
    ensures
        argv_hooks_problem(profile, phase, cmds, i) is None <==> forall|k: int|
            i <= k < cmds.len() ==> argv_hook_ok(#[trigger] cmds[k]),
    decreases cmds.len() - i,
{
    if i < cmds.len() {
        lemma_argv_hooks_none(profile, phase, cmds, i + 1);
    }
}

proof fn lemma_shell_hooks_none(profile: String, phase: HookPhase, snippets: Seq<String>, i: int)
    requires
        0 <= i <= snippets.len(),
    ensures
        shell_hooks_problem(profile, phase, snippets, i) is None <==> forall|k: int|
            i <= k < snippets.len() ==> shell_hook_ok(#[trigger] snippets[k]),
    decreases snippets.len() - i,
{
    if i < snippets.len() {
        lemma_shell_hooks_none(profile, phase, snippets, i + 1);
    }
}

/// A profile's hooks are accepted exactly when every `start` and `stop` hook is
/// non-empty and names its program by an absolute path, and every `start_sh`
/// and `stop_sh` snippet holds more than white space.
pub proof fn lemma_hooks_accepted(profile: String, h: Hooks)
    ensures
        hooks_problem(profile, h) is None <==> {
            &&& forall|k: int| 0 <= k < h.start@.len() ==> argv_hook_ok(#[trigger] h.start@[k])
            &&& forall|k: int| 0 <= k < h.stop@.len() ==> argv_hook_ok(#[trigger] h.stop@[k])
            &&& forall|k: int| 0 <= k < h.start_sh@.len() ==> shell_hook_ok(#[trigger] h.start_sh@[k])
            &&& forall|k: int| 0 <= k < h.stop_sh@.len() ==> shell_hook_ok(#[trigger] h.stop_sh@[k])
        },
{
    lemma_argv_hooks_none(profile, HookPhase::Start, h.start@, 0);
    lemma_argv_hooks_none(profile, HookPhase::Stop, h.stop@, 0);
    lemma_shell_hooks_none(profile, HookPhase::StartSh, h.start_sh@, 0);
    lemma_shell_hooks_none(profile, HookPhase::StopSh, h.stop_sh@, 0);
}

/// The first problem of one profile: its name, its nice value, its renice
/// interval, then its hooks.
pub open spec fn profile_problem(name: String, p: Profile) -> Option<ConfigError> {
    if !valid_profile_name(name@) {
        Some(ConfigError::InvalidProfileName { name })
    } else if p.process matches Some(pc) && !(-20 <= pc.nice <= 19) {
        Some(ConfigError::NiceOutOfRange { profile: name })
    } else if p.process matches Some(pc) && pc.renice_descendants && pc.renice_interval_ms == 0 {
        Some(ConfigError::ZeroReniceInterval { profile: name })
    } else {
        match p.hooks {
            Some(h) => hooks_problem(name, h),
            None => None,
        }
    }
}

/// The first problem among the profiles `es[i..]`, taken in key order.
pub open spec fn profiles_problem(es: Seq<(String, Profile)>, i: int) -> Option<ConfigError>
    decreases es.len() - i,
{
    if i < 0 || i >= es.len() {
        None
    } else if profile_problem(es[i].0, es[i].1) is Some {
        profile_problem(es[i].0, es[i].1)
    } else {
        profiles_problem(es, i + 1)
    }
}

/// The problem `validate_config` reports: the default profile must exist, the poll
/// interval must not be 0, then each profile in key order must be valid.
pub open spec fn config_problem(cfg: Config) -> Option<ConfigError> {
    if !has_key(cfg.profile.entries(), cfg.global.default_profile@) {
        Some(ConfigError::MissingDefaultProfile { name: cfg.global.default_profile })
    } else if cfg.global.poll_interval_ms == Some(0u64) {
        Some(ConfigError::ZeroPollInterval)
    } else {
        profiles_problem(cfg.profile.entries(), 0)
    }
}

proof fn lemma_profiles_ok(es: Seq<(String, Profile)>, i: int)
    requires
        0 <= i <= es.len(),
        profiles_problem(es, i) is None,
    ensures
        forall|j: int| i <= j < es.len() ==> profile_problem(#[trigger] es[j].0, es[j].1) is None,
    decreases es.len() - i,
{
    if i < es.len() {
        lemma_profiles_ok(es, i + 1);
    }
}

/// A configuration that `validate_config` accepts has its default profile, a
/// non-zero poll interval, and only valid profile names, nice values in
/// -20..=19, and a non-zero renice interval wherever descendants are reniced.
pub proof fn lemma_accepted_config(cfg: Config)
    requires
        config_problem(cfg) is None,
    ensures
        has_key(cfg.profile.entries(), cfg.global.default_profile@),
        cfg.global.poll_interval_ms != Some(0u64),
        forall|j: int|
            0 <= j < cfg.profile.entries().len() ==> valid_profile_name(
                (#[trigger] cfg.profile.entries()[j]).0@,
            ),
        forall|j: int|
            0 <= j < cfg.profile.entries().len() ==> ((#[trigger] cfg.profile.entries()[j]).1.process matches Some(
                pc,
            ) ==> -20 <= pc.nice <= 19 && (pc.renice_descendants ==> pc.renice_interval_ms > 0)),
{
    let es = cfg.profile.entries();
    lemma_profiles_ok(es, 0);
    assert forall|j: int| 0 <= j < es.len() implies valid_profile_name((#[trigger] es[j]).0@) by {
        assert(profile_problem(es[j].0, es[j].1) is None);
    }
    assert forall|j: int| 0 <= j < es.len() implies ((#[trigger] es[j]).1.process matches Some(pc) ==> -20
        <= pc.nice <= 19 && (pc.renice_descendants ==> pc.renice_interval_ms > 0)) by {
        assert(profile_problem(es[j].0, es[j].1) is None);
    }
}

proof fn lemma_profiles_none(es: Seq<(String, Profile)>, i: int)
    requires
        0 <= i <= es.len(),
        forall|j: int| i <= j < es.len() ==> profile_problem(#[trigger] es[j].0, es[j].1) is None,
    ensures
        profiles_problem(es, i) is None,
    decreases es.len() - i,
{
    if i < es.len() {
        lemma_profiles_none(es, i + 1);
    }
}

/// A configuration is accepted exactly when its default profile exists, its
/// poll interval is not 0, and every profile has a name of ASCII letters,
/// digits, `_` and `-` (at least one), a nice value in -20..=19, a non-zero
/// renice interval when descendants are reniced, argv hooks that are non-empty
/// with an absolute program, and shell hooks that are not blank.
pub proof fn lemma_config_accepted_iff(cfg: Config)
    ensures
        config_problem(cfg) is None <==> {
            let es = cfg.profile.entries();
            &&& has_key(es, cfg.global.default_profile@)
            &&& cfg.global.poll_interval_ms != Some(0u64)
            &&& forall|j: int|
                0 <= j < es.len() ==> {
                    let name = (#[trigger] es[j]).0@;
                    &&& name.len() > 0
                    &&& forall|k: int|
                        0 <= k < name.len() ==> ('a' <= #[trigger] name[k] <= 'z') || ('A' <= name[k] <= 'Z')
                            || ('0' <= name[k] <= '9') || name[k] == '_' || name[k] == '-'
                }
            &&& forall|j: int|
                0 <= j < es.len() ==> ((#[trigger] es[j]).1.process matches Some(pc) ==> -20 <= pc.nice
                    <= 19 && (pc.renice_descendants ==> pc.renice_interval_ms > 0))
            &&& forall|j: int|
                0 <= j < es.len() ==> ((#[trigger] es[j]).1.hooks matches Some(h) ==> {
                    &&& forall|k: int| 0 <= k < h.start@.len() ==> argv_hook_ok(#[trigger] h.start@[k])
                    &&& forall|k: int| 0 <= k < h.stop@.len() ==> argv_hook_ok(#[trigger] h.stop@[k])
                    &&& forall|k: int|
                        0 <= k < h.start_sh@.len() ==> shell_hook_ok(#[trigger] h.start_sh@[k])
                    &&& forall|k: int|
                        0 <= k < h.stop_sh@.len() ==> shell_hook_ok(#[trigger] h.stop_sh@[k])
                })
        },
{
    let es = cfg.profile.entries();
    if config_problem(cfg) is None {
        lemma_profiles_ok(es, 0);
        assert forall|j: int| 0 <= j < es.len() implies ((#[trigger] es[j]).1.hooks matches Some(h) ==> {
            &&& forall|k: int| 0 <= k < h.start@.len() ==> argv_hook_ok(#[trigger] h.start@[k])
            &&& forall|k: int| 0 <= k < h.stop@.len() ==> argv_hook_ok(#[trigger] h.stop@[k])
            &&& forall|k: int| 0 <= k < h.start_sh@.len() ==> shell_hook_ok(#[trigger] h.start_sh@[k])
            &&& forall|k: int| 0 <= k < h.stop_sh@.len() ==> shell_hook_ok(#[trigger] h.stop_sh@[k])
        }) by {
            assert(profile_problem(es[j].0, es[j].1) is None);
            if let Some(h) = es[j].1.hooks {
                lemma_hooks_accepted(es[j].0, h);
            }
        }
        assert forall|j: int| 0 <= j < es.len() implies ((#[trigger] es[j]).1.process matches Some(pc) ==> -20
            <= pc.nice <= 19 && (pc.renice_descendants ==> pc.renice_interval_ms > 0)) by {
            assert(profile_problem(es[j].0, es[j].1) is None);
        }
        assert forall|j: int| 0 <= j < es.len() implies {
            let name = (#[trigger] es[j]).0@;
            &&& name.len() > 0
            &&& forall|k: int|
                0 <= k < name.len() ==> ('a' <= #[trigger] name[k] <= 'z') || ('A' <= name[k] <= 'Z')
                    || ('0' <= name[k] <= '9') || name[k] == '_' || name[k] == '-'
        } by {
            assert(profile_problem(es[j].0, es[j].1) is None);
            assert(valid_profile_name(es[j].0@));
        }
    }
    if ({
        &&& has_key(es, cfg.global.default_profile@)
        &&& cfg.global.poll_interval_ms != Some(0u64)
        &&& forall|j: int|
            0 <= j < es.len() ==> {
                let name = (#[trigger] es[j]).0@;
                &&& name.len() > 0
                &&& forall|k: int|
                    0 <= k < name.len() ==> ('a' <= #[trigger] name[k] <= 'z') || ('A' <= name[k] <= 'Z')
                        || ('0' <= name[k] <= '9') || name[k] == '_' || name[k] == '-'
            }
        &&& forall|j: int|
            0 <= j < es.len() ==> ((#[trigger] es[j]).1.process matches Some(pc) ==> -20 <= pc.nice <= 19
                && (pc.renice_descendants ==> pc.renice_interval_ms > 0))
        &&& forall|j: int|
            0 <= j < es.len() ==> ((#[trigger] es[j]).1.hooks matches Some(h) ==> {
                &&& forall|k: int| 0 <= k < h.start@.len() ==> argv_hook_ok(#[trigger] h.start@[k])
                &&& forall|k: int| 0 <= k < h.stop@.len() ==> argv_hook_ok(#[trigger] h.stop@[k])
                &&& forall|k: int| 0 <= k < h.start_sh@.len() ==> shell_hook_ok(#[trigger] h.start_sh@[k])
                &&& forall|k: int| 0 <= k < h.stop_sh@.len() ==> shell_hook_ok(#[trigger] h.stop_sh@[k])
            })
    }) {
        assert forall|j: int| 0 <= j < es.len() implies profile_problem(#[trigger] es[j].0, es[j].1) is None by {
            let name = es[j].0@;
            assert forall|k: int| 0 <= k < name.len() implies is_name_char(#[trigger] name[k]) by {
                assert(('a' <= name[k] <= 'z') || ('A' <= name[k] <= 'Z') || ('0' <= name[k] <= '9')
                    || name[k] == '_' || name[k] == '-');
            }
            assert(valid_profile_name(name));
            if let Some(h) = es[j].1.hooks {
                lemma_hooks_accepted(es[j].0, h);
            }
        }
        lemma_profiles_none(es, 0);
    }
}

fn is_name_char_exec(c: char) -> (r: bool)
    ensures
        r == is_name_char(c),
{
    ('a' <= c && c <= 'z') || ('A' <= c && c <= 'Z') || ('0' <= c && c <= '9') || c == '_' || c == '-'
}

/// Whether `name` is a valid profile name.
fn is_valid_profile_name(name: &str) -> (r: bool)
    ensures
        r == valid_profile_name(name@),
{
    let v = text::chars_of(name);
    if v.len() == 0 {
        return false;
    }
    let mut i: usize = 0;
    while i < v.len()
        invariant
            v@ == name@,
            i <= v.len(),
            forall|k: int| 0 <= k < i ==> is_name_char(#[trigger] v@[k]),
        decreases v.len() - i,
    {
        if !is_name_char_exec(v[i]) {
            return false;
        }
        i = i + 1;
    }
    true
}

/// Accepts a profile name made of ASCII letters, digits, `_` and `-`, and not empty.
pub fn validate_profile_name(name: &str) -> (r: Result<(), ConfigError>)
    ensures
        r is Ok <==> valid_profile_name(name@),
        r matches Err(e) ==> e matches ConfigError::InvalidProfileName { name: n } && n@ == name@,
{
    if is_valid_profile_name(name) {
        Ok(())
    } else {
        Err(ConfigError::InvalidProfileName { name: name.to_owned() })
    }
}

fn is_absolute_exec(p: &String) -> (r: bool)
    ensures
        r == is_absolute(p@),
{
    let v = text::chars_of(p.as_str());
    v.len() > 0 && v[0] == '/'
}

fn validate_argv_hooks(profile: &String, phase: HookPhase, cmds: &Vec<Vec<String>>) -> (r: Result<(), ConfigError>)
    ensures
        r == match argv_hooks_problem(*profile, phase, cmds@, 0) {
            Some(e) => Err(e),
            None => Ok(()),
        },
{
    let mut i: usize = 0;
    while i < cmds.len()
        invariant
            i <= cmds@.len(),
            argv_hooks_problem(*profile, phase, cmds@, 0) == argv_hooks_problem(*profile, phase, cmds@, i as int),
        decreases cmds@.len() - i,
    {
        let cmd = &cmds[i];
        if cmd.len() == 0 {
            return Err(ConfigError::EmptyHook { profile: profile.clone(), phase, index: i });
        }
        if !is_absolute_exec(&cmd[0]) {
            return Err(ConfigError::RelativeHookProgram { profile: profile.clone(), phase, index: i });
        }
        i = i + 1;
    }
    Ok(())
}

fn validate_shell_hooks(profile: &String, phase: HookPhase, snippets: &Vec<String>) -> (r: Result<(), ConfigError>)
    ensures
        r == match shell_hooks_problem(*profile, phase, snippets@, 0) {
            Some(e) => Err(e),
            None => Ok(()),
        },
{
    let mut i: usize = 0;
    while i < snippets.len()
        invariant
            i <= snippets@.len(),
            shell_hooks_problem(*profile, phase, snippets@, 0) == shell_hooks_problem(*profile, phase, snippets@, i as int),
        decreases snippets@.len() - i,
    {
        let t = text::trim(snippets[i].as_str());
        if t.is_empty() {
            return Err(ConfigError::EmptyHook { profile: profile.clone(), phase, index: i });
        }
        i = i + 1;
    }
    Ok(())
}

/// Checks a profile's hooks: argv hooks must be non-empty and start with an
/// absolute path, shell hooks must not be blank.
pub fn validate_hooks(profile: &String, hooks: &Hooks) -> (r: Result<(), ConfigError>)
    ensures
        r == match hooks_problem(*profile, *hooks) {
            Some(e) => Err(e),
            None => Ok(()),
        },
{
    if let Err(e) = validate_argv_hooks(profile, HookPhase::Start, &hooks.start) {
        return Err(e);
    }
    if let Err(e) = validate_argv_hooks(profile, HookPhase::Stop, &hooks.stop) {
        return Err(e);
    }
    if let Err(e) = validate_shell_hooks(profile, HookPhase::StartSh, &hooks.start_sh) {
        return Err(e);
    }
    if let Err(e) = validate_shell_hooks(profile, HookPhase::StopSh, &hooks.stop_sh) {
        return Err(e);
    }
    Ok(())
}

fn validate_profile(name: &String, profile: &Profile) -> (r: Result<(), ConfigError>)
    ensures
        r == match profile_problem(*name, *profile) {
            Some(e) => Err(e),
            None => Ok(()),
        },
{
    if !is_valid_profile_name(name.as_str()) {
        return Err(ConfigError::InvalidProfileName { name: name.clone() });
    }
    if let Some(pc) = &profile.process {
        if !(-20 <= pc.nice && pc.nice <= 19) {
            return Err(ConfigError::NiceOutOfRange { profile: name.clone() });
        }
        if pc.renice_descendants && pc.renice_interval_ms == 0 {
            return Err(ConfigError::ZeroReniceInterval { profile: name.clone() });
        }
    }
    if let Some(h) = &profile.hooks {
        if let Err(e) = validate_hooks(name, h) {
            return Err(e);
        }
    }
    Ok(())
}

/// Checks a whole configuration and reports the first problem found.
pub fn validate_config(cfg: &Config) -> (r: Result<(), ConfigError>)
    ensures
        r == match config_problem(*cfg) {
            Some(e) => Err(e),
            None => Ok(()),
        },
{
    if !cfg.profile.contains_key(cfg.global.default_profile.as_str()) {
        return Err(ConfigError::MissingDefaultProfile { name: cfg.global.default_profile.clone() });
    }
    if let Some(ms) = cfg.global.poll_interval_ms {
        if ms == 0 {
            return Err(ConfigError::ZeroPollInterval);
        }
    }
    let n = cfg.profile.len();
    let mut i: usize = 0;
    while i < n
        invariant
            n == cfg.profile.entries().len(),
            i <= n,
            has_key(cfg.profile.entries(), cfg.global.default_profile@),
            cfg.global.poll_interval_ms != Some(0u64),
            profiles_problem(cfg.profile.entries(), 0) == profiles_problem(cfg.profile.entries(), i as int),
        decreases n - i,
    {
        let (name, profile) = cfg.profile.entry(i);
        if let Err(e) = validate_profile(name, profile) {
            return Err(e);
        }
        i = i + 1;
    }
    Ok(())
}


/// `base` joined with the relative path `rel`, as `Path::join` does it: a
/// separator goes between them unless `base` is empty or already ends in one.
pub open spec fn join_relative(base: Seq<char>, rel: Seq<char>) -> Seq<char> {
    if base.len() == 0 || base.last() == '/' {
        base + rel
    } else {
        base + seq!['/'] + rel
    }
}

/// The per-user configuration file under the home directory `home_dir`.
pub fn user_config_path(home_dir: &str) -> (r: String)
    ensures
        r@ == join_relative(home_dir@, ".config/hoist/default.toml"@),
{
    let v = text::chars_of(home_dir);
    let mut r = home_dir.to_owned();
    if v.len() > 0 && v[v.len() - 1] != '/' {
        proof {
            reveal_strlit("/");
        }
        r.append("/");
    }
    r.append(".config/hoist/default.toml");
    r
}

/// Picks the configuration file from the candidates and whether they exist:
/// an explicit path is used alone; otherwise the user file, when it exists,
/// replaces the system file entirely.
pub fn resolve_from_paths(
    system: String,
    user: String,
    explicit: Option<String>,
    system_exists: bool,
    user_exists: bool,
) -> (r: ConfigPaths)
    ensures
        r.system == system,
        r.user == user,
        r.system_exists == system_exists,
        r.user_exists == user_exists,
        r.selected == match explicit {
            Some(p) => p,
            None => if user_exists {
                user
            } else {
                system
            },
        },
{
    let selected = match explicit {
        Some(p) => p,
        None => if user_exists {
            user.clone()
        } else {
            system.clone()
        },
    };
    ConfigPaths { system, user, selected, system_exists, user_exists }
}

/// The configuration paths, given the per-user file `user` and which of the
/// two files exist: the system file is `SYSTEM_CONFIG`.
pub fn resolve_config_path(
    explicit: Option<String>,
    user: String,
    system_exists: bool,
    user_exists: bool,
) -> (r: ConfigPaths)
    ensures
        r.system@ == SYSTEM_CONFIG@,
        r.user == user,
        r.system_exists == system_exists,
        r.user_exists == user_exists,
        r.selected@ == match explicit {
            Some(p) => p@,
            None => if user_exists {
                user@
            } else {
                SYSTEM_CONFIG@
            },
        },
{
    resolve_from_paths(SYSTEM_CONFIG.to_owned(), user, explicit, system_exists, user_exists)
}


/// The name of a hook list in the configuration file.
pub open spec fn phase_name(phase: HookPhase) -> Seq<char> {
    match phase {
        HookPhase::Start => "start"@,
        HookPhase::Stop => "stop"@,
        HookPhase::StartSh => "start_sh"@,
        HookPhase::StopSh => "stop_sh"@,
    }
}

/// The text of a configuration error.
pub open spec fn config_error_text(e: ConfigError) -> Seq<char> {
    match e {
        ConfigError::MissingDefaultProfile { name } => "global.default_profile '"@ + name@
            + "' is missing from [profile]"@,
        ConfigError::ZeroPollInterval => "global.poll_interval_ms must be greater than 0"@,
        ConfigError::InvalidProfileName { name } => "invalid profile name '"@ + name@ + "'"@,
        ConfigError::NiceOutOfRange { profile } => "profile."@ + profile@
            + ".process.nice must be between -20 and 19"@,
        ConfigError::ZeroReniceInterval { profile } => "profile."@ + profile@
            + ".process.renice_interval_ms must be greater than 0"@,
        ConfigError::EmptyHook { profile, phase, index } => "profile."@ + profile@ + ".hooks."@
            + phase_name(phase) + "["@ + text::decimal(index as nat) + "] must not be empty"@,
        ConfigError::RelativeHookProgram { profile, phase, index } => "profile."@ + profile@
            + ".hooks."@ + phase_name(phase) + "["@ + text::decimal(index as nat)
            + "][0] must be an absolute path"@,
    }
}

fn phase_str(phase: HookPhase) -> (r: &'static str)
    ensures
        r@ == phase_name(phase),
{
    match phase {
        HookPhase::Start => "start",
        HookPhase::Stop => "stop",
        HookPhase::StartSh => "start_sh",
        HookPhase::StopSh => "stop_sh",
    }
}

impl ConfigError {
    /// The error as a sentence.
    pub fn message(&self) -> (r: String)
        ensures
            r@ == config_error_text(*self),
    {
        match self {
            ConfigError::MissingDefaultProfile { name } => {
                let mut r = "global.default_profile '".to_owned();
                r.append(name.as_str());
                r.append("' is missing from [profile]");
                r
            },
            ConfigError::ZeroPollInterval => "global.poll_interval_ms must be greater than 0".to_owned(),
            ConfigError::InvalidProfileName { name } => {
                let mut r = "invalid profile name '".to_owned();
                r.append(name.as_str());
                r.append("'");
                r
            },
            ConfigError::NiceOutOfRange { profile } => {
                let mut r = "profile.".to_owned();
                r.append(profile.as_str());
                r.append(".process.nice must be between -20 and 19");
                r
            },
            ConfigError::ZeroReniceInterval { profile } => {
                let mut r = "profile.".to_owned();
                r.append(profile.as_str());
                r.append(".process.renice_interval_ms must be greater than 0");
                r
            },
            ConfigError::EmptyHook { profile, phase, index } => {
                let mut r = "profile.".to_owned();
                r.append(profile.as_str());
                r.append(".hooks.");
                r.append(phase_str(*phase));
                r.append("[");
                text::push_decimal(&mut r, *index as u128);
                r.append("] must not be empty");
                r
            },
            ConfigError::RelativeHookProgram { profile, phase, index } => {
                let mut r = "profile.".to_owned();
                r.append(profile.as_str());
                r.append(".hooks.");
                r.append(phase_str(*phase));
                r.append("[");
                text::push_decimal(&mut r, *index as u128);
                r.append("][0] must be an absolute path");
                r
            },
        }
    }
}

} // verus!
