use vstd::prelude::*;
use crate::config;
use crate::config::AmdGpuLevel;
use crate::text;

verus! {

/// The label `tuned-adm active` prints before the active profile.
pub open spec fn tuned_label() -> Seq<char> {
    "Current active profile:"@
}

/// A line `Current active profile: <name>` names exactly `<name>` when the name
/// is not blank and has no white space at either end; it may contain `-`, `_`
/// or inner spaces.
pub proof fn lemma_profile_line_names_profile(name: Seq<char>)
    requires
        name.len() > 0,
        !text::is_space(name[0]),
        !text::is_space(name.last()),
    ensures
        profile_in_line(tuned_label() + " "@ + name) == Some(name),
{
    reveal_strlit("Current active profile:");
    reveal_strlit(" ");
    let label = tuned_label();
    let line = label + " "@ + name;
    let n = label.len();
    assert(line[0] == 'C');
    assert(text::trim_start(line) == line);
    assert(line.last() == name.last());
    assert(text::trim_end(line) == line);
    assert(text::trimmed(line) == line);
    assert(line.subrange(0, n as int) =~= label);
    let rest = line.subrange(n as int, line.len() as int);
    assert(rest =~= seq![' '] + name);
    assert(rest.drop_first() =~= name);
    assert(text::trim_start(rest) == text::trim_start(name));
    assert(text::trim_start(name) == name);
    assert(text::trim_end(name) == name);
}

/// The end of the line that starts at `i`: the next `\n`, or the end of `s`.
pub open spec fn line_end(s: Seq<char>, i: int) -> int
    decreases s.len() - i,
{
    if i < 0 || i >= s.len() || s[i] == '\n' {
        i
    } else {
        line_end(s, i + 1)
    }
}

pub(crate) proof fn lemma_line_end(s: Seq<char>, i: int)
    requires
        0 <= i <= s.len(),
    ensures
        i <= line_end(s, i) <= s.len(),
        line_end(s, i) < s.len() ==> s[line_end(s, i)] == '\n',
        forall|k: int| i <= k < line_end(s, i) ==> s[k] != '\n',
    decreases s.len() - i,
{
    if i < s.len() && s[i] != '\n' {
        lemma_line_end(s, i + 1);
    }
}

/// The profile a line names: once trimmed, the line starts with the label, and
/// what follows it, trimmed, is not empty.
pub open spec fn profile_in_line(line: Seq<char>) -> Option<Seq<char>> {
    let t = text::trimmed(line);
    let n = tuned_label().len();
    if t.len() >= n && t.subrange(0, n as int) == tuned_label() {
        let p = text::trimmed(t.subrange(n as int, t.len() as int));
        if p.len() > 0 {
            Some(p)
        } else {
            None
        }
    } else {
        None
    }
}

/// The profile named by the first such line among the lines of `s` that start at
/// or after `i`.
pub open spec fn tuned_profile_from(s: Seq<char>, i: int) -> Option<Seq<char>>
    decreases s.len() - i,
{
    if i < 0 || i > s.len() {
        None
    } else {
        let e = line_end(s, i);
        if profile_in_line(s.subrange(i, e)) is Some {
            profile_in_line(s.subrange(i, e))
        } else if i <= e < s.len() {
            tuned_profile_from(s, e + 1)
        } else {
            None
        }
    }
}

/// The lines of `s[i..]` as `str::lines` yields them: split after each `\n`,
/// without the `\n` and a `\r` just before it, and no line after a final `\n`.
pub open spec fn lines_from(s: Seq<char>, i: int) -> Seq<Seq<char>>
    decreases s.len() - i,
{
    if i < 0 || i >= s.len() {
        seq![]
    } else {
        let e = line_end(s, i);
        let line = if i < e < s.len() && s[e - 1] == '\r' {
            s.subrange(i, e - 1)
        } else {
            s.subrange(i, e)
        };
        if i <= e < s.len() {
            seq![line] + lines_from(s, e + 1)
        } else {
            seq![line]
        }
    }
}

/// The profile named by the first of `lines` that names one.
pub open spec fn first_profile(lines: Seq<Seq<char>>) -> Option<Seq<char>>
    decreases lines.len(),
{
    if lines.len() == 0 {
        None
    } else if profile_in_line(lines[0]) is Some {
        profile_in_line(lines[0])
    } else {
        first_profile(lines.drop_first())
    }
}

proof fn lemma_profile_by_lines(s: Seq<char>, i: int)
    requires
        0 <= i <= s.len(),
    ensures
        tuned_profile_from(s, i) == first_profile(lines_from(s, i)),
    decreases s.len() - i,
{
    reveal_strlit("Current active profile:");
    lemma_line_end(s, i);
    let e = line_end(s, i);
    if i == s.len() {
        let empty = Seq::<char>::empty();
        assert(s.subrange(i, e) =~= empty);
        assert(text::trim_start(empty) == empty);
        assert(text::trim_end(empty) == empty);
        assert(profile_in_line(empty) is None);
        assert(lines_from(s, i) =~= Seq::<Seq<char>>::empty());
    } else {
        let raw = s.subrange(i, e);
        let line = if i < e < s.len() && s[e - 1] == '\r' {
            s.subrange(i, e - 1)
        } else {
            s.subrange(i, e)
        };
        if i < e < s.len() && s[e - 1] == '\r' {
            assert(raw =~= line.push('\r'));
            text::lemma_trimmed_trailing_space(line, '\r');
        }
        assert(profile_in_line(raw) == profile_in_line(line));
        let ls = lines_from(s, i);
        if e < s.len() {
            assert(ls == seq![line] + lines_from(s, e + 1));
            assert(ls[0] == line);
            lemma_profile_by_lines(s, e + 1);
            assert(ls.drop_first() =~= lines_from(s, e + 1));
            assert(first_profile(ls) == if profile_in_line(line) is Some {
                profile_in_line(line)
            } else {
                first_profile(lines_from(s, e + 1))
            });
        } else {
            assert(ls == seq![line]);
            assert(ls[0] == line);
            assert(ls.drop_first() =~= Seq::<Seq<char>>::empty());
            assert(first_profile(ls.drop_first()) is None);
            assert(first_profile(ls) == profile_in_line(line));
        }
    }
}

/// What `parse_tuned_active` finds is the profile named by the first of the
/// lines of `raw`, as `str::lines` splits them, whose trimmed text starts with
/// `Current active profile:` followed by a name that is not blank.
pub proof fn lemma_tuned_active_by_lines(raw: Seq<char>)
    ensures
        tuned_profile_from(raw, 0) == first_profile(lines_from(raw, 0)),
{
    lemma_profile_by_lines(raw, 0);
}

/// `tuned-adm active` output whose first line is `Current active profile: <name>`
/// gives exactly `<name>`, whatever lines follow, when the name is not blank
/// and has no white space at either end.
pub proof fn lemma_tuned_output_names_profile(name: Seq<char>, rest: Seq<char>)
    requires
        name.len() > 0,
        !text::is_space(name[0]),
        !text::is_space(name.last()),
        forall|k: int| 0 <= k < name.len() ==> name[k] != '\n',
    ensures
        tuned_profile_from(tuned_label() + " "@ + name + "\n"@ + rest, 0) == Some(name),
{
    reveal_strlit("Current active profile:");
    reveal_strlit(" ");
    reveal_strlit("\n");
    let line = tuned_label() + " "@ + name;
    let s = line + "\n"@ + rest;
    assert forall|k: int| 0 <= k < line.len() implies s[k] != '\n' by {
        if k >= tuned_label().len() + 1 {
            assert(s[k] == name[k - tuned_label().len() - 1]);
        }
    }
    assert(s[line.len() as int] == '\n');
    lemma_line_end(s, 0);
    let e = line_end(s, 0);
    if e < line.len() {
        assert(s[e] != '\n');
    }
    assert(e == line.len());
    assert(s.subrange(0, e) =~= line);
    lemma_profile_line_names_profile(name);
}

/// The active profile that `tuned-adm active` printed in `raw`: taken from the
/// first line of the form `Current active profile: <name>` with a non-empty name.
pub fn parse_tuned_active(raw: &str) -> (r: Option<String>)
    ensures
        text::opt_texts(r) == tuned_profile_from(raw@, 0),
{
    let v = text::chars_of(raw);
    let label = text::chars_of("Current active profile:");
    let n = label.len();
    let mut i: usize = 0;
    while i <= v.len()
        invariant
            v@ == raw@,
            label@ == tuned_label(),
            n == label@.len(),
            i <= v@.len() + 1,
            tuned_profile_from(raw@, 0) == tuned_profile_from(raw@, i as int),
        decreases v@.len() + 1 - i,
    {
        let mut e: usize = i;
        while e < v.len() && v[e] != '\n'
            invariant
                i <= e <= v@.len(),
                line_end(v@, i as int) == line_end(v@, e as int),
            decreases v@.len() - e,
        {
            e = e + 1;
        }
        proof {
            lemma_line_end(v@, i as int);
        }
        let (a, b) = text::trim_range(&v, i, e);
        let mut matched = false;
        if b - a >= n {
            let mut head: Vec<char> = Vec::new();
            let mut k: usize = a;
            while k < a + n
                invariant
                    a + n <= b <= v@.len(),
                    a <= k <= a + n,
                    head@ == v@.subrange(a as int, k as int),
                decreases a + n - k,
            {
                head.push(v[k]);
                k = k + 1;
            }
            matched = text::chars_eq(&head, &label);
            proof {
                let t = v@.subrange(a as int, b as int);
                assert(t.subrange(0, n as int) == head@);
            }
        }
        if matched {
            let (c, d) = text::trim_range(&v, a + n, b);
            proof {
                let t = v@.subrange(a as int, b as int);
                assert(t.subrange(n as int, t.len() as int) == v@.subrange(a + n, b as int));
            }
            if d > c {
                let p = raw.substring_char(c, d).to_owned();
                return Some(p);
            }
        }
        proof {
            let t = v@.subrange(a as int, b as int);
            if t.len() >= n && t.subrange(0, n as int) == tuned_label() {
                assert(matched);
            }
            assert(profile_in_line(v@.subrange(i as int, e as int)) is None);
        }
        if e >= v.len() {
            return None;
        }
        i = e + 1;
    }
    None
}

/// The sysfs file that holds the performance level of a card.
pub open spec fn gpu_level_file(card: u32) -> Seq<char> {
    "/sys/class/drm/card"@ + text::decimal(card as nat) + "/device/power_dpm_force_performance_level"@
}

/// `/sys/class/drm/card<card>/device/power_dpm_force_performance_level`.
pub fn gpu_level_path(card: u32) -> (r: String)
    ensures
        r@ == gpu_level_file(card),
{
    let mut r = "/sys/class/drm/card".to_owned();
    text::push_decimal(&mut r, card as u128);
    r.append("/device/power_dpm_force_performance_level");
    r
}


/// What a command is for; it decides the wording of its failures.
#[derive(Debug)]
pub enum CommandKind {
    /// The privileged GPU helper, run through `pkexec`.
    Helper,
    /// `tuned-adm profile <profile>`.
    TunedProfile { profile: String },
}

/// A command run with a time limit.
#[derive(Debug)]
pub struct TimedCommand {
    pub program: String,
    pub args: Vec<String>,
    pub timeout_secs: u64,
    pub kind: CommandKind,
}

/// How long the helper and `tuned-adm` may run, in seconds.
pub open spec fn command_timeout_secs() -> u64 {
    8
}

/// The GPU helper run through `pkexec` with `args`: `pkexec <GPUCTL_PATH> <args>`,
/// limited to 8 seconds.
pub fn run_pkexec_gpuctl(args: &Vec<String>) -> (r: TimedCommand)
    ensures
        r.program@ == "pkexec"@,
        r.args@.len() == args@.len() + 1,
        r.args@[0]@ == config::GPUCTL_PATH@,
        r.args@.subrange(1, r.args@.len() as int) == args@,
        r.timeout_secs == command_timeout_secs(),
        r.kind is Helper,
{
    let mut a: Vec<String> = Vec::new();
    a.push(config::GPUCTL_PATH.to_owned());
    let mut i: usize = 0;
    while i < args.len()
        invariant
            i <= args@.len(),
            a@.len() == i + 1,
            a@[0]@ == config::GPUCTL_PATH@,
            a@.subrange(1, a@.len() as int) == args@.subrange(0, i as int),
        decreases args@.len() - i,
    {
        let ghost prev = a@;
        a.push(args[i].clone());
        assert(a@.subrange(1, a@.len() as int) == prev.subrange(1, prev.len() as int).push(args@[i as int]));
        assert(args@.subrange(0, i + 1) == args@.subrange(0, i as int).push(args@[i as int]));
        i = i + 1;
    }
    assert(args@.subrange(0, args@.len() as int) == args@);
    TimedCommand { program: "pkexec".to_owned(), args: a, timeout_secs: 8, kind: CommandKind::Helper }
}

/// `tuned-adm profile <profile>`, limited to 8 seconds.
pub fn tuned_set_profile(profile: &str) -> (r: TimedCommand)
    ensures
        r.program@ == "tuned-adm"@,
        r.args@.len() == 2,
        r.args@[0]@ == "profile"@,
        r.args@[1]@ == profile@,
        r.timeout_secs == command_timeout_secs(),
        r.kind matches CommandKind::TunedProfile { profile: p } && p@ == profile@,
{
    let mut a: Vec<String> = Vec::new();
    a.push("profile".to_owned());
    a.push(profile.to_owned());
    TimedCommand {
        program: "tuned-adm".to_owned(),
        args: a,
        timeout_secs: 8,
        kind: CommandKind::TunedProfile { profile: profile.to_owned() },
    }
}

/// How a timed command failed.
#[derive(Debug)]
pub enum CommandFailure {
    /// It could not be started (the reason).
    Launch(String),
    /// It ran past its limit of this many seconds and was killed.
    Timeout(u64),
    /// It exited unsuccessfully (the exit status, as printed).
    Exit(String),
}

/// How long to sleep between two polls of a timed command, in milliseconds.
pub const WAIT_POLL_MS: u64 = 50;

/// What one poll of a running timed command found.
#[derive(Debug)]
pub enum ChildPoll {
    /// It exited: whether successfully, and its exit status as printed.
    Exited { success: bool, status: String },
    /// It is still running.
    Running,
    /// Polling it failed (the reason).
    Error(String),
}

/// What to do after a poll of a timed command.
#[derive(Debug)]
pub enum WaitStep {
    /// It succeeded: stop.
    Done,
    /// Stop with this failure.
    Fail(CommandFailure),
    /// Its time is up: kill it, reap it, and fail with a timeout of this many seconds.
    TimeUp(u64),
    /// Sleep, then poll again.
    Wait,
}

/// Decides, after a poll, whether a timed command is done, failed, out of time,
/// or to be waited for; `elapsed_ms` is the time since it was started and
/// `timeout_ms` its limit. A timeout is reported in whole seconds.
pub fn wait_step(poll: ChildPoll, elapsed_ms: u64, timeout_ms: u64) -> (r: WaitStep)
    ensures
        match poll {
            ChildPoll::Exited { success, status } => if success {
                r is Done
            } else {
                r matches WaitStep::Fail(CommandFailure::Exit(s)) && s == status
            },
            ChildPoll::Error(e) => r matches WaitStep::Fail(CommandFailure::Launch(m)) && m == e,
            ChildPoll::Running => if elapsed_ms >= timeout_ms {
                r matches WaitStep::TimeUp(t) && t == timeout_ms / 1000
            } else {
                r is Wait
            },
        },
{
    match poll {
        ChildPoll::Exited { success, status } => {
            if success {
                WaitStep::Done
            } else {
                WaitStep::Fail(CommandFailure::Exit(status))
            }
        },
        ChildPoll::Error(e) => WaitStep::Fail(CommandFailure::Launch(e)),
        ChildPoll::Running => {
            if elapsed_ms >= timeout_ms {
                WaitStep::TimeUp(timeout_ms / 1000)
            } else {
                WaitStep::Wait
            }
        },
    }
}

/// The error text of a failed command.
pub open spec fn failure_text(kind: CommandKind, f: CommandFailure) -> Seq<char> {
    match kind {
        CommandKind::Helper => match f {
            CommandFailure::Launch(e) => "pkexec launch failed: "@ + e@,
            CommandFailure::Timeout(secs) => "helper timed out after "@ + text::decimal(secs as nat) + "s"@,
            CommandFailure::Exit(status) => "helper exited with status "@ + status@,
        },
        CommandKind::TunedProfile { profile } => match f {
            CommandFailure::Launch(e) => "failed to launch tuned-adm: "@ + e@,
            CommandFailure::Timeout(secs) => "tuned-adm timed out after "@ + text::decimal(secs as nat)
                + "s"@,
            CommandFailure::Exit(status) => "tuned-adm profile "@ + profile@ + " failed: "@ + status@,
        },
    }
}

/// Words the failure of a timed command.
pub fn failure_message(kind: &CommandKind, f: &CommandFailure) -> (r: String)
    ensures
        r@ == failure_text(*kind, *f),
{
    match kind {
        CommandKind::Helper => match f {
            CommandFailure::Launch(e) => {
                let mut r = "pkexec launch failed: ".to_owned();
                r.append(e.as_str());
                r
            },
            CommandFailure::Timeout(secs) => {
                let mut r = "helper timed out after ".to_owned();
                text::push_decimal(&mut r, *secs as u128);
                r.append("s");
                r
            },
            CommandFailure::Exit(status) => {
                let mut r = "helper exited with status ".to_owned();
                r.append(status.as_str());
                r
            },
        },
        CommandKind::TunedProfile { profile } => match f {
            CommandFailure::Launch(e) => {
                let mut r = "failed to launch tuned-adm: ".to_owned();
                r.append(e.as_str());
                r
            },
            CommandFailure::Timeout(secs) => {
                let mut r = "tuned-adm timed out after ".to_owned();
                text::push_decimal(&mut r, *secs as u128);
                r.append("s");
                r
            },
            CommandFailure::Exit(status) => {
                let mut r = "tuned-adm profile ".to_owned();
                r.append(profile.as_str());
                r.append(" failed: ");
                r.append(status.as_str());
                r
            },
        },
    }
}

/// Why a GPU level read or write is refused.
#[derive(Debug)]
pub enum GpuLevelError {
    /// The file holds no known level (its trimmed content).
    Unsupported { raw: String },
    /// After writing, the file holds another level.
    Mismatch { card: u32, expected: AmdGpuLevel, got: AmdGpuLevel },
}

/// The level read from the sysfs file content `raw`.
pub fn read_gpu_level(raw: &str) -> (r: Result<AmdGpuLevel, GpuLevelError>)
    ensures
        match config::level_named(text::trimmed(raw@)) {
            Some(level) => r == Ok::<AmdGpuLevel, GpuLevelError>(level),
            None => r matches Err(GpuLevelError::Unsupported { raw: t }) && t@ == text::trimmed(raw@),
        },
{
    match AmdGpuLevel::parse_sysfs(raw) {
        Some(level) => Ok(level),
        None => Err(GpuLevelError::Unsupported { raw: text::trim(raw).to_owned() }),
    }
}

/// What is written to the sysfs file to select `level`.
pub fn gpu_level_contents(level: AmdGpuLevel) -> (r: String)
    ensures
        r@ == config::level_name(level).push('\n'),
{
    let mut r = level.as_str().to_owned();
    proof {
        reveal_strlit("\n");
    }
    r.append("\n");
    r
}

/// Checks the file content `raw_after` read back after writing `expected` to card `card`.
pub fn write_gpu_level(card: u32, expected: AmdGpuLevel, raw_after: &str) -> (r: Result<(), GpuLevelError>)
    ensures
        match config::level_named(text::trimmed(raw_after@)) {
            Some(level) => if level == expected {
                r is Ok
            } else {
                r == Err::<(), GpuLevelError>(GpuLevelError::Mismatch { card, expected, got: level })
            },
            None => r matches Err(GpuLevelError::Unsupported { raw: t }) && t@ == text::trimmed(raw_after@),
        },
{
    match read_gpu_level(raw_after) {
        Ok(now) => {
            if now == expected {
                Ok(())
            } else {
                Err(GpuLevelError::Mismatch { card, expected, got: now })
            }
        },
        Err(e) => Err(e),
    }
}

/// Reading back what was written succeeds: the check after a write that the
/// file kept passes.
pub proof fn lemma_written_level_reads_back(level: AmdGpuLevel)
    ensures
        config::level_named(text::trimmed(config::level_name(level).push('\n'))) == Some(level),
{
    config::lemma_level_name_roundtrip(level);
}


/// The text of a GPU level error.
pub open spec fn gpu_level_error_text(e: GpuLevelError) -> Seq<char> {
    match e {
        GpuLevelError::Unsupported { raw } => "unsupported amdgpu level '"@ + raw@ + "'"@,
        GpuLevelError::Mismatch { card, expected, got } => "failed to verify amdgpu level on card"@
            + text::decimal(card as nat) + ": expected "@ + config::level_name(expected) + ", got "@
            + config::level_name(got),
    }
}

impl GpuLevelError {
    /// The error as a sentence.
    pub fn message(&self) -> (r: String)
        ensures
            r@ == gpu_level_error_text(*self),
    {
        match self {
            GpuLevelError::Unsupported { raw } => {
                let mut r = "unsupported amdgpu level '".to_owned();
                r.append(raw.as_str());
                r.append("'");
                r
            },
            GpuLevelError::Mismatch { card, expected, got } => {
                let mut r = "failed to verify amdgpu level on card".to_owned();
                text::push_decimal(&mut r, *card as u128);
                r.append(": expected ");
                r.append(expected.as_str());
                r.append(", got ");
                r.append(got.as_str());
                r
            },
        }
    }
}

} // verus!
