use vstd::prelude::*;
use crate::config::AmdGpuLevel;
use crate::system;

verus! {

/// The command line of the privileged GPU helper.
#[derive(Debug)]
pub struct GpuCtlCli {
    pub command: GpuCtlCommand,
}

/// What the helper is asked to do: set a card's level on start or on restore.
#[derive(Debug)]
pub enum GpuCtlCommand {
    Apply { card: u32, level: AmdGpuLevelArg },
    Revert { card: u32, level: AmdGpuLevelArg },
}

/// A level as the helper's command line spells it.
#[derive(Debug, Clone, Copy, PartialEq, Eq, Structural)]
pub enum AmdGpuLevelArg {
    Auto,
    Low,
    High,
    Manual,
    ProfileStandard,
    ProfileMinSclk,
    ProfileMinMclk,
    ProfilePeak,
}

/// The level an argument names.
pub open spec fn level_of_arg(value: AmdGpuLevelArg) -> AmdGpuLevel {
    match value {
        AmdGpuLevelArg::Auto => AmdGpuLevel::Auto,
        AmdGpuLevelArg::Low => AmdGpuLevel::Low,
        AmdGpuLevelArg::High => AmdGpuLevel::High,
        AmdGpuLevelArg::Manual => AmdGpuLevel::Manual,
        AmdGpuLevelArg::ProfileStandard => AmdGpuLevel::ProfileStandard,
        AmdGpuLevelArg::ProfileMinSclk => AmdGpuLevel::ProfileMinSclk,
        AmdGpuLevelArg::ProfileMinMclk => AmdGpuLevel::ProfileMinMclk,
        AmdGpuLevelArg::ProfilePeak => AmdGpuLevel::ProfilePeak,
    }
}

impl From<AmdGpuLevelArg> for AmdGpuLevel {
    fn from(value: AmdGpuLevelArg) -> (r: AmdGpuLevel) {
        match value {
            AmdGpuLevelArg::Auto => AmdGpuLevel::Auto,
            AmdGpuLevelArg::Low => AmdGpuLevel::Low,
            AmdGpuLevelArg::High => AmdGpuLevel::High,
            AmdGpuLevelArg::Manual => AmdGpuLevel::Manual,
            AmdGpuLevelArg::ProfileStandard => AmdGpuLevel::ProfileStandard,
            AmdGpuLevelArg::ProfileMinSclk => AmdGpuLevel::ProfileMinSclk,
            AmdGpuLevelArg::ProfileMinMclk => AmdGpuLevel::ProfileMinMclk,
            AmdGpuLevelArg::ProfilePeak => AmdGpuLevel::ProfilePeak,
        }
    }
}

impl vstd::std_specs::convert::FromSpecImpl<AmdGpuLevelArg> for AmdGpuLevel {
    open spec fn obeys_from_spec() -> bool {
        true
    }

    open spec fn from_spec(v: AmdGpuLevelArg) -> AmdGpuLevel {
        level_of_arg(v)
    }
}

/// Different arguments name different levels.
pub proof fn lemma_level_of_arg_injective(a: AmdGpuLevelArg, b: AmdGpuLevelArg)
    ensures
        level_of_arg(a) == level_of_arg(b) ==> a == b,
{
}

/// How the helper's command line spells a level (`--level profile-peak`).
pub open spec fn arg_spelling(a: AmdGpuLevelArg) -> Seq<char> {
    match a {
        AmdGpuLevelArg::Auto => "auto"@,
        AmdGpuLevelArg::Low => "low"@,
        AmdGpuLevelArg::High => "high"@,
        AmdGpuLevelArg::Manual => "manual"@,
        AmdGpuLevelArg::ProfileStandard => "profile-standard"@,
        AmdGpuLevelArg::ProfileMinSclk => "profile-min-sclk"@,
        AmdGpuLevelArg::ProfileMinMclk => "profile-min-mclk"@,
        AmdGpuLevelArg::ProfilePeak => "profile-peak"@,
    }
}

/// `s` with each `-` turned into `_`.
pub open spec fn with_underscores(s: Seq<char>) -> Seq<char> {
    s.map_values(|c: char| if c == '-' { '_' } else { c })
}

/// The level an argument names is the one it spells: its sysfs name is the
/// argument's own spelling, with `_` for `-` (`high` gives `high`,
/// `profile-min-sclk` gives `profile_min_sclk`).
pub proof fn lemma_arg_names_its_level(a: AmdGpuLevelArg)
    ensures
        crate::config::level_name(level_of_arg(a)) == with_underscores(arg_spelling(a)),
{
    match a {
        AmdGpuLevelArg::Auto => {
            reveal_strlit("auto");
            assert(with_underscores(arg_spelling(a)) =~= "auto"@);
        },
        AmdGpuLevelArg::Low => {
            reveal_strlit("low");
            assert(with_underscores(arg_spelling(a)) =~= "low"@);
        },
        AmdGpuLevelArg::High => {
            reveal_strlit("high");
            assert(with_underscores(arg_spelling(a)) =~= "high"@);
        },
        AmdGpuLevelArg::Manual => {
            reveal_strlit("manual");
            assert(with_underscores(arg_spelling(a)) =~= "manual"@);
        },
        AmdGpuLevelArg::ProfileStandard => {
            reveal_strlit("profile-standard");
            reveal_strlit("profile_standard");
            assert(with_underscores(arg_spelling(a)) =~= "profile_standard"@);
        },
        AmdGpuLevelArg::ProfileMinSclk => {
            reveal_strlit("profile-min-sclk");
            reveal_strlit("profile_min_sclk");
            assert(with_underscores(arg_spelling(a)) =~= "profile_min_sclk"@);
        },
        AmdGpuLevelArg::ProfileMinMclk => {
            reveal_strlit("profile-min-mclk");
            reveal_strlit("profile_min_mclk");
            assert(with_underscores(arg_spelling(a)) =~= "profile_min_mclk"@);
        },
        AmdGpuLevelArg::ProfilePeak => {
            reveal_strlit("profile-peak");
            reveal_strlit("profile_peak");
            assert(with_underscores(arg_spelling(a)) =~= "profile_peak"@);
        },
    }
}

/// Why the helper refuses to act.
#[derive(Debug)]
pub enum HelperError {
    /// The helper runs without root privileges.
    NotRoot { helper: String },
}

/// The write the helper performs: `contents` into the level file `path` of `card`,
/// then a read back that must show `level`.
#[derive(Debug)]
pub struct GpuLevelWrite {
    pub card: u32,
    pub level: AmdGpuLevel,
    pub path: String,
    pub contents: String,
}

/// The card and level a helper command names.
pub open spec fn command_target(cmd: GpuCtlCommand) -> (u32, AmdGpuLevel) {
    match cmd {
        GpuCtlCommand::Apply { card, level } => (card, level_of_arg(level)),
        GpuCtlCommand::Revert { card, level } => (card, level_of_arg(level)),
    }
}

/// The level argument of a helper command.
pub open spec fn command_arg(cmd: GpuCtlCommand) -> AmdGpuLevelArg {
    match cmd {
        GpuCtlCommand::Apply { level, .. } => level,
        GpuCtlCommand::Revert { level, .. } => level,
    }
}

/// The helper refuses to run without root; otherwise both commands write the
/// requested level of the requested card.
pub fn run_gpuctl(cmd: &GpuCtlCommand, effective_root: bool) -> (r: Result<GpuLevelWrite, HelperError>)
    ensures
        !effective_root ==> (r matches Err(HelperError::NotRoot { helper }) && helper@ == "hoist-gpuctl"@),
        effective_root ==> (r matches Ok(w) && (w.card, w.level) == command_target(*cmd) && w.path@
            == system::gpu_level_file(w.card) && w.contents@ == crate::config::level_name(w.level).push(
            '\n',
        )),
        effective_root ==> (r matches Ok(w) && w.contents@ == with_underscores(arg_spelling(command_arg(*cmd))).push('\n')),
{
    if !effective_root {
        return Err(HelperError::NotRoot { helper: "hoist-gpuctl".to_owned() });
    }
    let (card, arg) = match cmd {
        GpuCtlCommand::Apply { card, level } => (*card, *level),
        GpuCtlCommand::Revert { card, level } => (*card, *level),
    };
    let level = AmdGpuLevel::from(arg);
    proof {
        lemma_arg_names_its_level(arg);
    }
    Ok(
        GpuLevelWrite {
            card,
            level,
            path: system::gpu_level_path(card),
            contents: system::gpu_level_contents(level),
        },
    )
}


impl HelperError {
    /// The error as a sentence.
    pub fn message(&self) -> (r: String)
        ensures
            self matches HelperError::NotRoot { helper } && r@ == helper@ + " must run as root"@,
    {
        match self {
            HelperError::NotRoot { helper } => {
                let mut r = helper.clone();
                r.append(" must run as root");
                r
            },
        }
    }
}

} // verus!
