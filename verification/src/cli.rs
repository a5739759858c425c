use vstd::prelude::*;
use crate::config::{Config, ConfigPaths, Profile};
use crate::runtime::RunError;
use crate::config;
use crate::text;

verus! {

/// The command line of `hoist`.
#[derive(Debug)]
pub struct Cli {
    pub config: Option<String>,
    pub profile: Option<String>,
    pub env: Vec<String>,
    pub subcommand: Option<HoistSubcommand>,
    pub command: Vec<String>,
}

/// The subcommands of `hoist`.
#[derive(Debug)]
pub enum HoistSubcommand {
    ValidateConfig { config: Option<String> },
    PrintConfigPaths,
    Inspect,
    HelperInfo,
}

/// The profile to use: the one asked for on the command line, else the
/// configuration's default profile.
pub fn selected_profile(requested: &Option<String>, cfg: &Config) -> (r: String)
    ensures
        r@ == match requested {
            Some(p) => p@,
            None => cfg.global.default_profile@,
        },
{
    match requested {
        Some(p) => p.clone(),
        None => cfg.global.default_profile.clone(),
    }
}


/// `true` or `false`, as booleans print.
pub open spec fn bool_text(b: bool) -> Seq<char> {
    if b {
        "true"@
    } else {
        "false"@
    }
}

fn push_bool(s: &mut String, b: bool)
    ensures
        final(s)@ == old(s)@ + bool_text(b),
{
    if b {
        s.append("true");
    } else {
        s.append("false");
    }
}

/// The lines of `print-config-paths`.
pub fn config_paths_report(paths: &ConfigPaths) -> (r: Vec<String>)
    ensures
        r@.len() == 3,
        r@[0]@ == "system_config="@ + paths.system@ + " exists="@ + bool_text(paths.system_exists),
        r@[1]@ == "user_config="@ + paths.user@ + " exists="@ + bool_text(paths.user_exists),
        r@[2]@ == "selected_config="@ + paths.selected@,
{
    let mut a = "system_config=".to_owned();
    a.append(paths.system.as_str());
    a.append(" exists=");
    push_bool(&mut a, paths.system_exists);
    let mut b = "user_config=".to_owned();
    b.append(paths.user.as_str());
    b.append(" exists=");
    push_bool(&mut b, paths.user_exists);
    let mut c = "selected_config=".to_owned();
    c.append(paths.selected.as_str());
    let mut r: Vec<String> = Vec::new();
    r.push(a);
    r.push(b);
    r.push(c);
    r
}

/// The lines of `helper-info`.
pub fn helper_info_report(helper_exists: bool) -> (r: Vec<String>)
    ensures
        r@.len() == 2,
        r@[0]@ == "gpuctl_path="@ + config::GPUCTL_PATH@,
        r@[1]@ == "gpuctl_exists="@ + bool_text(helper_exists),
{
    let mut a = "gpuctl_path=".to_owned();
    a.append(config::GPUCTL_PATH);
    let mut b = "gpuctl_exists=".to_owned();
    push_bool(&mut b, helper_exists);
    let mut r: Vec<String> = Vec::new();
    r.push(a);
    r.push(b);
    r
}

/// The profile that `inspect` describes: the one named `name`, or an
/// unknown-profile error when the configuration has none of that name.
pub fn inspect_profile<'a>(cfg: &'a Config, name: &str) -> (r: Result<&'a Profile, RunError>)
    ensures
        match r {
            Ok(p) => config::lookup(cfg.profile.entries(), name@) == Some(*p),
            Err(e) => config::lookup(cfg.profile.entries(), name@) is None && (e matches RunError::UnknownProfile {
                name: n,
            } && n@ == name@),
        },
{
    match cfg.profile.get(name) {
        Some(p) => Ok(p),
        None => Err(RunError::UnknownProfile { name: name.to_owned() }),
    }
}

/// What `inspect` found out about the system.
#[derive(Debug)]
pub struct InspectFacts {
    pub selected_config: String,
    pub profile: String,
    pub require_all: bool,
    pub helper_exists: bool,
    pub in_hoist_group: bool,
    pub tuned_active: Option<String>,
    /// The card of the profile's GPU block, with the level read from it.
    pub gpu: Option<(u32, Option<config::AmdGpuLevel>)>,
}

/// The lines of `inspect`.
pub open spec fn inspect_lines(f: InspectFacts) -> Seq<Seq<char>> {
    seq![
        "selected_config="@ + f.selected_config@,
        "selected_profile="@ + f.profile@,
        "require_all="@ + bool_text(f.require_all),
        "gpuctl_path="@ + config::GPUCTL_PATH@ + " exists="@ + bool_text(f.helper_exists),
        "user_in_hoist_group="@ + bool_text(f.in_hoist_group),
        "tuned_active="@ + match f.tuned_active {
            Some(v) => v@,
            None => "unavailable"@,
        },
    ] + match f.gpu {
        Some((card, level)) => seq![
            "amdgpu_card"@ + text::decimal(card as nat) + "_level="@ + match level {
                Some(l) => config::level_name(l),
                None => "unavailable"@,
            },
        ],
        None => seq![],
    }
}

/// Builds the lines of `inspect`.
pub fn inspect_report(f: &InspectFacts) -> (r: Vec<String>)
    ensures
        r@.map_values(|s: String| s@) == inspect_lines(*f),
{
    let mut r: Vec<String> = Vec::new();
    let mut l = "selected_config=".to_owned();
    l.append(f.selected_config.as_str());
    r.push(l);
    let mut l = "selected_profile=".to_owned();
    l.append(f.profile.as_str());
    r.push(l);
    let mut l = "require_all=".to_owned();
    push_bool(&mut l, f.require_all);
    r.push(l);
    let mut l = "gpuctl_path=".to_owned();
    l.append(config::GPUCTL_PATH);
    l.append(" exists=");
    push_bool(&mut l, f.helper_exists);
    r.push(l);
    let mut l = "user_in_hoist_group=".to_owned();
    push_bool(&mut l, f.in_hoist_group);
    r.push(l);
    let mut l = "tuned_active=".to_owned();
    match &f.tuned_active {
        Some(v) => l.append(v.as_str()),
        None => l.append("unavailable"),
    }
    r.push(l);
    if let Some((card, level)) = &f.gpu {
        let mut l = "amdgpu_card".to_owned();
        text::push_decimal(&mut l, *card as u128);
        l.append("_level=");
        match level {
            Some(lv) => l.append(lv.as_str()),
            None => l.append("unavailable"),
        }
        r.push(l);
    }
    assert(r@.map_values(|s: String| s@) =~= inspect_lines(*f));
    r
}

} // verus!
