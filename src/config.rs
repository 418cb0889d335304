use vstd::prelude::*;

use crate::validate::join_path;

verus! {

/// Target word counts of the generated reports, by period.
#[derive(Debug, Clone)]
pub struct ReportDefaults {
    pub daily: u32,
    pub weekly: u32,
    pub monthly: u32,
    pub quarterly: u32,
    pub yearly: u32,
}

/// A nested repository of a project and whether it is included.
#[derive(Debug, Clone)]
pub struct SubmoduleConfig {
    pub path: String,
    pub name: String,
    pub enabled: bool,
}

/// A project: a repository, its author filters and its submodules.
#[derive(Debug, Clone)]
pub struct ProjectConfig {
    pub id: String,
    pub name: String,
    pub repo_path: String,
    pub authors: Vec<String>,
    pub submodules: Vec<SubmoduleConfig>,
}

/// Model-service settings found on a project by an older layout of the
/// configuration file; each is absent when the file did not hold a string.
#[derive(Debug, Clone)]
pub struct LegacyLlm {
    pub api_key: Option<String>,
    pub base_url: Option<String>,
    pub model: Option<String>,
}

impl Default for ReportDefaults {
    fn default() -> (r: Self)
        ensures
            r.daily == 100 && r.weekly == 300 && r.monthly == 500 && r.quarterly == 800 && r.yearly
                == 1000,
    {
        ReportDefaults { daily: 100, weekly: 300, monthly: 500, quarterly: 800, yearly: 1000 }
    }
}

/// `v` with an older default `from` replaced by its successor `to`.
pub open spec fn renewed(v: u32, from: u32, to: u32) -> u32 {
    if v == from {
        to
    } else {
        v
    }
}

/// Whether any count still holds an older default.
pub open spec fn outdated(r: ReportDefaults) -> bool {
    r.daily == 300 || r.weekly == 800 || r.monthly == 1500 || r.quarterly == 3000 || r.yearly
        == 5000
}

/// Replaces the older default word counts (300, 800, 1500, 3000, 5000) by
/// the current ones (100, 300, 500, 800, 1000), each period on its own;
/// other values stay. Returns whether anything changed.
pub fn migrate_report_defaults(r: &mut ReportDefaults) -> (changed: bool)
    ensures
        changed == outdated(*old(r)),
        final(r).daily == renewed(old(r).daily, 300, 100),
        final(r).weekly == renewed(old(r).weekly, 800, 300),
        final(r).monthly == renewed(old(r).monthly, 1500, 500),
        final(r).quarterly == renewed(old(r).quarterly, 3000, 800),
        final(r).yearly == renewed(old(r).yearly, 5000, 1000),
{
    let mut changed = false;
    if r.daily == 300 {
        r.daily = 100;
        changed = true;
    }
    if r.weekly == 800 {
        r.weekly = 300;
        changed = true;
    }
    if r.monthly == 1500 {
        r.monthly = 500;
        changed = true;
    }
    if r.quarterly == 3000 {
        r.quarterly = 800;
        changed = true;
    }
    if r.yearly == 5000 {
        r.yearly = 1000;
        changed = true;
    }
    changed
}

/// A legacy setting can be taken over when it has all three strings, with a
/// key and a model that are not empty.
pub open spec fn usable(c: LegacyLlm) -> bool {
    c.api_key is Some && c.base_url is Some && c.model is Some && c.api_key->0@.len() > 0
        && c.model->0@.len() > 0
}

/// Which project's legacy model settings to take over: none when the current
/// key and model are both set, else the first usable one.
pub fn legacy_llm_choice(api_key: &str, model: &str, candidates: &Vec<LegacyLlm>) -> (r: Option<
    usize,
>)
    ensures
        api_key@.len() > 0 && model@.len() > 0 ==> r is None,
        r is None && !(api_key@.len() > 0 && model@.len() > 0) ==> forall|i: int|
            0 <= i < candidates@.len() ==> !usable(#[trigger] candidates@[i]),
        r matches Some(i) ==> i < candidates@.len() && usable(candidates@[i as int]) && forall|
            j: int,
        | 0 <= j < i ==> !usable(#[trigger] candidates@[j]),
{
    if !api_key.is_empty() && !model.is_empty() {
        return None;
    }
    let mut i: usize = 0;
    while i < candidates.len()
        invariant
            i <= candidates@.len(),
            !(api_key@.len() > 0 && model@.len() > 0),
            forall|j: int| 0 <= j < i ==> !usable(#[trigger] candidates@[j]),
        decreases candidates@.len() - i,
    {
        let c = &candidates[i];
        let ok = match (&c.api_key, &c.base_url, &c.model) {
            (Some(k), Some(_), Some(m)) => !k.as_str().is_empty() && !m.as_str().is_empty(),
            _ => false,
        };
        if ok {
            return Some(i);
        }
        i = i + 1;
    }
    None
}

/// Name of the directory, under the user's configuration directory, that
/// holds this application's settings.
pub const APP_DIR_NAME: &'static str = "dev-report";

/// Name of the settings file.
pub const CONFIG_FILE_NAME: &'static str = "config.json";

/// Relies on `dirs::config_dir`: the user's configuration directory, which
/// depends on the platform and the environment.
#[verifier::external_body]
fn user_config_dir() -> Option<String> {
    match dirs::config_dir() {
        Some(p) => Some(p.to_string_lossy().into_owned()),
        None => None,
    }
}

/// The directory of this application's settings, or the message that the
/// platform has no configuration directory.
pub fn get_config_dir() -> (r: Result<String, String>)
    ensures
        r matches Err(e) ==> e@ == "无法获取配置目录"@,
{
    match user_config_dir() {
        Some(base) => Ok(join_path(base.as_str(), APP_DIR_NAME)),
        None => Err("无法获取配置目录".to_owned()),
    }
}

/// The path of the settings file, or the message that the platform has no
/// configuration directory.
pub fn get_config_file_path() -> (r: Result<String, String>)
    ensures
        r matches Err(e) ==> e@ == "无法获取配置目录"@,
{
    let dir = get_config_dir()?;
    Ok(join_path(dir.as_str(), CONFIG_FILE_NAME))
}

} // verus!
