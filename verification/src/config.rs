//! The settings of the tool and the small decisions around the files that
//! hold them. Reading and writing those files is the caller's.

use crate::models::{ProjectAnalysis, ProjectSnapshot};
use crate::text::{
    chars_contain, chars_end_with, contains_text, ends_with, from_chars, str_eq, to_chars,
};
use crate::utils::owned;
use vstd::prelude::*;
use vstd::string::StringExecFns;

verus! {

/// The name of the settings file of a project.
pub const CONFIG_FILE: &'static str = ".pj.yml";

/// Where, below the home directory, the settings for all projects lie.
pub const GLOBAL_CONFIG_DIR: &'static str = ".config/pj";

/// The endpoint of a new settings file.
pub const DEFAULT_CONFIG_API_URL: &'static str = "https://api.openai.com/v1/";

/// The model of a new settings file.
pub const DEFAULT_CONFIG_MODEL: &'static str = "gpt-4o-mini";

/// The settings: how to reach the analysis service, and what the last run
/// left behind.
#[derive(Debug, PartialEq, Eq)]
pub struct Config {
    pub api_url: String,
    pub api_key: String,
    pub model: String,
    /// The snapshot of the last run, if one is stored.
    pub generated: Option<ProjectAnalysis>,
    pub last_analysis: Option<String>,
    /// Where the last report was written.
    pub output: Option<String>,
}

/// Model of [`Config`].
pub struct Settings {
    pub api_url: Seq<char>,
    pub api_key: Seq<char>,
    pub model: Seq<char>,
    pub generated: Option<ProjectSnapshot>,
    pub last_analysis: Option<Seq<char>>,
    pub output: Option<Seq<char>>,
}

impl View for Config {
    type V = Settings;

    open spec fn view(&self) -> Settings {
        Settings {
            api_url: self.api_url@,
            api_key: self.api_key@,
            model: self.model@,
            generated: self.generated.deep_view(),
            last_analysis: self.last_analysis.deep_view(),
            output: self.output.deep_view(),
        }
    }
}

impl DeepView for Config {
    type V = Settings;

    open spec fn deep_view(&self) -> Settings {
        self@
    }
}

/// The settings of a new settings file.
pub open spec fn default_settings() -> Settings {
    Settings {
        api_url: DEFAULT_CONFIG_API_URL@,
        api_key: Seq::empty(),
        model: DEFAULT_CONFIG_MODEL@,
        generated: None,
        last_analysis: None,
        output: None,
    }
}

impl Default for Config {
    fn default() -> (r: Self)
        ensures
            r@ == default_settings(),
    {
        Config {
            api_url: owned(DEFAULT_CONFIG_API_URL),
            api_key: String::new(),
            model: owned(DEFAULT_CONFIG_MODEL),
            generated: None,
            last_analysis: None,
            output: None,
        }
    }
}

/// The settings in force: those of the project where it has a settings file,
/// else those for all projects where they exist, else the default ones.
pub fn effective_config(project: Option<Config>, global: Option<Config>) -> (r: Config)
    ensures
        r@ == match (project, global) {
            (Some(p), _) => p@,
            (None, Some(g)) => g@,
            (None, None) => default_settings(),
        },
{
    match project {
        Some(p) => p,
        None => match global {
            Some(g) => g,
            None => Config::default(),
        },
    }
}

/// Why a settings file could not be made or changed.
#[derive(Debug, Clone, Copy, PartialEq, Eq, Structural)]
pub enum ConfigError {
    /// The project has a settings file already.
    AlreadyExists,
    /// The project has no settings file yet.
    NotInitialized,
    /// No home directory is known.
    NoHomeDir,
}

impl ConfigError {
    /// The message shown for the error. After that of `AlreadyExists` the
    /// caller names the file.
    pub fn message(&self) -> (r: &'static str)
        ensures
            r@ == match self {
                ConfigError::AlreadyExists => "配置文件已存在："@,
                ConfigError::NotInitialized => "配置文件不存在，請先執行 pj init"@,
                ConfigError::NoHomeDir => "無法找到使用者主目錄"@,
            },
    {
        match self {
            ConfigError::AlreadyExists => "配置文件已存在：",
            ConfigError::NotInitialized => "配置文件不存在，請先執行 pj init",
            ConfigError::NoHomeDir => "無法找到使用者主目錄",
        }
    }
}

/// The settings to write when a project is initialized: the default ones,
/// unless the project has a settings file already.
pub fn init_config(config_exists: bool) -> (r: Result<Config, ConfigError>)
    ensures
        match r {
            Ok(c) => !config_exists && c@ == default_settings(),
            Err(e) => config_exists && e == ConfigError::AlreadyExists,
        },
{
    if config_exists {
        Err(ConfigError::AlreadyExists)
    } else {
        Ok(Config::default())
    }
}

/// Which settings file a change goes to.
#[derive(Debug, Clone, Copy, PartialEq, Eq, Structural)]
pub enum ConfigTarget {
    /// The settings for all projects.
    Global,
    /// The settings file of the project.
    Project,
}

/// Where changed settings are written: to the settings for all projects if
/// asked so, else to the project's file, which has to exist.
pub fn config_target(global: bool, project_config_exists: bool) -> (r: Result<
    ConfigTarget,
    ConfigError,
>)
    ensures
        r == if global {
            Ok::<ConfigTarget, ConfigError>(ConfigTarget::Global)
        } else if project_config_exists {
            Ok(ConfigTarget::Project)
        } else {
            Err(ConfigError::NotInitialized)
        },
{
    if global {
        Ok(ConfigTarget::Global)
    } else if project_config_exists {
        Ok(ConfigTarget::Project)
    } else {
        Err(ConfigError::NotInitialized)
    }
}

/// Where the settings for all projects lie, given the home directory, if one
/// is known.
pub fn global_config_dir(home: Option<&str>) -> (r: Result<String, ConfigError>)
    ensures
        match r {
            Ok(dir) => {
                &&& home matches Some(h)
                &&& dir@ == h@ + "/"@ + GLOBAL_CONFIG_DIR@
            },
            Err(e) => home is None && e == ConfigError::NoHomeDir,
        },
{
    match home {
        Some(h) => {
            let mut dir = String::new();
            dir.append(h);
            dir.append("/");
            dir.append(GLOBAL_CONFIG_DIR);
            assert(dir@ =~= h@ + "/"@ + GLOBAL_CONFIG_DIR@);
            Ok(dir)
        },
        None => Err(ConfigError::NoHomeDir),
    }
}

/// The models offered where the service does not list its own.
pub fn fallback_models() -> (r: Vec<String>)
    ensures
        r.len() == 3,
        r@[0]@ == "gpt-4"@,
        r@[1]@ == "gpt-4o-mini"@,
        r@[2]@ == "gpt-3.5-turbo"@,
{
    let mut r: Vec<String> = Vec::new();
    r.push(owned("gpt-4"));
    r.push(owned("gpt-4o-mini"));
    r.push(owned("gpt-3.5-turbo"));
    r
}

/// The models to choose from: those that the service listed, or the fallback
/// ones where it could not be asked.
pub fn models_or_fallback(listed: Option<Vec<String>>) -> (r: Vec<String>)
    ensures
        match listed {
            Some(l) => r == l,
            None => r.len() == 3 && r@[0]@ == "gpt-4"@ && r@[1]@ == "gpt-4o-mini"@ && r@[2]@
                == "gpt-3.5-turbo"@,
        },
{
    match listed {
        Some(l) => l,
        None => fallback_models(),
    }
}

/// The model to offer first: the first of `models` that is `current`, or the
/// first of all where `current` is not among them.
pub fn default_model_index(models: &[String], current: &str) -> (r: usize)
    ensures
        (exists|i: int| 0 <= i < models.len() && models@[i]@ == current@) ==> r < models.len()
            && models@[r as int]@ == current@ && forall|j: int|
            0 <= j < r ==> models@[j]@ != current@,
        (forall|i: int| 0 <= i < models.len() ==> models@[i]@ != current@) ==> r == 0,
{
    let mut i: usize = 0;
    while i < models.len()
        invariant
            i <= models.len(),
            forall|j: int| 0 <= j < i ==> models@[j]@ != current@,
        decreases models.len() - i,
    {
        if str_eq(models[i].as_str(), current) {
            return i;
        }
        i += 1;
    }
    0
}

/// The settings after the questions were answered: the answers, with what
/// the last run left behind kept as it was.
pub fn configured(current: Config, api_url: String, api_key: String, model: String) -> (r: Config)
    ensures
        r@ == (Settings {
            api_url: api_url@,
            api_key: api_key@,
            model: model@,
            generated: current@.generated,
            last_analysis: current@.last_analysis,
            output: current@.output,
        }),
{
    Config {
        api_url,
        api_key,
        model,
        generated: current.generated,
        last_analysis: current.last_analysis,
        output: current.output,
    }
}

/// What to write to the ignore file of version control so that it names the
/// settings file: nothing where it names it already; else what it holds,
/// closed by a line feed if it was not, and a line with the name. A missing
/// ignore file is made with that line alone.
pub open spec fn ignore_file_with_entry(existing: Option<Seq<char>>) -> Option<Seq<char>> {
    match existing {
        None => Some(CONFIG_FILE@ + "\n"@),
        Some(content) => if contains_text(content, CONFIG_FILE@) {
            None
        } else if ends_with(content, seq!['\n']) {
            Some(content + CONFIG_FILE@ + "\n"@)
        } else {
            Some(content + seq!['\n'] + CONFIG_FILE@ + "\n"@)
        },
    }
}

/// What to write to the ignore file, if anything.
pub fn ignore_file_update(existing: Option<&str>) -> (r: Option<String>)
    ensures
        r.deep_view() == ignore_file_with_entry(
            match existing {
                Some(c) => Some(c@),
                None => None,
            },
        ),
{
    match existing {
        None => {
            let mut out = String::new();
            out.append(CONFIG_FILE);
            out.append("\n");
            assert(out@ =~= CONFIG_FILE@ + "\n"@);
            Some(out)
        },
        Some(content) => {
            let chars = to_chars(content);
            let name = to_chars(CONFIG_FILE);
            if chars_contain(&chars, &name) {
                None
            } else {
                let feed: Vec<char> = vec!['\n'];
                assert(feed@ == seq!['\n']);
                let mut out = String::new();
                out.append(content);
                if !chars_end_with(&chars, &feed) {
                    out.push('\n');
                }
                out.append(CONFIG_FILE);
                out.append("\n");
                assert(out@ =~= if ends_with(content@, seq!['\n']) {
                    content@ + CONFIG_FILE@ + "\n"@
                } else {
                    content@ + seq!['\n'] + CONFIG_FILE@ + "\n"@
                });
                Some(out)
            }
        },
    }
}

/// The settings to save after a run, if any: a run on a report given by the
/// caller (`input`) leaves the settings alone; any other run stores its
/// snapshot in them, and the place of its report where one was named.
pub fn store_results(
    config: Config,
    analysis: ProjectAnalysis,
    input: Option<&str>,
    output: Option<&str>,
) -> (r: Option<Config>)
    ensures
        match r {
            Some(c) => input is None && c@ == (Settings {
                api_url: config@.api_url,
                api_key: config@.api_key,
                model: config@.model,
                generated: Some(analysis@),
                last_analysis: config@.last_analysis,
                output: match output {
                    Some(o) => Some(o@),
                    None => config@.output,
                },
            }),
            None => input is Some,
        },
{
    if input.is_some() {
        return None;
    }
    let out = match output {
        Some(o) => Some(owned(o)),
        None => config.output,
    };
    Some(
        Config {
            api_url: config.api_url,
            api_key: config.api_key,
            model: config.model,
            generated: Some(analysis),
            last_analysis: config.last_analysis,
            output: out,
        },
    )
}

/// The stored snapshot that a run starts from: the report given by the
/// caller where one was named, whether or not it could be read; else the
/// snapshot in the settings. `None` stands for no usable snapshot.
pub fn select_prior(
    input_given: bool,
    from_input: Option<ProjectAnalysis>,
    config: Config,
) -> (r: Option<ProjectAnalysis>)
    ensures
        r.deep_view() == if input_given {
            from_input.deep_view()
        } else {
            config@.generated
        },
{
    if input_given {
        from_input
    } else {
        config.generated
    }
}

} // verus!
