//! The command line as values, and what each command asks for. Parsing the
//! arguments and carrying the commands out is the caller's.

use crate::openai::{DEFAULT_API_URL, DEFAULT_MODEL};
use crate::utils::owned;
use vstd::prelude::*;

verus! {

/// The arguments of a call.
#[derive(Debug, Clone, PartialEq, Eq)]
pub struct Args {
    /// The project to analyze.
    pub path: String,
    pub api_url: Option<String>,
    pub api_key: Option<String>,
    pub model: Option<String>,
    /// Where the report goes.
    pub output: Option<String>,
    /// Whether the report is written as JSON.
    pub json: bool,
    /// Whether files are counted and fingerprinted only.
    pub skip_ai: bool,
    pub log_level: String,
    /// An earlier report to start from.
    pub input: Option<String>,
    /// Whether stored analyses are kept and only the report is renewed.
    pub keep: bool,
    pub command: Option<Commands>,
}

/// The commands of the tool.
#[derive(Debug, Clone, PartialEq, Eq)]
pub enum Commands {
    /// Gives the project a settings file.
    Init,
    /// Asks for the settings.
    Config { global: bool },
    /// Brings the stored report up to date.
    Update {
        input: Option<String>,
        api_url: Option<String>,
        api_key: Option<String>,
        model: Option<String>,
        keep: bool,
    },
    /// Renders a stored JSON report as Markdown.
    GenerateMd { report: String, output: Option<String> },
}

/// Why a call cannot be carried out.
#[derive(Debug, Clone, Copy, PartialEq, Eq, Structural)]
pub enum CliError {
    /// The project path does not exist.
    PathNotFound,
    /// `--output` was given to `init`.
    OutputWithInit,
    /// `--output` was given to `config`.
    OutputWithConfig,
    /// Files are to be analyzed and no key for the service was given.
    MissingApiKey,
}

impl CliError {
    /// The message shown for the error. After that of `PathNotFound` the
    /// caller names the path.
    pub fn message(&self) -> (r: &'static str)
        ensures
            r@ == match self {
                CliError::PathNotFound => "指定的路徑不存在："@,
                CliError::OutputWithInit => "`--output` 選項不適用於 `init` 子命令"@,
                CliError::OutputWithConfig => "`--output` 選項不適用於 `config` 子命令"@,
                CliError::MissingApiKey => "API key is required for AI analysis"@,
            },
    {
        match self {
            CliError::PathNotFound => "指定的路徑不存在：",
            CliError::OutputWithInit => "`--output` 選項不適用於 `init` 子命令",
            CliError::OutputWithConfig => "`--output` 選項不適用於 `config` 子命令",
            CliError::MissingApiKey => "API key is required for AI analysis",
        }
    }

    /// The exit code of a call that ended in this error. Success is zero.
    pub fn exit_code(&self) -> (r: u8)
        ensures
            r == 1,
    {
        1
    }
}

/// What a call asks for.
#[derive(Debug, Clone, PartialEq, Eq)]
pub enum Action {
    Init,
    Configure { global: bool },
    /// An update with these arguments.
    Update(Args),
    /// The JSON report at `report` rendered to `output`.
    GenerateMd { report: String, output: String },
    /// No command: an update where there is something to update, a fresh
    /// analysis otherwise.
    DefaultAnalysis,
}

/// `first` where it is given, else `second`.
pub open spec fn or_else(first: Option<Seq<char>>, second: Option<Seq<char>>) -> Option<Seq<char>> {
    match first {
        Some(_) => first,
        None => second,
    }
}

fn pick(first: &Option<String>, second: &Option<String>) -> (r: Option<String>)
    ensures
        r.deep_view() == or_else(first.deep_view(), second.deep_view()),
{
    match first {
        Some(s) => Some(s.clone()),
        None => match second {
            Some(s) => Some(s.clone()),
            None => None,
        },
    }
}

/// Where a Markdown report goes when no place is named.
pub const DEFAULT_MARKDOWN_REPORT: &'static str = "analysis_report.md";

/// Where a JSON report goes when no place is named.
pub const DEFAULT_JSON_REPORT: &'static str = "analysis_report.json";

impl Args {
    /// The arguments of an update: what the command itself was given comes
    /// before what the call was given; `keep` is the command's own.
    pub fn for_update(
        &self,
        input: &Option<String>,
        api_url: &Option<String>,
        api_key: &Option<String>,
        model: &Option<String>,
        keep: bool,
    ) -> (r: Args)
        ensures
            r.path@ == self.path@,
            r.api_url.deep_view() == or_else(api_url.deep_view(), self.api_url.deep_view()),
            r.api_key.deep_view() == or_else(api_key.deep_view(), self.api_key.deep_view()),
            r.model.deep_view() == or_else(model.deep_view(), self.model.deep_view()),
            r.input.deep_view() == or_else(input.deep_view(), self.input.deep_view()),
            r.output.deep_view() == self.output.deep_view(),
            r.json == self.json,
            r.skip_ai == self.skip_ai,
            r.log_level@ == self.log_level@,
            r.keep == keep,
            r.command is None,
    {
        Args {
            path: self.path.clone(),
            api_url: pick(api_url, &self.api_url),
            api_key: pick(api_key, &self.api_key),
            model: pick(model, &self.model),
            output: pick(&self.output, &None),
            json: self.json,
            skip_ai: self.skip_ai,
            log_level: self.log_level.clone(),
            input: pick(input, &self.input),
            keep,
            command: None,
        }
    }
}

/// What the call `args` asks for, or why it cannot be carried out.
/// `path_exists` says whether the project path was found.
pub fn plan_command(args: &Args, path_exists: bool) -> (r: Result<Action, CliError>)
    ensures
        !path_exists ==> r == Err::<Action, CliError>(CliError::PathNotFound),
        path_exists ==> match args.command {
            None => r == Ok::<Action, CliError>(Action::DefaultAnalysis),
            Some(Commands::Init) => r == if args.output is Some {
                Err::<Action, CliError>(CliError::OutputWithInit)
            } else {
                Ok(Action::Init)
            },
            Some(Commands::Config { global }) => r == if args.output is Some {
                Err::<Action, CliError>(CliError::OutputWithConfig)
            } else {
                Ok(Action::Configure { global })
            },
            Some(Commands::Update { input, api_url, api_key, model, keep }) => {
                &&& r matches Ok(Action::Update(u))
                &&& u.path@ == args.path@
                &&& u.api_url.deep_view() == or_else(api_url.deep_view(), args.api_url.deep_view())
                &&& u.api_key.deep_view() == or_else(api_key.deep_view(), args.api_key.deep_view())
                &&& u.model.deep_view() == or_else(model.deep_view(), args.model.deep_view())
                &&& u.input.deep_view() == or_else(input.deep_view(), args.input.deep_view())
                &&& u.output.deep_view() == args.output.deep_view()
                &&& u.json == args.json
                &&& u.skip_ai == args.skip_ai
                &&& u.log_level@ == args.log_level@
                &&& u.keep == keep
                &&& u.command is None
            },
            Some(Commands::GenerateMd { report, output }) => {
                &&& r matches Ok(Action::GenerateMd { report: from, output: to })
                &&& from@ == report@
                &&& to@ == match output {
                    Some(o) => o@,
                    None => DEFAULT_MARKDOWN_REPORT@,
                }
            },
        },
{
    if !path_exists {
        return Err(CliError::PathNotFound);
    }
    match &args.command {
        None => Ok(Action::DefaultAnalysis),
        Some(Commands::Init) => {
            if args.output.is_some() {
                Err(CliError::OutputWithInit)
            } else {
                Ok(Action::Init)
            }
        },
        Some(Commands::Config { global }) => {
            if args.output.is_some() {
                Err(CliError::OutputWithConfig)
            } else {
                Ok(Action::Configure { global: *global })
            }
        },
        Some(Commands::Update { input, api_url, api_key, model, keep }) => {
            Ok(Action::Update(args.for_update(input, api_url, api_key, model, *keep)))
        },
        Some(Commands::GenerateMd { report, output }) => {
            let to = match output {
                Some(o) => o.clone(),
                None => owned(DEFAULT_MARKDOWN_REPORT),
            };
            Ok(Action::GenerateMd { report: report.clone(), output: to })
        },
    }
}

/// What a call without a command does.
#[derive(Debug, Clone, Copy, PartialEq, Eq, Structural)]
pub enum DefaultAction {
    /// Brings the stored report up to date.
    UpdateReport,
    /// Analyzes the project from nothing.
    FreshAnalysis,
}

/// What a call without a command does: an update where an earlier report was
/// named or the project has a settings file, a fresh analysis otherwise.
pub fn default_action(input_given: bool, has_config: bool) -> (r: DefaultAction)
    ensures
        r == if input_given || has_config {
            DefaultAction::UpdateReport
        } else {
            DefaultAction::FreshAnalysis
        },
{
    if input_given || has_config {
        DefaultAction::UpdateReport
    } else {
        DefaultAction::FreshAnalysis
    }
}

/// The report that a fresh analysis writes.
#[derive(Debug, Clone, PartialEq, Eq)]
pub enum ReportTarget {
    /// A JSON report at this place.
    Json(String),
    /// A Markdown report at this place.
    Markdown(String),
}

/// The report that a fresh analysis writes: JSON if asked so, else Markdown,
/// at `output` or at the default place of its kind.
pub fn report_target(json: bool, output: &Option<String>) -> (r: ReportTarget)
    ensures
        match r {
            ReportTarget::Json(p) => json && p@ == match output {
                Some(o) => o@,
                None => DEFAULT_JSON_REPORT@,
            },
            ReportTarget::Markdown(p) => !json && p@ == match output {
                Some(o) => o@,
                None => DEFAULT_MARKDOWN_REPORT@,
            },
        },
{
    if json {
        ReportTarget::Json(
            match output {
                Some(o) => o.clone(),
                None => owned(DEFAULT_JSON_REPORT),
            },
        )
    } else {
        ReportTarget::Markdown(
            match output {
                Some(o) => o.clone(),
                None => owned(DEFAULT_MARKDOWN_REPORT),
            },
        )
    }
}

/// How the analysis service is reached.
#[derive(Debug, Clone, PartialEq, Eq)]
pub struct AiSettings {
    pub api_url: String,
    pub api_key: String,
    pub model: String,
}

/// How the analysis service is reached in a run with `args`: not at all
/// (`None`) where analysis is skipped; else with the key given, which has to
/// be there, and the endpoint and model given or their defaults.
pub fn ai_settings(args: &Args) -> (r: Result<Option<AiSettings>, CliError>)
    ensures
        match r {
            Ok(None) => args.skip_ai,
            Ok(Some(s)) => {
                &&& !args.skip_ai
                &&& args.api_key.deep_view() == Some(s.api_key@)
                &&& s.api_url@ == match args.api_url {
                    Some(u) => u@,
                    None => DEFAULT_API_URL@,
                }
                &&& s.model@ == match args.model {
                    Some(m) => m@,
                    None => DEFAULT_MODEL@,
                }
            },
            Err(e) => !args.skip_ai && args.api_key is None && e == CliError::MissingApiKey,
        },
{
    if args.skip_ai {
        return Ok(None);
    }
    match &args.api_key {
        None => Err(CliError::MissingApiKey),
        Some(key) => {
            let api_url = match &args.api_url {
                Some(u) => u.clone(),
                None => owned(DEFAULT_API_URL),
            };
            let model = match &args.model {
                Some(m) => m.clone(),
                None => owned(DEFAULT_MODEL),
            };
            Ok(Some(AiSettings { api_url, api_key: key.clone(), model }))
        },
    }
}

} // verus!
