use pj::cli::{
    ai_settings, default_action, plan_command, report_target, Action, AiSettings, Args, CliError,
    Commands, DefaultAction, ReportTarget,
};
use pj::utils::{json_report_path, retry_failure_message, retry_step, RetryStep, MAX_RETRIES, RETRY_DELAY_MS};
use pj::walk::{is_skipped_name, is_source_file, should_visit};

fn args(command: Option<Commands>) -> Args {
    Args {
        path: ".".to_string(),
        api_url: Some("http://top/".to_string()),
        api_key: None,
        model: Some("top-model".to_string()),
        output: None,
        json: true,
        skip_ai: false,
        log_level: "info".to_string(),
        input: None,
        keep: true,
        command,
    }
}

#[test]
fn missing_path_stops_every_command() {
    assert_eq!(plan_command(&args(None), false), Err(CliError::PathNotFound));
    assert_eq!(plan_command(&args(Some(Commands::Init)), false), Err(CliError::PathNotFound));
    assert_eq!(CliError::PathNotFound.message(), "指定的路徑不存在：");
    assert_eq!(CliError::PathNotFound.exit_code(), 1);
}

#[test]
fn init_and_config_take_no_output() {
    assert_eq!(plan_command(&args(Some(Commands::Init)), true), Ok(Action::Init));
    assert_eq!(
        plan_command(&args(Some(Commands::Config { global: true })), true),
        Ok(Action::Configure { global: true })
    );
    let mut a = args(Some(Commands::Init));
    a.output = Some("o".to_string());
    assert_eq!(plan_command(&a, true), Err(CliError::OutputWithInit));
    a.command = Some(Commands::Config { global: false });
    assert_eq!(plan_command(&a, true), Err(CliError::OutputWithConfig));
    assert_eq!(CliError::OutputWithInit.message(), "`--output` 選項不適用於 `init` 子命令");
    assert_eq!(CliError::OutputWithConfig.message(), "`--output` 選項不適用於 `config` 子命令");
}

#[test]
fn update_prefers_its_own_arguments() {
    let a = args(Some(Commands::Update {
        input: Some("in.json".to_string()),
        api_url: None,
        api_key: Some("sub-key".to_string()),
        model: Some("sub-model".to_string()),
        keep: false,
    }));
    let expected = Args {
        path: ".".to_string(),
        api_url: Some("http://top/".to_string()),
        api_key: Some("sub-key".to_string()),
        model: Some("sub-model".to_string()),
        output: None,
        json: true,
        skip_ai: false,
        log_level: "info".to_string(),
        input: Some("in.json".to_string()),
        keep: false,
        command: None,
    };
    assert_eq!(plan_command(&a, true), Ok(Action::Update(expected)));
}

#[test]
fn generate_md_has_a_default_output() {
    let a = args(Some(Commands::GenerateMd { report: "r.json".to_string(), output: None }));
    assert_eq!(
        plan_command(&a, true),
        Ok(Action::GenerateMd { report: "r.json".to_string(), output: "analysis_report.md".to_string() })
    );
    let a = args(Some(Commands::GenerateMd { report: "r.json".to_string(), output: Some("o.md".to_string()) }));
    assert_eq!(
        plan_command(&a, true),
        Ok(Action::GenerateMd { report: "r.json".to_string(), output: "o.md".to_string() })
    );
}

#[test]
fn no_command_is_the_default_analysis() {
    assert_eq!(plan_command(&args(None), true), Ok(Action::DefaultAnalysis));
    assert_eq!(default_action(false, false), DefaultAction::FreshAnalysis);
    assert_eq!(default_action(true, false), DefaultAction::UpdateReport);
    assert_eq!(default_action(false, true), DefaultAction::UpdateReport);
    assert_eq!(default_action(true, true), DefaultAction::UpdateReport);
}

#[test]
fn report_goes_to_the_named_or_the_default_place() {
    assert_eq!(report_target(true, &None), ReportTarget::Json("analysis_report.json".to_string()));
    assert_eq!(report_target(false, &None), ReportTarget::Markdown("analysis_report.md".to_string()));
    assert_eq!(report_target(true, &Some("o".to_string())), ReportTarget::Json("o".to_string()));
    assert_eq!(report_target(false, &Some("o".to_string())), ReportTarget::Markdown("o".to_string()));
    assert_eq!(json_report_path(true, &None), Some("analysis_report.json".to_string()));
    assert_eq!(json_report_path(true, &Some("o".to_string())), Some("o".to_string()));
    assert_eq!(json_report_path(false, &Some("o".to_string())), None);
}

#[test]
fn analysis_needs_a_key_unless_skipped() {
    let mut a = args(None);
    assert_eq!(ai_settings(&a), Err(CliError::MissingApiKey));
    assert_eq!(CliError::MissingApiKey.message(), "API key is required for AI analysis");
    a.skip_ai = true;
    assert_eq!(ai_settings(&a), Ok(None));
    a.skip_ai = false;
    a.api_key = Some("k".to_string());
    assert_eq!(
        ai_settings(&a),
        Ok(Some(AiSettings { api_url: "http://top/".to_string(), api_key: "k".to_string(), model: "top-model".to_string() }))
    );
    a.api_url = None;
    a.model = None;
    assert_eq!(
        ai_settings(&a),
        Ok(Some(AiSettings {
            api_url: "https://api.openai.com/v1".to_string(),
            api_key: "k".to_string(),
            model: "gpt-3.5-turbo".to_string()
        }))
    );
}

#[test]
fn retries_are_bounded_with_linear_backoff() {
    assert_eq!(MAX_RETRIES, 5);
    assert_eq!(RETRY_DELAY_MS, 1000);
    assert_eq!(retry_step(1, true), RetryStep::Done);
    assert_eq!(retry_step(5, true), RetryStep::Done);
    assert_eq!(retry_step(1, false), RetryStep::RetryAfter { millis: 1000 });
    assert_eq!(retry_step(2, false), RetryStep::RetryAfter { millis: 2000 });
    assert_eq!(retry_step(4, false), RetryStep::RetryAfter { millis: 4000 });
    assert_eq!(retry_step(5, false), RetryStep::GiveUp);
    assert_eq!(retry_step(u32::MAX, false), RetryStep::GiveUp);
    let mut attempt = 1;
    let mut tries = 1;
    while let RetryStep::RetryAfter { .. } = retry_step(attempt, false) {
        attempt += 1;
        tries += 1;
    }
    assert_eq!(tries, 5);
    assert_eq!(retry_failure_message("boom"), "Operation failed after 5 attempts: boom");
}

#[test]
fn walk_skips_version_control_settings_and_build_output() {
    assert!(is_skipped_name(".git"));
    assert!(is_skipped_name(".pj.yml"));
    assert!(is_skipped_name("target"));
    assert!(!is_skipped_name("src"));
    assert!(!is_skipped_name(".gitignore"));
    let path = |parts: &[&str]| parts.iter().map(|s| s.to_string()).collect::<Vec<_>>();
    assert!(should_visit(&path(&["proj", "src", "main.rs"])));
    assert!(!should_visit(&path(&["proj", "target", "debug"])));
    assert!(!should_visit(&path(&["proj", ".git"])));
    assert!(should_visit(&[]));
}

#[test]
fn only_rust_files_are_handed_on() {
    assert!(is_source_file(true, "src/main.rs"));
    assert!(!is_source_file(false, "src/dir.rs"));
    assert!(!is_source_file(true, "src/main.rsx"));
    assert!(!is_source_file(true, "rs"));
    assert!(is_source_file(true, ".rs"));
}
