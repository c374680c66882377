use pj::config::{
    config_target, configured, default_model_index, effective_config, fallback_models,
    global_config_dir, ignore_file_update, init_config, models_or_fallback, select_prior, store_results, Config,
    ConfigError, ConfigTarget, CONFIG_FILE, GLOBAL_CONFIG_DIR,
};
use pj::models::{ProjectAnalysis, ProjectSummary};

fn config(model: &str) -> Config {
    Config {
        api_url: "http://h/".to_string(),
        api_key: "k".to_string(),
        model: model.to_string(),
        generated: None,
        last_analysis: Some("then".to_string()),
        output: Some("old.md".to_string()),
    }
}

fn snapshot(files: usize) -> ProjectAnalysis {
    ProjectAnalysis {
        summary: ProjectSummary {
            total_files: files,
            total_loc: 0,
            main_features: vec![],
            code_architecture: String::new(),
            key_components: vec![],
            tech_stack: vec![],
            recommendations: vec![],
        },
        file_analyses: vec![],
        git_version: None,
        analyzed_versions: None,
    }
}

#[test]
fn default_config_values() {
    let c = Config::default();
    assert_eq!(c.api_url, "https://api.openai.com/v1/");
    assert_eq!(c.api_key, "");
    assert_eq!(c.model, "gpt-4o-mini");
    assert_eq!(c.generated, None);
    assert_eq!(c.last_analysis, None);
    assert_eq!(c.output, None);
    assert_eq!(CONFIG_FILE, ".pj.yml");
    assert_eq!(GLOBAL_CONFIG_DIR, ".config/pj");
}

#[test]
fn project_settings_come_before_global_and_default() {
    assert_eq!(effective_config(Some(config("p")), Some(config("g"))), config("p"));
    assert_eq!(effective_config(None, Some(config("g"))), config("g"));
    assert_eq!(effective_config(None, None), Config::default());
}

#[test]
fn init_refuses_an_existing_settings_file() {
    assert_eq!(init_config(false), Ok(Config::default()));
    assert_eq!(init_config(true), Err(ConfigError::AlreadyExists));
    assert_eq!(ConfigError::AlreadyExists.message(), "配置文件已存在：");
}

#[test]
fn config_changes_need_a_target() {
    assert_eq!(config_target(true, false), Ok(ConfigTarget::Global));
    assert_eq!(config_target(true, true), Ok(ConfigTarget::Global));
    assert_eq!(config_target(false, true), Ok(ConfigTarget::Project));
    assert_eq!(config_target(false, false), Err(ConfigError::NotInitialized));
    assert_eq!(ConfigError::NotInitialized.message(), "配置文件不存在，請先執行 pj init");
}

#[test]
fn global_settings_lie_below_the_home_directory() {
    assert_eq!(global_config_dir(Some("/home/u")), Ok("/home/u/.config/pj".to_string()));
    assert_eq!(global_config_dir(None), Err(ConfigError::NoHomeDir));
    assert_eq!(ConfigError::NoHomeDir.message(), "無法找到使用者主目錄");
}

#[test]
fn model_offered_first() {
    let models = fallback_models();
    assert_eq!(models, vec!["gpt-4", "gpt-4o-mini", "gpt-3.5-turbo"]);
    assert_eq!(default_model_index(&models, "gpt-4o-mini"), 1);
    assert_eq!(default_model_index(&models, "gpt-3.5-turbo"), 2);
    assert_eq!(default_model_index(&models, "gpt-4"), 0);
    assert_eq!(default_model_index(&models, "other"), 0);
    assert_eq!(default_model_index(&[], "other"), 0);
    assert_eq!(models_or_fallback(None), fallback_models());
    assert_eq!(models_or_fallback(Some(vec!["m".to_string()])), vec!["m"]);
    assert_eq!(models_or_fallback(Some(vec![])), Vec::<String>::new());
    let twice = vec!["a".to_string(), "b".to_string(), "b".to_string()];
    assert_eq!(default_model_index(&twice, "b"), 1);
}

#[test]
fn answers_replace_the_access_settings_only() {
    let c = configured(config("m"), "u2".to_string(), "k2".to_string(), "m2".to_string());
    assert_eq!(c.api_url, "u2");
    assert_eq!(c.api_key, "k2");
    assert_eq!(c.model, "m2");
    assert_eq!(c.last_analysis, Some("then".to_string()));
    assert_eq!(c.output, Some("old.md".to_string()));
}

#[test]
fn ignore_file_gets_the_settings_file_once() {
    assert_eq!(ignore_file_update(None), Some(".pj.yml\n".to_string()));
    assert_eq!(ignore_file_update(Some("target\n")), Some("target\n.pj.yml\n".to_string()));
    assert_eq!(ignore_file_update(Some("target")), Some("target\n.pj.yml\n".to_string()));
    assert_eq!(ignore_file_update(Some("")), Some("\n.pj.yml\n".to_string()));
    assert_eq!(ignore_file_update(Some("a\n.pj.yml\nb\n")), None);
    assert_eq!(ignore_file_update(Some("x.pj.ymlx")), None);
}

#[test]
fn results_are_stored_unless_the_run_had_an_input_report() {
    let stored = store_results(config("m"), snapshot(2), None, Some("new.md")).unwrap();
    assert_eq!(stored.generated, Some(snapshot(2)));
    assert_eq!(stored.output, Some("new.md".to_string()));
    assert_eq!(stored.model, "m");
    let kept = store_results(config("m"), snapshot(2), None, None).unwrap();
    assert_eq!(kept.output, Some("old.md".to_string()));
    assert_eq!(store_results(config("m"), snapshot(2), Some("in.json"), Some("new.md")), None);
}

#[test]
fn prior_snapshot_comes_from_the_input_or_the_settings() {
    let mut c = config("m");
    c.generated = Some(snapshot(1));
    assert_eq!(select_prior(false, None, c), Some(snapshot(1)));
    let mut c = config("m");
    c.generated = Some(snapshot(1));
    assert_eq!(select_prior(true, Some(snapshot(5)), c), Some(snapshot(5)));
    let mut c = config("m");
    c.generated = Some(snapshot(1));
    assert_eq!(select_prior(true, None, c), None);
}
