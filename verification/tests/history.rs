use pj::history::{
    analysis_branch, analyzed_versions_of, branch_ref, check_version_continuity, contains_name,
    history_or_none, needs_reanalysis, record_analyzed_version, versions_to_analyze,
};
use pj::models::{ProjectAnalysis, ProjectSummary};

fn strings(items: &[&str]) -> Vec<String> {
    items.iter().map(|s| s.to_string()).collect()
}

fn snapshot(git_version: Option<&str>, analyzed: Option<&[&str]>) -> ProjectAnalysis {
    ProjectAnalysis {
        summary: ProjectSummary {
            total_files: 0,
            total_loc: 0,
            main_features: vec![],
            code_architecture: String::new(),
            key_components: vec![],
            tech_stack: vec![],
            recommendations: vec![],
        },
        file_analyses: vec![],
        git_version: git_version.map(|s| s.to_string()),
        analyzed_versions: analyzed.map(strings),
    }
}

#[test]
fn empty_analyzed_set_is_contiguous() {
    assert!(check_version_continuity(&[], &strings(&["h1", "h2", "h3"])));
    assert!(check_version_continuity(&[], &[]));
}

#[test]
fn single_middle_revision_is_contiguous() {
    assert!(check_version_continuity(&strings(&["h2"]), &strings(&["h1", "h2", "h3"])));
}

#[test]
fn gap_in_the_middle_is_not_contiguous() {
    assert!(!check_version_continuity(&strings(&["h1", "h3"]), &strings(&["h1", "h2", "h3"])));
}

#[test]
fn prefix_suffix_and_whole_history_are_contiguous() {
    let history = strings(&["h1", "h2", "h3", "h4"]);
    assert!(check_version_continuity(&strings(&["h1", "h2"]), &history));
    assert!(check_version_continuity(&strings(&["h4", "h3"]), &history));
    assert!(check_version_continuity(&strings(&["h2", "h3"]), &history));
    assert!(check_version_continuity(&strings(&["h4", "h1", "h3", "h2"]), &history));
    assert!(!check_version_continuity(&strings(&["h1", "h4"]), &history));
    assert!(!check_version_continuity(&strings(&["h1", "h2", "h4"]), &history));
}

#[test]
fn revisions_unknown_to_history_do_not_break_contiguity() {
    assert!(check_version_continuity(&strings(&["zz"]), &strings(&["h1", "h2"])));
    assert!(check_version_continuity(&strings(&["zz", "h1"]), &[]));
}

#[test]
fn reanalysis_is_needed_without_version_control_or_snapshot() {
    assert!(needs_reanalysis(None, None));
    assert!(needs_reanalysis(None, Some(snapshot(Some("a"), Some(&["a"])))));
    assert!(needs_reanalysis(Some("a"), None));
}

#[test]
fn reanalysis_follows_the_analyzed_list_where_there_is_one() {
    assert!(!needs_reanalysis(Some("a"), Some(snapshot(None, Some(&["b", "a"])))));
    assert!(needs_reanalysis(Some("c"), Some(snapshot(Some("c"), Some(&["b", "a"])))));
    assert!(needs_reanalysis(Some("a"), Some(snapshot(None, Some(&[])))));
}

#[test]
fn reanalysis_falls_back_to_the_stored_revision() {
    assert!(!needs_reanalysis(Some("a"), Some(snapshot(Some("a"), None))));
    assert!(needs_reanalysis(Some("a"), Some(snapshot(Some("b"), None))));
    assert!(needs_reanalysis(Some("a"), Some(snapshot(None, None))));
}

#[test]
fn covered_revisions_are_the_list_and_the_stored_revision() {
    assert_eq!(analyzed_versions_of(&snapshot(None, None)), strings(&[]));
    assert_eq!(analyzed_versions_of(&snapshot(Some("a"), None)), strings(&["a"]));
    assert_eq!(analyzed_versions_of(&snapshot(Some("a"), Some(&["b"]))), strings(&["b", "a"]));
    assert_eq!(analyzed_versions_of(&snapshot(Some("b"), Some(&["b", "c"]))), strings(&["b", "c"]));
}

#[test]
fn pending_versions_keep_the_order_of_history() {
    let history = strings(&["h1", "h2", "h3", "h4"]);
    assert_eq!(versions_to_analyze(&history, &strings(&["h2", "h3"])), strings(&["h1", "h4"]));
    assert_eq!(versions_to_analyze(&history, &[]), history);
    assert_eq!(versions_to_analyze(&history, &history), strings(&[]));
}

#[test]
fn recording_a_revision_is_idempotent() {
    let mut s = snapshot(None, None);
    record_analyzed_version(&mut s, "a");
    assert_eq!(s.analyzed_versions, Some(strings(&["a"])));
    record_analyzed_version(&mut s, "b");
    record_analyzed_version(&mut s, "a");
    assert_eq!(s.analyzed_versions, Some(strings(&["a", "b"])));
}

#[test]
fn names_are_found_by_content() {
    assert!(contains_name(&strings(&["x", "y"]), "y"));
    assert!(!contains_name(&strings(&["x", "y"]), "z"));
    assert!(!contains_name(&[], ""));
}

#[test]
fn branch_names_and_degraded_history() {
    assert_eq!(analysis_branch("abc123"), "temp-analysis-abc123");
    assert_eq!(branch_ref("main"), "refs/heads/main");
    assert_eq!(history_or_none(None), strings(&[]));
    assert_eq!(history_or_none(Some(strings(&["a"]))), strings(&["a"]));
}
