use pj::analysis::analyze_code;
use pj::merge::{
    continuity_check, find_record_index, merge_file, merge_files, plan_update, record_analysis,
    record_summary, run_merge, MergeOutcome, RunMode, UpdatePlan, WalkedFile,
};
use pj::models::{AIAnalysis, CoreStruct, FileAnalysis, FunctionDetail, ProjectAnalysis, ProjectSummary};
use pj::utils::{create_default_summary, create_project_analysis};

fn strings(items: &[&str]) -> Vec<String> {
    items.iter().map(|s| s.to_string()).collect()
}

fn payload(tag: &str) -> AIAnalysis {
    AIAnalysis {
        main_functions: strings(&[tag]),
        core_structs: vec![CoreStruct { name: "S".to_string(), description: tag.to_string() }],
        error_types: vec![],
        functions_details: vec![FunctionDetail {
            name: "f".to_string(),
            description: tag.to_string(),
            parameters: strings(&["a: u8"]),
            return_type: "u8".to_string(),
            complexity: "low".to_string(),
        }],
        code_complexity: tag.to_string(),
    }
}

fn record(path: &str, hash: &str, analysis: Option<AIAnalysis>) -> FileAnalysis {
    FileAnalysis {
        file_path: path.to_string(),
        loc: 3,
        blank_lines: 1,
        comment_lines: 1,
        code_lines: 1,
        code_hash: hash.to_string(),
        ai_analysis: analysis,
    }
}

fn summary(files: usize, loc: usize) -> ProjectSummary {
    ProjectSummary {
        total_files: files,
        total_loc: loc,
        main_features: strings(&["old feature"]),
        code_architecture: "layers".to_string(),
        key_components: vec![],
        tech_stack: vec![],
        recommendations: vec![],
    }
}

fn walked(path: &str, content: &str) -> WalkedFile {
    WalkedFile { path: path.to_string(), content: content.to_string() }
}

fn stored(records: Vec<FileAnalysis>, rev: Option<&str>, analyzed: Option<&[&str]>) -> ProjectAnalysis {
    ProjectAnalysis {
        summary: summary(records.len(), 7),
        file_analyses: records,
        git_version: rev.map(|s| s.to_string()),
        analyzed_versions: analyzed.map(strings),
    }
}

fn finish(mut out: MergeOutcome, result: &AIAnalysis) -> ProjectAnalysis {
    while let Some(i) = out.next_pending() {
        out = out.resolve(i, Some(result.clone()));
    }
    assert!(out.is_complete());
    out.finish().unwrap()
}

#[test]
fn unchanged_file_keeps_payload_and_new_file_is_queued() {
    let text_a = "fn a() {}\n";
    let h1 = analyze_code(text_a).code_hash;
    let prior = stored(vec![record("a.rs", &h1, Some(payload("P1")))], None, None);
    let files = vec![walked("a.rs", text_a), walked("b.rs", "fn b() {}\n")];
    let out = run_merge(Some(prior), &[], None, &files);
    assert_eq!(out.mode(), RunMode::IncrementalMerge);
    assert_eq!(out.pending(), &vec![1]);
    assert_eq!(out.next_pending(), Some(1));
    assert!(!out.is_complete());
    assert_eq!(out.analysis().file_analyses[0], record("a.rs", &h1, Some(payload("P1"))));
    assert_eq!(out.analysis().file_analyses[1].file_path, "b.rs");
    assert_eq!(out.analysis().file_analyses[1].ai_analysis, None);
    let out = out.finish().unwrap_err();
    let out = out.resolve(0, Some(payload("P9")));
    assert_eq!(out.pending(), &vec![1]);
    assert_eq!(out.analysis().file_analyses[0].ai_analysis, Some(payload("P1")));
    let out = out.resolve(1, Some(payload("P2")));
    assert!(out.is_complete());
    let analysis = out.finish().unwrap();
    assert_eq!(analysis.file_analyses.len(), 2);
    assert_eq!(analysis.file_analyses[0].ai_analysis, Some(payload("P1")));
    assert_eq!(analysis.file_analyses[1].ai_analysis, Some(payload("P2")));
    assert_eq!(analysis.file_analyses[1].code_hash, analyze_code("fn b() {}\n").code_hash);
    assert_eq!(analysis.file_analyses[1].loc, 1);
    assert_eq!(analysis.file_analyses[1].code_lines, 1);
}

#[test]
fn second_run_without_version_control_is_idempotent() {
    let files = vec![walked("src/a.rs", "fn a() {}\n"), walked("src/b.rs", "// c\nfn b() {}\n")];
    let first = run_merge(None, &[], None, &files);
    assert_eq!(first.mode(), RunMode::FullReset);
    assert_eq!(first.pending(), &vec![0, 1]);
    let snapshot = finish(first, &payload("P"));
    let second = run_merge(Some(snapshot.clone()), &[], None, &files);
    assert_eq!(second.mode(), RunMode::IncrementalMerge);
    assert_eq!(second.pending(), &Vec::<usize>::new());
    assert_eq!(second.finish(), Ok(snapshot));
}

#[test]
fn discontinuity_forces_a_full_reset() {
    let text_a = "fn a() {}\n";
    let h = analyze_code(text_a).code_hash;
    let prior = stored(vec![record("a.rs", &h, Some(payload("P1")))], None, Some(&["h1", "h3"]));
    let history = strings(&["h1", "h2", "h3"]);
    let out = run_merge(Some(prior), &history, Some("h3"), &[walked("a.rs", text_a)]);
    assert_eq!(out.mode(), RunMode::FullReset);
    assert_eq!(out.pending(), &vec![0]);
    assert_eq!(out.analysis().analyzed_versions, Some(strings(&["h3"])));
    assert_eq!(out.analysis().git_version, Some("h3".to_string()));
    assert_eq!(out.analysis().file_analyses[0].ai_analysis, None);
    assert_eq!(out.analysis().summary, create_default_summary(&out.analysis().file_analyses));
    assert_eq!(out.analysis().summary.total_files, 1);
    assert_eq!(out.analysis().summary.total_loc, 1);
}

#[test]
fn contiguous_history_merges_and_appends_the_current_revision() {
    let text_a = "fn a() {}\n";
    let h = analyze_code(text_a).code_hash;
    let prior = stored(vec![record("a.rs", &h, Some(payload("P1")))], Some("h2"), Some(&["h1"]));
    let history = strings(&["h1", "h2", "h3"]);
    let out = run_merge(Some(prior), &history, Some("h3"), &[walked("a.rs", text_a)]);
    assert_eq!(out.mode(), RunMode::IncrementalMerge);
    assert_eq!(out.pending(), &Vec::<usize>::new());
    assert_eq!(out.analysis().analyzed_versions, Some(strings(&["h1", "h2", "h3"])));
    assert_eq!(out.analysis().git_version, Some("h3".to_string()));
    assert_eq!(out.analysis().summary, summary(1, 7));
    let again = run_merge(Some(out.analysis().clone()), &history, Some("h3"), &[walked("a.rs", text_a)]);
    assert_eq!(again.analysis(), out.analysis());
}

#[test]
fn snapshot_without_usable_history_is_merged() {
    let text_a = "fn a() {}\n";
    let h = analyze_code(text_a).code_hash;
    let prior = stored(vec![record("a.rs", &h, Some(payload("P1")))], Some("h9"), Some(&["h1", "h7"]));
    let out = run_merge(Some(prior), &[], None, &[walked("a.rs", text_a)]);
    assert_eq!(out.mode(), RunMode::IncrementalMerge);
    assert_eq!(out.analysis().analyzed_versions, Some(strings(&["h1", "h7", "h9"])));
    assert_eq!(out.analysis().git_version, None);
}

#[test]
fn changed_file_gets_new_counts_and_loses_its_payload() {
    let prior = stored(vec![record("a.rs", "stale", Some(payload("P1")))], None, None);
    let out = run_merge(Some(prior), &[], None, &[walked("a.rs", "fn a() {}\n\n// x\nfn b() {}\n")]);
    assert_eq!(out.pending(), &vec![0]);
    let r = &out.analysis().file_analyses[0];
    assert_eq!((r.loc, r.blank_lines, r.comment_lines, r.code_lines), (4, 1, 1, 2));
    assert_eq!(r.code_hash, analyze_code("fn a() {}\nfn b() {}").code_hash);
    assert_eq!(r.ai_analysis, None);
}

#[test]
fn files_missing_from_the_walk_are_dropped() {
    let prior = stored(
        vec![record("gone.rs", "x", Some(payload("P0"))), record("a.rs", "y", None)],
        None,
        None,
    );
    let out = run_merge(Some(prior), &[], None, &[walked("new.rs", "x();")]);
    assert_eq!(out.analysis().file_analyses.len(), 1);
    assert_eq!(out.analysis().file_analyses[0].file_path, "new.rs");
}

#[test]
fn reuse_copies_the_stored_counts() {
    let text = "fn a() {}\n";
    let h = analyze_code(text).code_hash;
    let prior = stored(vec![record("a.rs", &h, Some(payload("P1")))], None, None);
    let out = run_merge(Some(prior), &[], None, &[walked("a.rs", "\n\n  fn a() {}  \n// added\n")]);
    assert_eq!(out.pending(), &Vec::<usize>::new());
    assert_eq!(out.analysis().file_analyses[0], record("a.rs", &h, Some(payload("P1"))));
}

#[test]
fn failed_analysis_leaves_the_record_without_payload() {
    let out = run_merge(None, &[], None, &[walked("a.rs", "x();")]);
    let out = out.resolve(5, Some(payload("P")));
    assert_eq!(out.pending(), &vec![0]);
    let out = out.resolve(0, None);
    assert!(out.is_complete());
    let mut analysis = out.finish().unwrap();
    assert_eq!(analysis.file_analyses[0].ai_analysis, None);
    assert_eq!(analysis.file_analyses[0].code_hash, analyze_code("x();").code_hash);
    assert!(record_analysis(&mut analysis, 0, None));
    assert_eq!(analysis.file_analyses[0].ai_analysis, None);
    assert!(!record_analysis(&mut analysis, 5, Some(payload("P"))));
    assert_eq!(analysis.file_analyses.len(), 1);
    assert!(record_analysis(&mut analysis, 0, Some(payload("Q"))));
    assert_eq!(analysis.file_analyses[0].ai_analysis, Some(payload("Q")));
}

#[test]
fn summary_is_replaced_only_by_a_new_one() {
    let mut s = stored(vec![], None, None);
    record_summary(&mut s, None);
    assert_eq!(s.summary, summary(0, 7));
    record_summary(&mut s, Some(summary(4, 40)));
    assert_eq!(s.summary, summary(4, 40));
}

#[test]
fn summary_is_asked_only_where_the_records_changed() {
    let text = "fn a() {}\n";
    let files = vec![walked("a.rs", text), walked("b.rs", "fn b() {}\n")];
    let first = run_merge(None, &[], None, &files);
    assert!(first.summary_wanted(false));
    assert!(!first.summary_wanted(true));
    let snapshot = finish(first, &payload("P"));
    let second = run_merge(Some(snapshot.clone()), &[], None, &files);
    assert!(!second.summary_wanted(false));
    assert!(!second.summary_wanted(true));
    assert_eq!(second.finish(), Ok(snapshot.clone()));
    let edited = vec![walked("a.rs", "fn a2() {}\n"), walked("b.rs", "fn b() {}\n")];
    assert!(run_merge(Some(snapshot.clone()), &[], None, &edited).summary_wanted(false));
    let fewer = vec![walked("a.rs", text)];
    let dropped = run_merge(Some(snapshot.clone()), &[], None, &fewer);
    assert_eq!(dropped.pending(), &Vec::<usize>::new());
    assert!(dropped.summary_wanted(false));
    let swapped = vec![walked("b.rs", "fn b() {}\n"), walked("a.rs", text)];
    assert!(run_merge(Some(snapshot.clone()), &[], None, &swapped).summary_wanted(false));
    let nothing = run_merge(Some(snapshot), &[], None, &[]);
    assert!(!nothing.summary_wanted(false));
    assert!(!run_merge(None, &[], None, &[]).summary_wanted(false));
}

#[test]
fn resolving_keeps_the_answer_on_the_summary() {
    let files = vec![walked("a.rs", "x();")];
    let run = run_merge(None, &[], None, &files).resolve(0, None);
    assert!(run.is_complete());
    assert!(run.summary_wanted(false));
}

#[test]
fn update_without_a_stored_report_is_a_full_reset() {
    let history = strings(&["h1", "h2", "h3"]);
    assert_eq!(plan_update(None, &history, false), UpdatePlan::FullReset);
    assert_eq!(plan_update(None, &[], false), UpdatePlan::FullReset);
    assert_eq!(plan_update(None, &history, true), UpdatePlan::FullReset);
    let out = run_merge(None, &history, Some("h3"), &[walked("a.rs", "x();")]);
    assert_eq!(out.mode(), RunMode::FullReset);
    assert_eq!(out.analysis().analyzed_versions, Some(strings(&["h3"])));
    let out = run_merge(None, &history, None, &[walked("a.rs", "x();")]);
    assert_eq!(out.analysis().analyzed_versions, Some(strings(&[])));
}

#[test]
fn update_of_a_stored_report_follows_the_history() {
    let history = strings(&["h1", "h2", "h3"]);
    let s = stored(vec![], Some("h2"), Some(&["h1"]));
    assert_eq!(plan_update(Some(&s), &history, false), UpdatePlan::Analyze(strings(&["h3"])));
    assert_eq!(plan_update(Some(&s), &history, true), UpdatePlan::ReportOnly);
    let s = stored(vec![], Some("h3"), Some(&["h1"]));
    assert_eq!(plan_update(Some(&s), &history, false), UpdatePlan::FullReset);
    assert_eq!(continuity_check(Some(&s), &history), RunMode::FullReset);
    let s = stored(vec![], None, Some(&["h1", "h2", "h3"]));
    assert_eq!(plan_update(Some(&s), &history, false), UpdatePlan::UpToDate);
    let s = stored(vec![], None, None);
    assert_eq!(plan_update(Some(&s), &history, false), UpdatePlan::Analyze(strings(&["h1", "h2", "h3"])));
    assert_eq!(plan_update(Some(&s), &[], false), UpdatePlan::UpToDate);
    assert_eq!(continuity_check(Some(&s), &[]), RunMode::IncrementalMerge);
}

#[test]
fn merge_files_lists_what_to_analyze() {
    let h = analyze_code("x();").code_hash;
    let records = vec![record("a.rs", &h, Some(payload("P")))];
    let files = vec![walked("n.rs", "y();"), walked("a.rs", "x();"), walked("m.rs", "z();")];
    let (merged, pending) = merge_files(&records, &files);
    assert_eq!(pending, vec![0, 2]);
    assert_eq!(merged.len(), 3);
    assert_eq!(merged[1], records[0]);
}

#[test]
fn last_stored_record_of_a_path_wins() {
    let records = vec![record("a.rs", "1", None), record("b.rs", "2", None), record("a.rs", "3", None)];
    assert_eq!(find_record_index(&records, "a.rs"), Some(2));
    assert_eq!(find_record_index(&records, "b.rs"), Some(1));
    assert_eq!(find_record_index(&records, "c.rs"), None);
}

#[test]
fn merge_file_decides_reuse_by_fingerprint() {
    let h = analyze_code("x();").code_hash;
    let records = vec![record("a.rs", &h, Some(payload("P")))];
    let (r, analyze) = merge_file(&records, "a.rs", "  x();  ");
    assert!(!analyze);
    assert_eq!(r, records[0]);
    let (r, analyze) = merge_file(&records, "a.rs", "y();");
    assert!(analyze);
    assert_eq!(r.ai_analysis, None);
    let (r, analyze) = merge_file(&records, "b.rs", "x();");
    assert!(analyze);
    assert_eq!(r.file_path, "b.rs");
    assert_eq!(r.code_hash, h);
}

#[test]
fn continuity_check_picks_the_mode() {
    assert_eq!(continuity_check(None, &strings(&["h1"])), RunMode::FullReset);
    let p = stored(vec![], Some("h3"), Some(&["h1"]));
    assert_eq!(continuity_check(Some(&p), &strings(&["h1", "h2", "h3"])), RunMode::FullReset);
    assert_eq!(continuity_check(Some(&p), &strings(&["h1", "h3"])), RunMode::IncrementalMerge);
    assert_eq!(continuity_check(Some(&p), &[]), RunMode::IncrementalMerge);
}

#[test]
fn default_summary_counts_files_and_lines() {
    let records = vec![record("a.rs", "1", None), record("b.rs", "2", None)];
    let s = create_default_summary(&records);
    assert_eq!(s.total_files, 2);
    assert_eq!(s.total_loc, 6);
    assert!(s.main_features.is_empty() && s.key_components.is_empty());
    assert!(s.tech_stack.is_empty() && s.recommendations.is_empty());
    assert_eq!(s.code_architecture, "");
    let mut big = record("c.rs", "3", None);
    big.loc = usize::MAX;
    assert_eq!(create_default_summary(&[big, record("a.rs", "1", None)]).total_loc, usize::MAX);
}

#[test]
fn project_analysis_takes_the_given_or_the_default_summary() {
    let records = vec![record("a.rs", "1", None)];
    let a = create_project_analysis(records.clone(), None);
    assert_eq!(a.summary.total_files, 1);
    assert_eq!(a.summary.total_loc, 3);
    assert_eq!(a.file_analyses, records);
    assert_eq!(a.git_version, None);
    assert_eq!(a.analyzed_versions, None);
    let b = create_project_analysis(records.clone(), Some(summary(9, 9)));
    assert_eq!(b.summary, summary(9, 9));
}
