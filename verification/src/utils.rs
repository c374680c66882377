//! Small rules shared by the runs: the default summary, how a snapshot is put
//! together, when a failed call is tried again, and where reports go.

use crate::models::{
    models, total_loc, FileAnalysis, FileRecord, ProjectAnalysis, ProjectSnapshot, ProjectSummary,
    SummaryPayload,
};
use crate::text::{from_chars, to_chars};
use crate::markdown::{decimal, push_decimal};
use vstd::prelude::*;
use vstd::string::StringExecFns;

verus! {

/// How many times a call is tried before it is given up.
pub const MAX_RETRIES: u32 = 5;

/// The pause after the first failed try, in milliseconds. The pause after the
/// `n`-th failed try is `n` times as long.
pub const RETRY_DELAY_MS: u64 = 1000;

/// The summary of `files` that needs no analysis service: how many files, how
/// many lines (at most `usize::MAX`), and nothing else.
pub open spec fn default_summary(files: Seq<FileRecord>) -> SummaryPayload {
    SummaryPayload {
        total_files: files.len(),
        total_loc: if total_loc(files) <= usize::MAX {
            total_loc(files)
        } else {
            usize::MAX as nat
        },
        main_features: Seq::empty(),
        code_architecture: Seq::empty(),
        key_components: Seq::empty(),
        tech_stack: Seq::empty(),
        recommendations: Seq::empty(),
    }
}

/// The default summary of `analyses`. The line total saturates at
/// `usize::MAX`.
pub fn create_default_summary(analyses: &[FileAnalysis]) -> (summary: ProjectSummary)
    ensures
        summary@ == default_summary(models(analyses@)),
{
    let ghost files = models(analyses@);
    let mut sum: usize = 0;
    let mut i: usize = 0;
    assert(files.take(0) == Seq::<FileRecord>::empty());
    while i < analyses.len()
        invariant
            i <= analyses.len(),
            files == models(analyses@),
            sum == if total_loc(files.take(i as int)) <= usize::MAX {
                total_loc(files.take(i as int))
            } else {
                usize::MAX as nat
            },
        decreases analyses.len() - i,
    {
        proof {
            assert(files.take(i + 1).drop_last() == files.take(i as int));
            assert(files.take(i + 1).last().stats.total == analyses@[i as int].loc);
        }
        sum = sum.saturating_add(analyses[i].loc);
        i += 1;
    }
    assert(files.take(i as int) == files);
    let summary = ProjectSummary {
        total_files: analyses.len(),
        total_loc: sum,
        main_features: Vec::new(),
        code_architecture: String::new(),
        key_components: Vec::new(),
        tech_stack: Vec::new(),
        recommendations: Vec::new(),
    };
    assert(summary@.main_features =~= Seq::<Seq<char>>::empty());
    assert(summary@.key_components =~= Seq::<Seq<char>>::empty());
    assert(summary@.tech_stack =~= Seq::<Seq<char>>::empty());
    assert(summary@.recommendations =~= Seq::<Seq<char>>::empty());
    summary
}

/// The snapshot made of `analyses` and `summary`, or of the default summary
/// where none is given. It is tied to no revision yet.
pub fn create_project_analysis(analyses: Vec<FileAnalysis>, summary: Option<ProjectSummary>) -> (r:
    ProjectAnalysis)
    ensures
        r@ == (ProjectSnapshot {
            summary: match summary {
                Some(s) => s@,
                None => default_summary(analyses.deep_view()),
            },
            files: analyses.deep_view(),
            revision: None,
            analyzed: None,
        }),
{
    assert(models(analyses@) =~= analyses.deep_view());
    let summary = match summary {
        Some(s) => s,
        None => create_default_summary(analyses.as_slice()),
    };
    ProjectAnalysis { summary, file_analyses: analyses, git_version: None, analyzed_versions: None }
}

/// An owned copy of `s`.
pub fn owned(s: &str) -> (r: String)
    ensures
        r@ == s@,
{
    from_chars(&to_chars(s))
}


/// What follows a try of a call.
#[derive(Debug, Clone, Copy, PartialEq, Eq, Structural)]
pub enum RetryStep {
    /// The try succeeded: its result stands.
    Done,
    /// The try failed: pause this long, then try again.
    RetryAfter { millis: u64 },
    /// The try failed and was the last: the call has failed.
    GiveUp,
}

/// What follows try number `attempt`, counted from one: nothing more after a
/// success; after a failure another try while fewer than `MAX_RETRIES` were
/// made, with a pause that grows by `RETRY_DELAY_MS` with each try; else the
/// end.
pub open spec fn next_step(attempt: u32, succeeded: bool) -> RetryStep {
    if succeeded {
        RetryStep::Done
    } else if attempt < MAX_RETRIES {
        RetryStep::RetryAfter { millis: (RETRY_DELAY_MS * attempt) as u64 }
    } else {
        RetryStep::GiveUp
    }
}

/// Decides what follows try number `attempt`.
pub fn retry_step(attempt: u32, succeeded: bool) -> (step: RetryStep)
    ensures
        step == next_step(attempt, succeeded),
{
    if succeeded {
        RetryStep::Done
    } else if attempt < MAX_RETRIES {
        let n: u64 = attempt as u64;
        assert(RETRY_DELAY_MS * n <= 4000) by (nonlinear_arith)
            requires
                n < 5,
                RETRY_DELAY_MS == 1000,
        ;
        RetryStep::RetryAfter { millis: RETRY_DELAY_MS * n }
    } else {
        RetryStep::GiveUp
    }
}

/// The tries of a call that keeps failing, from try number `attempt` on.
pub open spec fn tries_from(attempt: u32) -> nat
    decreases MAX_RETRIES - attempt,
{
    if attempt < MAX_RETRIES {
        1 + tries_from((attempt + 1) as u32)
    } else {
        1
    }
}

/// Retrying is bounded: a call that keeps failing is tried `MAX_RETRIES`
/// times and no more, each pause is longer than the one before, and the
/// last failure ends it.
pub proof fn lemma_retries_are_bounded()
    ensures
        tries_from(1) == MAX_RETRIES,
        forall|a: u32| a >= MAX_RETRIES ==> next_step(a, false) == RetryStep::GiveUp,
        forall|a: u32|
            1 <= a && a + 1 < MAX_RETRIES ==> (#[trigger] next_step(a, false))->millis < next_step(
                (a + 1) as u32,
                false,
            )->millis,
{
    reveal_with_fuel(tries_from, 6);
    assert forall|a: u32| 1 <= a && a + 1 < MAX_RETRIES implies (#[trigger] next_step(
        a,
        false,
    ))->millis < next_step((a + 1) as u32, false)->millis by {
        assert(a == 1 || a == 2 || a == 3);
    }
}

/// The message of a call given up: after how many tries, and the last error.
pub fn retry_failure_message(error: &str) -> (r: String)
    ensures
        r@ == "Operation failed after "@ + decimal(MAX_RETRIES as nat) + " attempts: "@ + error@,
{
    let mut r = String::new();
    r.append("Operation failed after ");
    push_decimal(&mut r, MAX_RETRIES as usize);
    r.append(" attempts: ");
    r.append(error);
    assert(r@ =~= "Operation failed after "@ + decimal(MAX_RETRIES as nat) + " attempts: "@
        + error@);
    r
}

/// Where the JSON report of a run goes: nowhere unless one is asked for,
/// else to `output` or to `analysis_report.json`.
pub fn json_report_path(json_flag: bool, output: &Option<String>) -> (r: Option<String>)
    ensures
        r.deep_view() == if json_flag {
            Some(
                match output {
                    Some(o) => o@,
                    None => "analysis_report.json"@,
                },
            )
        } else {
            None
        },
{
    if json_flag {
        match output {
            Some(o) => Some(o.clone()),
            None => Some(owned("analysis_report.json")),
        }
    } else {
        None
    }
}

} // verus!
