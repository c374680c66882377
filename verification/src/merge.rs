//! The merge engine: which files of a run keep their stored analysis, which
//! have to be analyzed anew, and when the whole snapshot is started over.
//!
//! A run goes from the continuity check either to a full reset or to an
//! incremental merge. The engine computes the snapshot of the run with the
//! analysis of every changed file left open, and the list of those files. The
//! caller has them analyzed, hands each result back and persists the
//! snapshot.

use crate::analysis::{analyze_code, fingerprint, line_stats, lemma_line_stats_wf};
use crate::history::{
    analyzed_revisions, analyzed_versions_of, check_version_continuity, contains_name,
    is_contiguous, names, pending_revisions, versions_to_analyze, with_revision,
};
use crate::models::{
    models, AIAnalysis, AnalysisPayload, FileAnalysis, FileRecord, ProjectAnalysis,
    ProjectSnapshot, ProjectSummary,
};
use crate::text::str_eq;
use crate::utils::{create_default_summary, default_summary, owned};
use vstd::prelude::*;

verus! {

/// A file found by the walk: its path relative to the project root and its
/// text.
#[derive(Debug, PartialEq, Eq)]
pub struct WalkedFile {
    pub path: String,
    pub content: String,
}

/// Model of [`WalkedFile`].
pub struct WalkedText {
    pub path: Seq<char>,
    pub text: Seq<char>,
}

impl View for WalkedFile {
    type V = WalkedText;

    open spec fn view(&self) -> WalkedText {
        WalkedText { path: self.path@, text: self.content@ }
    }
}

/// How a run treats the stored snapshot.
#[derive(Debug, Clone, Copy, PartialEq, Eq, Structural)]
pub enum RunMode {
    /// The stored snapshot is dropped and every file is analyzed.
    FullReset,
    /// Files whose fingerprint is unchanged keep their stored record.
    IncrementalMerge,
}

/// A run between the engine's decisions and the persisting of its snapshot:
/// the mode, the snapshot so far and the files whose analysis is still
/// awaited. The snapshot is handed out only when none is awaited any more.
#[derive(Debug, PartialEq, Eq)]
pub struct MergeOutcome {
    mode: RunMode,
    analysis: ProjectAnalysis,
    pending: Vec<usize>,
    changed: bool,
}

/// Model of [`MergeOutcome`].
pub struct RunPlan {
    /// Whether the stored snapshot was used.
    pub mode: RunMode,
    /// The snapshot of this run. Records still awaited hold no analysis.
    pub snapshot: ProjectSnapshot,
    /// The indices, into the records of the snapshot and into the walked
    /// files alike, of the files whose analysis is awaited, in increasing
    /// order.
    pub pending: Seq<usize>,
    /// Whether the records of this run differ from the stored ones that it
    /// could use. It is fixed when the run starts.
    pub changed: bool,
}

impl View for MergeOutcome {
    type V = RunPlan;

    closed spec fn view(&self) -> RunPlan {
        RunPlan {
            mode: self.mode,
            snapshot: self.analysis@,
            pending: self.pending@,
            changed: self.changed,
        }
    }
}

/// Whether `pending` is strictly increasing and stays below `len`.
pub open spec fn increasing_below(pending: Seq<usize>, len: nat) -> bool {
    &&& forall|a: int, b: int| 0 <= a < b < pending.len() ==> pending[a] < pending[b]
    &&& forall|a: int| 0 <= a < pending.len() ==> (#[trigger] pending[a]) < len
}

/// The record stored for `path`: the last of `files` with that path, as in a
/// map filled from `files` in order, where a later entry replaces an earlier
/// one of the same key.
pub open spec fn find_record(files: Seq<FileRecord>, path: Seq<char>) -> Option<FileRecord>
    decreases files.len(),
{
    if files.len() == 0 {
        None
    } else if files.last().path == path {
        Some(files.last())
    } else {
        find_record(files.drop_last(), path)
    }
}

/// Where the record stored for `path` stands: the last index of `files` with
/// that path.
pub open spec fn find_index(files: Seq<FileRecord>, path: Seq<char>) -> Option<int>
    decreases files.len(),
{
    if files.len() == 0 {
        None
    } else if files.last().path == path {
        Some(files.len() - 1)
    } else {
        find_index(files.drop_last(), path)
    }
}

/// Whether the stored record of `file` can stand for it: there is one, and
/// its fingerprint is that of the file's text.
pub open spec fn is_reused(stored: Seq<FileRecord>, file: WalkedText) -> bool {
    match find_record(stored, file.path) {
        Some(old) => old.fingerprint == fingerprint(file.text),
        None => false,
    }
}

/// The record of `file` as the text alone gives it: counts and fingerprint,
/// no analysis.
pub open spec fn fresh_record(file: WalkedText) -> FileRecord {
    FileRecord {
        path: file.path,
        stats: line_stats(file.text),
        fingerprint: fingerprint(file.text),
        payload: None,
    }
}

/// The record of `file` in the new snapshot: the stored record where it can
/// be reused, the fresh record otherwise.
pub open spec fn merged_record(stored: Seq<FileRecord>, file: WalkedText) -> FileRecord {
    if is_reused(stored, file) {
        find_record(stored, file.path)->0
    } else {
        fresh_record(file)
    }
}

/// The records of the new snapshot: one for each walked file, in walk order.
/// Stored records of files that the walk did not find are not among them.
pub open spec fn merged_files(stored: Seq<FileRecord>, walked: Seq<WalkedText>) -> Seq<FileRecord> {
    Seq::new(walked.len(), |i: int| merged_record(stored, walked[i]))
}

/// Whether walked file `i` keeps the stored record that stands at `i`.
pub open spec fn kept_in_place(stored: Seq<FileRecord>, walked: Seq<WalkedText>, i: int) -> bool {
    is_reused(stored, walked[i]) && find_index(stored, walked[i].path) == Some(i)
}

/// Whether the walk leaves the stored records as they are: each walked file
/// keeps the stored record at its own place, and no stored record is left
/// over.
pub open spec fn unchanged(stored: Seq<FileRecord>, walked: Seq<WalkedText>) -> bool {
    &&& stored.len() == walked.len()
    &&& forall|i: int| 0 <= i < walked.len() ==> #[trigger] kept_in_place(stored, walked, i)
}

/// Whether `pending` lists, in increasing order, exactly the walked files
/// that cannot reuse a stored record.
pub open spec fn lists_pending(pending: Seq<usize>, stored: Seq<FileRecord>, walked: Seq<WalkedText>) -> bool {
    &&& increasing_below(pending, walked.len())
    &&& forall|i: int|
        0 <= i < walked.len() ==> (!is_reused(stored, #[trigger] walked[i]) <==> exists|a: int|
            0 <= a < pending.len() && pending[a] == i)
}

/// The mode of a run: a full reset without a stored snapshot or where the
/// revisions it covers are not one unbroken run of `history`; an incremental
/// merge otherwise. Without history nothing can be out of order.
pub open spec fn run_mode(prior: Option<ProjectSnapshot>, history: Seq<Seq<char>>) -> RunMode {
    match prior {
        None => RunMode::FullReset,
        Some(p) => if is_contiguous(analyzed_revisions(p).to_set(), history) {
            RunMode::IncrementalMerge
        } else {
            RunMode::FullReset
        },
    }
}

/// The revisions covered after a run at `current`.
pub open spec fn revisions_after(
    mode: RunMode,
    prior: Option<ProjectSnapshot>,
    current: Option<Seq<char>>,
) -> Seq<Seq<char>> {
    let base = match (mode, prior) {
        (RunMode::IncrementalMerge, Some(p)) => analyzed_revisions(p),
        _ => Seq::empty(),
    };
    match current {
        Some(rev) => with_revision(base, rev),
        None => base,
    }
}

/// The snapshot of a run, before any pending file is analyzed.
///
/// After a full reset every record is fresh, the summary is the default one
/// and only the current revision is covered. After an incremental merge
/// unchanged files keep their stored records, the stored summary is carried
/// over and the current revision joins those covered.
pub open spec fn merge_result(
    prior: Option<ProjectSnapshot>,
    history: Seq<Seq<char>>,
    current: Option<Seq<char>>,
    walked: Seq<WalkedText>,
) -> ProjectSnapshot {
    let mode = run_mode(prior, history);
    let stored = match (mode, prior) {
        (RunMode::IncrementalMerge, Some(p)) => p.files,
        _ => Seq::empty(),
    };
    let files = merged_files(stored, walked);
    ProjectSnapshot {
        summary: match (mode, prior) {
            (RunMode::IncrementalMerge, Some(p)) => p.summary,
            _ => default_summary(files),
        },
        files,
        revision: current,
        analyzed: Some(revisions_after(mode, prior, current)),
    }
}

/// The stored records that a run in `mode` may reuse.
pub open spec fn usable_records(mode: RunMode, prior: Option<ProjectSnapshot>) -> Seq<FileRecord> {
    match (mode, prior) {
        (RunMode::IncrementalMerge, Some(p)) => p.files,
        _ => Seq::empty(),
    }
}

/// A record found for a path bears that path and is one of the records
/// searched.
pub proof fn lemma_find_record(files: Seq<FileRecord>, path: Seq<char>)
    ensures
        match find_record(files, path) {
            Some(r) => r.path == path && files.contains(r),
            None => forall|i: int| 0 <= i < files.len() ==> (#[trigger] files[i]).path != path,
        },
    decreases files.len(),
{
    if files.len() > 0 {
        if files.last().path == path {
            assert(files[files.len() - 1] == files.last());
        } else {
            let init = files.drop_last();
            lemma_find_record(init, path);
            match find_record(init, path) {
                Some(r) => {
                    let k = choose|k: int| 0 <= k < init.len() && init[k] == r;
                    assert(files[k] == r);
                },
                None => {
                    assert forall|i: int| 0 <= i < files.len() implies (#[trigger] files[i]).path
                        != path by {
                        if i < init.len() {
                            assert(files[i] == init[i]);
                        }
                    }
                },
            }
        }
    }
}

/// Where no two records share a path, each record is the one found for its
/// path.
pub proof fn lemma_find_record_unique(files: Seq<FileRecord>, i: int)
    requires
        0 <= i < files.len(),
        forall|a: int, b: int|
            0 <= a < b < files.len() ==> (#[trigger] files[a]).path != (#[trigger] files[b]).path,
    ensures
        find_record(files, files[i].path) == Some(files[i]),
    decreases files.len(),
{
    if i < files.len() - 1 {
        let init = files.drop_last();
        assert(files.last() == files[files.len() - 1]);
        assert forall|a: int, b: int| 0 <= a < b < init.len() implies (#[trigger] init[a]).path != (
        #[trigger] init[b]).path by {
            assert(init[a] == files[a] && init[b] == files[b]);
        }
        lemma_find_record_unique(init, i);
        assert(init[i] == files[i]);
    }
}

/// The record found for a path is the one at the index found for it.
pub proof fn lemma_find_index(files: Seq<FileRecord>, path: Seq<char>)
    ensures
        match find_index(files, path) {
            Some(i) => 0 <= i < files.len() && files[i].path == path && find_record(files, path)
                == Some(files[i]),
            None => find_record(files, path) is None,
        },
    decreases files.len(),
{
    if files.len() > 0 && files.last().path != path {
        let init = files.drop_last();
        lemma_find_index(init, path);
        match find_index(init, path) {
            Some(i) => {
                assert(init[i] == files[i]);
            },
            None => {},
        }
    }
}

/// Where no two records share a path, each record is found at its own index.
pub proof fn lemma_find_index_unique(files: Seq<FileRecord>, i: int)
    requires
        0 <= i < files.len(),
        forall|a: int, b: int|
            0 <= a < b < files.len() ==> (#[trigger] files[a]).path != (#[trigger] files[b]).path,
    ensures
        find_index(files, files[i].path) == Some(i),
    decreases files.len(),
{
    if i < files.len() - 1 {
        let init = files.drop_last();
        assert(files.last() == files[files.len() - 1]);
        assert forall|a: int, b: int| 0 <= a < b < init.len() implies (#[trigger] init[a]).path != (
        #[trigger] init[b]).path by {
            assert(init[a] == files[a] && init[b] == files[b]);
        }
        lemma_find_index_unique(init, i);
        assert(init[i] == files[i]);
    }
}

/// A walk that leaves the stored records as they are yields those very
/// records, and every file of it reuses one.
pub proof fn lemma_unchanged_merge(stored: Seq<FileRecord>, walked: Seq<WalkedText>)
    requires
        unchanged(stored, walked),
    ensures
        merged_files(stored, walked) == stored,
        forall|i: int| 0 <= i < walked.len() ==> is_reused(stored, #[trigger] walked[i]),
{
    assert forall|i: int| 0 <= i < walked.len() implies is_reused(stored, #[trigger] walked[i])
        && merged_record(stored, walked[i]) == stored[i] by {
        assert(kept_in_place(stored, walked, i));
        lemma_find_index(stored, walked[i].path);
    }
    assert(merged_files(stored, walked) =~= stored);
}

/// The index of the record stored for `path`, if there is one.
pub fn find_record_index(stored: &[FileAnalysis], path: &str) -> (r: Option<usize>)
    ensures
        match r {
            Some(i) => {
                &&& i < stored.len()
                &&& stored@[i as int].file_path@ == path@
                &&& forall|j: int| i < j < stored.len() ==> stored@[j].file_path@ != path@
                &&& find_index(models(stored@), path@) == Some(i as int)
                &&& find_record(models(stored@), path@) == Some(stored@[i as int]@)
            },
            None => find_index(models(stored@), path@) is None && find_record(
                models(stored@),
                path@,
            ) is None,
        },
{
    let ghost all = models(stored@);
    let mut i: usize = stored.len();
    assert(all.take(i as int) == all);
    while i > 0
        invariant
            i <= stored.len(),
            all == models(stored@),
            find_record(all, path@) == find_record(all.take(i as int), path@),
            find_index(all, path@) == find_index(all.take(i as int), path@),
            forall|j: int| i <= j < stored.len() ==> stored@[j].file_path@ != path@,
        decreases i,
    {
        proof {
            assert(all.take(i as int).drop_last() == all.take(i - 1));
            assert(all.take(i as int).last() == stored@[i - 1]@);
        }
        if str_eq(stored[i - 1].file_path.as_str(), path) {
            return Some(i - 1);
        }
        i -= 1;
    }
    None
}

fn decide_file(stored: &[FileAnalysis], path: &str, content: &str) -> (r: (
    FileAnalysis,
    Option<usize>,
))
    ensures
        r.0@ == merged_record(models(stored@), WalkedText { path: path@, text: content@ }),
        r.1 is Some <==> is_reused(models(stored@), WalkedText { path: path@, text: content@ }),
        r.1 matches Some(j) ==> find_index(models(stored@), path@) == Some(j as int),
        r.1 is None ==> r.0@.payload is None && r.0@.stats.wf(),
{
    let stats = analyze_code(content);
    if let Some(i) = find_record_index(stored, path) {
        if stored[i].code_hash == stats.code_hash {
            return (stored[i].clone(), Some(i));
        }
    }
    let record = FileAnalysis {
        file_path: owned(path),
        loc: stats.loc,
        blank_lines: stats.blank_lines,
        comment_lines: stats.comment_lines,
        code_lines: stats.code_lines,
        code_hash: stats.code_hash,
        ai_analysis: None,
    };
    (record, None)
}

/// Decides for one walked file: its record in the new snapshot, and whether
/// it has to be analyzed.
pub fn merge_file(stored: &[FileAnalysis], path: &str, content: &str) -> (r: (FileAnalysis, bool))
    ensures
        r.0@ == merged_record(models(stored@), WalkedText { path: path@, text: content@ }),
        r.1 == !is_reused(models(stored@), WalkedText { path: path@, text: content@ }),
        r.1 ==> r.0@.payload is None && r.0@.stats.wf(),
{
    let (record, found) = decide_file(stored, path, content);
    (record, found.is_none())
}

fn merge_all(stored: &[FileAnalysis], files: &[WalkedFile]) -> (r: (
    Vec<FileAnalysis>,
    Vec<usize>,
    bool,
))
    ensures
        r.0.deep_view() == merged_files(models(stored@), models(files@)),
        lists_pending(r.1@, models(stored@), models(files@)),
        r.2 == !unchanged(models(stored@), models(files@)),
{
    let ghost old_files = models(stored@);
    let ghost walked = models(files@);
    let mut records: Vec<FileAnalysis> = Vec::new();
    let mut pending: Vec<usize> = Vec::new();
    let mut in_place = true;
    let mut i: usize = 0;
    while i < files.len()
        invariant
            i <= files.len(),
            old_files == models(stored@),
            walked == models(files@),
            records.len() == i,
            forall|k: int| 0 <= k < i ==> records@[k]@ == merged_record(old_files, walked[k]),
            forall|a: int, b: int| 0 <= a < b < pending.len() ==> pending@[a] < pending@[b],
            forall|a: int| 0 <= a < pending.len() ==> (#[trigger] pending@[a]) < i,
            forall|k: int|
                0 <= k < i ==> (!is_reused(old_files, #[trigger] walked[k]) <==> exists|a: int|
                    0 <= a < pending.len() && pending@[a] == k),
            in_place <==> forall|k: int| 0 <= k < i ==> #[trigger] kept_in_place(
                old_files,
                walked,
                k,
            ),
        decreases files.len() - i,
    {
        let (record, found) = decide_file(
            stored,
            files[i].path.as_str(),
            files[i].content.as_str(),
        );
        assert(walked[i as int] == (WalkedText { path: files@[i as int].path@, text: files@[i as int].content@ }));
        let analyze = found.is_none();
        let here = match found {
            Some(j) => j == i,
            None => false,
        };
        assert(here == kept_in_place(old_files, walked, i as int));
        records.push(record);
        let ghost before = pending@;
        let ghost was_in_place = in_place;
        if analyze {
            pending.push(i);
            assert(pending@[before.len() as int] == i);
        }
        if !here {
            in_place = false;
        }
        proof {
            assert forall|k: int| 0 <= k < i + 1 implies (!is_reused(
                old_files,
                #[trigger] walked[k],
            ) <==> exists|a: int| 0 <= a < pending.len() && pending@[a] == k) by {
                if k < i {
                    if !is_reused(old_files, walked[k]) {
                        let a = choose|a: int| 0 <= a < before.len() && before[a] == k;
                        assert(pending@[a] == k);
                    }
                    if exists|a: int| 0 <= a < pending.len() && pending@[a] == k {
                        let a = choose|a: int| 0 <= a < pending.len() && pending@[a] == k;
                        assert(a < before.len());
                        assert(before[a] == k);
                    }
                } else {
                    if !analyze {
                        if exists|a: int| 0 <= a < pending.len() && pending@[a] == k {
                            let a = choose|a: int| 0 <= a < pending.len() && pending@[a] == k;
                            assert(before[a] < i);
                        }
                    }
                }
            }
            if in_place {
                assert forall|k: int| 0 <= k < i + 1 implies #[trigger] kept_in_place(
                    old_files,
                    walked,
                    k,
                ) by {}
            } else if was_in_place {
                assert(!kept_in_place(old_files, walked, i as int));
            } else {
                let k = choose|k: int| 0 <= k < i && !#[trigger] kept_in_place(old_files, walked, k);
                assert(!kept_in_place(old_files, walked, k));
            }
        }
        i += 1;
    }
    assert(records.deep_view() =~= merged_files(old_files, walked));
    let changed = !in_place || stored.len() != files.len();
    (records, pending, changed)
}

/// Decides for every walked file.
pub fn merge_files(stored: &[FileAnalysis], files: &[WalkedFile]) -> (r: (Vec<FileAnalysis>, Vec<usize>))
    ensures
        r.0.deep_view() == merged_files(models(stored@), models(files@)),
        lists_pending(r.1@, models(stored@), models(files@)),
{
    let (records, pending, _changed) = merge_all(stored, files);
    (records, pending)
}

/// The continuity check: the mode of a run over the stored snapshot `prior`
/// and the project's `history`.
pub fn continuity_check(prior: Option<&ProjectAnalysis>, history: &[String]) -> (mode: RunMode)
    ensures
        mode == run_mode(prior.deep_view(), names(history@)),
{
    match prior {
        None => RunMode::FullReset,
        Some(p) => {
            let analyzed = analyzed_versions_of(p);
            if check_version_continuity(analyzed.as_slice(), history) {
                RunMode::IncrementalMerge
            } else {
                RunMode::FullReset
            }
        },
    }
}

/// Runs the engine up to the point where files have to be analyzed.
///
/// `prior` is the stored snapshot, if a usable one was loaded; `history` the
/// project's revisions, empty without version control; `current_revision` the
/// revision checked out, if any; `files` what the walk found.
pub fn run_merge(
    prior: Option<ProjectAnalysis>,
    history: &[String],
    current_revision: Option<&str>,
    files: &[WalkedFile],
) -> (out: MergeOutcome)
    ensures
        out@.mode == run_mode(prior.deep_view(), names(history@)),
        out@.snapshot == merge_result(
            prior.deep_view(),
            names(history@),
            match current_revision {
                Some(c) => Some(c@),
                None => None,
            },
            models(files@),
        ),
        lists_pending(
            out@.pending,
            usable_records(out@.mode, prior.deep_view()),
            models(files@),
        ),
        out@.changed == !unchanged(usable_records(out@.mode, prior.deep_view()), models(files@)),
{
    let mode = continuity_check(prior.as_ref(), history);
    let ghost current = match current_revision {
        Some(c) => Some(c@),
        None => None,
    };
    let git_version = match current_revision {
        Some(c) => Some(owned(c)),
        None => None,
    };
    match (mode, prior) {
        (RunMode::IncrementalMerge, Some(p)) => {
            assert(models(p.file_analyses@) =~= p.file_analyses.deep_view());
            let (records, pending, changed) = merge_all(p.file_analyses.as_slice(), files);
            let mut analyzed = analyzed_versions_of(&p);
            if let Some(c) = current_revision {
                if !contains_name(analyzed.as_slice(), c) {
                    let ghost before = names(analyzed@);
                    analyzed.push(owned(c));
                    assert(names(analyzed@) =~= before.push(c@));
                }
            }
            assert(analyzed.deep_view() =~= names(analyzed@));
            assert(records@.len() == records.deep_view().len());
            let analysis = ProjectAnalysis {
                summary: p.summary,
                file_analyses: records,
                git_version,
                analyzed_versions: Some(analyzed),
            };
            MergeOutcome { mode, analysis, pending, changed }
        },
        (_, _) => {
            let none: Vec<FileAnalysis> = Vec::new();
            assert(models(none@) =~= Seq::<FileRecord>::empty());
            let (records, pending, changed) = merge_all(none.as_slice(), files);
            assert(models(records@) =~= records.deep_view());
            let summary = create_default_summary(records.as_slice());
            let mut analyzed: Vec<String> = Vec::new();
            assert(names(analyzed@) =~= Seq::<Seq<char>>::empty());
            if let Some(c) = current_revision {
                let ghost before = names(analyzed@);
                analyzed.push(owned(c));
                assert(names(analyzed@) =~= before.push(c@));
                assert(!before.contains(c@));
            }
            assert(analyzed.deep_view() =~= names(analyzed@));
            assert(records@.len() == records.deep_view().len());
            let analysis = ProjectAnalysis {
                summary,
                file_analyses: records,
                git_version,
                analyzed_versions: Some(analyzed),
            };
            MergeOutcome { mode: RunMode::FullReset, analysis, pending, changed }
        },
    }
}


/// The test for being another index than `index`.
pub open spec fn other_than(index: usize) -> spec_fn(usize) -> bool {
    |i: usize| i != index
}

/// `pending` without `index`.
pub open spec fn without(pending: Seq<usize>, index: usize) -> Seq<usize> {
    pending.filter(other_than(index))
}

/// Taking an index out of the awaited ones takes out that index and no
/// other, and keeps their order.
pub proof fn lemma_without(pending: Seq<usize>, index: usize, len: nat)
    requires
        increasing_below(pending, len),
    ensures
        increasing_below(without(pending, index), len),
        !without(pending, index).contains(index),
        forall|i: usize|
            i != index ==> (#[trigger] without(pending, index).contains(i) <==> pending.contains(i)),
        without(pending, index).len() == if pending.contains(index) {
            pending.len() - 1
        } else {
            pending.len() as int
        },
    decreases pending.len(),
{
    reveal(Seq::filter);
    let out = without(pending, index);
    if pending.len() > 0 {
        let init = pending.drop_last();
        let last = pending.last();
        assert forall|a: int, b: int| 0 <= a < b < init.len() implies init[a] < init[b] by {
            assert(init[a] == pending[a] && init[b] == pending[b]);
        }
        assert forall|a: int| 0 <= a < init.len() implies (#[trigger] init[a]) < len by {
            assert(init[a] == pending[a]);
        }
        lemma_without(init, index, len);
        let head = without(init, index);
        assert forall|x: usize| #[trigger] head.contains(x) implies x < last by {
            if x != index {
                assert(init.contains(x));
                let j = choose|j: int| 0 <= j < init.len() && init[j] == x;
                assert(pending[j] < pending[pending.len() - 1]);
            }
        }
        assert forall|a: int, b: int| 0 <= a < b < out.len() implies out[a] < out[b] by {
            if b == head.len() {
                assert(head.contains(head[a]));
            } else {
                assert(out[a] == head[a] && out[b] == head[b]);
            }
        }
        assert forall|a: int| 0 <= a < out.len() implies (#[trigger] out[a]) < len by {
            if a < head.len() {
                assert(out[a] == head[a]);
            } else {
                assert(out[a] == pending[pending.len() - 1]);
            }
        }
        assert(!out.contains(index)) by {
            if out.contains(index) {
                let j = choose|j: int| 0 <= j < out.len() && out[j] == index;
                if j < head.len() {
                    assert(head[j] == index);
                    assert(head.contains(index));
                }
            }
        }
        assert forall|i: usize| i != index implies (#[trigger] out.contains(i) <==> pending.contains(
            i,
        )) by {
            if out.contains(i) {
                let j = choose|j: int| 0 <= j < out.len() && out[j] == i;
                if j < head.len() {
                    assert(head[j] == i);
                    assert(head.contains(i));
                    let m = choose|m: int| 0 <= m < init.len() && init[m] == i;
                    assert(pending[m] == i);
                } else {
                    assert(pending[pending.len() - 1] == i);
                }
            }
            if pending.contains(i) {
                let j = choose|j: int| 0 <= j < pending.len() && pending[j] == i;
                if j < init.len() {
                    assert(init[j] == i);
                    assert(init.contains(i));
                    let m = choose|m: int| 0 <= m < head.len() && head[m] == i;
                    assert(out[m] == i);
                } else {
                    assert(out[out.len() - 1] == i);
                }
            }
        }
        if init.contains(index) {
            let j = choose|j: int| 0 <= j < init.len() && init[j] == index;
            assert(pending[j] == index);
            assert(pending[j] < pending[pending.len() - 1]);
        }
        if pending.contains(index) && last != index {
            let j = choose|j: int| 0 <= j < pending.len() && pending[j] == index;
            assert(init[j] == index);
        }
        if last == index {
            assert(pending[pending.len() - 1] == index);
        }
    }
}

impl MergeOutcome {
    #[verifier::type_invariant]
    spec fn inv(self) -> bool {
        increasing_below(self.pending@, self.analysis.file_analyses@.len())
    }

    /// Whether the stored snapshot was used.
    pub fn mode(&self) -> (r: RunMode)
        ensures
            r == self@.mode,
    {
        self.mode
    }

    /// The snapshot so far.
    pub fn analysis(&self) -> (r: &ProjectAnalysis)
        ensures
            r@ == self@.snapshot,
    {
        &self.analysis
    }

    /// The files whose analysis is awaited.
    pub fn pending(&self) -> (r: &Vec<usize>)
        ensures
            r@ == self@.pending,
            increasing_below(r@, self@.snapshot.files.len()),
    {
        proof {
            use_type_invariant(self);
            assert(self.analysis.file_analyses@.len() == self.analysis@.files.len());
        }
        &self.pending
    }

    /// The first file whose analysis is awaited, if any is.
    pub fn next_pending(&self) -> (r: Option<usize>)
        ensures
            r == if self@.pending.len() == 0 {
                None
            } else {
                Some(self@.pending[0])
            },
    {
        if self.pending.len() == 0 {
            None
        } else {
            Some(self.pending[0])
        }
    }

    /// Hands the engine the outcome of analyzing file `index`, a result or a
    /// failure (`None`). Either way the file is awaited no longer. A result
    /// is written into its record; after a failure the record stays as it
    /// is. For a file that is not awaited nothing changes.
    pub fn resolve(self, index: usize, result: Option<AIAnalysis>) -> (r: MergeOutcome)
        ensures
            r@.mode == self@.mode,
            r@.changed == self@.changed,
            r@.pending == without(self@.pending, index),
            r@.snapshot == if self@.pending.contains(index) {
                with_payload(self@.snapshot, index as int, result.deep_view())
            } else {
                self@.snapshot
            },
    {
        proof {
            use_type_invariant(&self);
        }
        let MergeOutcome { mode, mut analysis, pending, changed } = self;
        let ghost keep = other_than(index);
        let mut left: Vec<usize> = Vec::new();
        let mut found = false;
        let mut k: usize = 0;
        proof {
            reveal(Seq::filter);
            assert(pending@.take(0).filter(keep) =~= Seq::<usize>::empty());
        }
        while k < pending.len()
            invariant
                k <= pending.len(),
                keep == other_than(index),
                left@ == pending@.take(k as int).filter(keep),
                found == pending@.take(k as int).contains(index),
                increasing_below(pending@, analysis.file_analyses@.len()),
                increasing_below(left@, analysis.file_analyses@.len()),
                left.len() > 0 && k < pending.len() ==> left@[left.len() - 1] < pending@[k as int],
            decreases pending.len() - k,
        {
            let ghost seen = pending@.take(k as int);
            let ghost next = pending@.take(k + 1);
            proof {
                reveal(Seq::filter);
                assert(next.drop_last() == seen);
                assert(next.last() == pending@[k as int]);
                if seen.contains(index) {
                    let j = choose|j: int| 0 <= j < seen.len() && seen[j] == index;
                    assert(next[j] == index);
                }
                if next.contains(index) && pending@[k as int] != index {
                    let j = choose|j: int| 0 <= j < next.len() && next[j] == index;
                    assert(seen[j] == index);
                }
            }
            if pending[k] == index {
                found = true;
            } else {
                left.push(pending[k]);
            }
            k += 1;
        }
        assert(pending@.take(k as int) == pending@);
        if found {
            record_analysis(&mut analysis, index, result);
        }
        assert(analysis.file_analyses@.len() == analysis@.files.len());
        MergeOutcome { mode, analysis, pending: left, changed }
    }

    /// Whether a summary of the project is asked of the analysis service at
    /// the end of this run: only where files are analyzed at all, the
    /// snapshot holds any, and its records differ from the stored ones. A run
    /// that found everything as it was stored keeps the stored summary, so
    /// that running again changes nothing.
    pub fn summary_wanted(&self, skip_ai: bool) -> (r: bool)
        ensures
            r == (!skip_ai && self@.changed && self@.snapshot.files.len() > 0),
    {
        !skip_ai && self.changed && self.analysis.file_analyses.len() > 0
    }

    /// Whether no analysis is awaited any more.
    pub fn is_complete(&self) -> (r: bool)
        ensures
            r == (self@.pending.len() == 0),
    {
        self.pending.len() == 0
    }

    /// The snapshot of the run, once no analysis is awaited any more; until
    /// then the run itself is handed back.
    pub fn finish(self) -> (r: Result<ProjectAnalysis, MergeOutcome>)
        ensures
            match r {
                Ok(snapshot) => self@.pending.len() == 0 && snapshot@ == self@.snapshot,
                Err(run) => self@.pending.len() > 0 && run@ == self@,
            },
    {
        if self.pending.len() == 0 {
            Ok(self.analysis)
        } else {
            Err(self)
        }
    }
}

/// `snapshot` once the analysis of record `index` has come back. A result
/// replaces what the record held. A failed analysis (`None`) leaves the record
/// as it is: counts and fingerprint are those of the new text, the analysis
/// stays absent. An index past the records changes nothing.
pub open spec fn with_payload(
    snapshot: ProjectSnapshot,
    index: int,
    result: Option<AnalysisPayload>,
) -> ProjectSnapshot {
    if 0 <= index < snapshot.files.len() && result is Some {
        ProjectSnapshot {
            files: snapshot.files.update(
                index,
                FileRecord {
                    path: snapshot.files[index].path,
                    stats: snapshot.files[index].stats,
                    fingerprint: snapshot.files[index].fingerprint,
                    payload: result,
                },
            ),
            summary: snapshot.summary,
            revision: snapshot.revision,
            analyzed: snapshot.analyzed,
        }
    } else {
        snapshot
    }
}

/// Hands the engine the outcome of analyzing record `index`. Returns whether
/// there is such a record.
pub fn record_analysis(analysis: &mut ProjectAnalysis, index: usize, result: Option<AIAnalysis>) -> (known:
    bool)
    ensures
        known == (index < old(analysis)@.files.len()),
        final(analysis)@ == with_payload(old(analysis)@, index as int, result.deep_view()),
{
    if index >= analysis.file_analyses.len() {
        return false;
    }
    if let Some(payload) = result {
        let ghost before = analysis.file_analyses.deep_view();
        let stored = &analysis.file_analyses[index];
        let record = FileAnalysis {
            file_path: stored.file_path.clone(),
            loc: stored.loc,
            blank_lines: stored.blank_lines,
            comment_lines: stored.comment_lines,
            code_lines: stored.code_lines,
            code_hash: stored.code_hash.clone(),
            ai_analysis: Some(payload),
        };
        analysis.file_analyses.set(index, record);
        assert(analysis.file_analyses.deep_view() =~= before.update(
            index as int,
            FileRecord {
                path: before[index as int].path,
                stats: before[index as int].stats,
                fingerprint: before[index as int].fingerprint,
                payload: result.deep_view(),
            },
        ));
    }
    true
}

/// Hands the engine the summary made of the finished records. Without one
/// (`None`) the snapshot keeps the summary it has.
pub fn record_summary(analysis: &mut ProjectAnalysis, summary: Option<ProjectSummary>)
    ensures
        final(analysis)@.summary == match summary {
            Some(s) => s@,
            None => old(analysis)@.summary,
        },
        final(analysis)@.files == old(analysis)@.files,
        final(analysis)@.revision == old(analysis)@.revision,
        final(analysis)@.analyzed == old(analysis)@.analyzed,
{
    if let Some(s) = summary {
        analysis.summary = s;
    }
}

/// Reuse: in an incremental merge, a walked file whose stored record bears
/// the fingerprint of its text gets that very record, analysis included, and
/// is not among the files handed out for analysis.
pub proof fn lemma_unchanged_file_is_reused(
    prior: ProjectSnapshot,
    history: Seq<Seq<char>>,
    current: Option<Seq<char>>,
    walked: Seq<WalkedText>,
    pending: Seq<usize>,
    i: int,
    stored: FileRecord,
)
    requires
        run_mode(Some(prior), history) == RunMode::IncrementalMerge,
        0 <= i < walked.len(),
        find_record(prior.files, walked[i].path) == Some(stored),
        stored.fingerprint == fingerprint(walked[i].text),
        lists_pending(pending, prior.files, walked),
    ensures
        merge_result(Some(prior), history, current, walked).files[i] == stored,
        merge_result(Some(prior), history, current, walked).files[i].payload == stored.payload,
        forall|a: int| 0 <= a < pending.len() ==> pending[a] != i,
{
    assert(is_reused(prior.files, walked[i]));
}

/// Change: a walked file without a stored record of the same fingerprint gets
/// a fresh record, whose counts add up and whose analysis is open, and is
/// handed out for analysis.
pub proof fn lemma_changed_file_is_pending(
    prior: Option<ProjectSnapshot>,
    history: Seq<Seq<char>>,
    current: Option<Seq<char>>,
    walked: Seq<WalkedText>,
    pending: Seq<usize>,
    i: int,
)
    requires
        0 <= i < walked.len(),
        !is_reused(usable_records(run_mode(prior, history), prior), walked[i]),
        lists_pending(pending, usable_records(run_mode(prior, history), prior), walked),
    ensures
        merge_result(prior, history, current, walked).files[i] == fresh_record(walked[i]),
        fresh_record(walked[i]).stats.wf(),
        exists|a: int| 0 <= a < pending.len() && pending[a] == i,
{
    lemma_line_stats_wf(walked[i].text);
}

/// Reset on discontinuity: where the revisions that the stored snapshot
/// covers are not one unbroken run of the history, the run is a full reset:
/// every record is fresh and the new snapshot covers the current revision
/// and no other.
pub proof fn lemma_discontinuity_resets(
    prior: ProjectSnapshot,
    history: Seq<Seq<char>>,
    current: Seq<char>,
    walked: Seq<WalkedText>,
)
    requires
        !is_contiguous(analyzed_revisions(prior).to_set(), history),
    ensures
        run_mode(Some(prior), history) == RunMode::FullReset,
        merge_result(Some(prior), history, Some(current), walked).analyzed == Some(seq![current]),
        merge_result(Some(prior), history, Some(current), walked).revision == Some(current),
        forall|i: int|
            0 <= i < walked.len() ==> (#[trigger] merge_result(
                Some(prior),
                history,
                Some(current),
                walked,
            ).files[i]) == fresh_record(walked[i]),
{
    let stored = Seq::<FileRecord>::empty();
    assert forall|i: int| 0 <= i < walked.len() implies !is_reused(stored, #[trigger] walked[i]) by {}
    assert(!Seq::<Seq<char>>::empty().contains(current));
    assert(Seq::<Seq<char>>::empty().push(current) =~= seq![current]);
}

/// Without a stored snapshot the run is a full reset too.
pub proof fn lemma_no_snapshot_resets(history: Seq<Seq<char>>)
    ensures
        run_mode(None, history) == RunMode::FullReset,
{
}

/// Without history a stored snapshot is always merged into.
pub proof fn lemma_no_history_merges(prior: ProjectSnapshot)
    ensures
        run_mode(Some(prior), Seq::empty()) == RunMode::IncrementalMerge,
{
}

/// Idempotence without version control: a run over files that the stored
/// snapshot already records, each under its own path and with the fingerprint
/// of its text, yields the stored snapshot again and hands out nothing for
/// analysis.
pub proof fn lemma_rerun_changes_nothing(
    snapshot: ProjectSnapshot,
    walked: Seq<WalkedText>,
    pending: Seq<usize>,
)
    requires
        snapshot.revision is None,
        snapshot.analyzed is Some,
        snapshot.files.len() == walked.len(),
        forall|i: int|
            0 <= i < walked.len() ==> (#[trigger] snapshot.files[i]).path == walked[i].path
                && snapshot.files[i].fingerprint == fingerprint(walked[i].text),
        forall|i: int, j: int|
            0 <= i < j < walked.len() ==> (#[trigger] walked[i]).path != (#[trigger] walked[j]).path,
        lists_pending(pending, snapshot.files, walked),
    ensures
        merge_result(Some(snapshot), Seq::empty(), None, walked) == snapshot,
        pending.len() == 0,
        unchanged(snapshot.files, walked),
{
    let next = merge_result(Some(snapshot), Seq::empty(), None, walked);
    assert forall|a: int, b: int| 0 <= a < b < snapshot.files.len() implies (
    #[trigger] snapshot.files[a]).path != (#[trigger] snapshot.files[b]).path by {
        assert(walked[a].path != walked[b].path);
    }
    assert forall|i: int| 0 <= i < walked.len() implies is_reused(
        snapshot.files,
        #[trigger] walked[i],
    ) && merged_record(snapshot.files, walked[i]) == snapshot.files[i] by {
        lemma_find_record_unique(snapshot.files, i);
    }
    assert forall|i: int| 0 <= i < walked.len() implies #[trigger] kept_in_place(
        snapshot.files,
        walked,
        i,
    ) by {
        lemma_find_record_unique(snapshot.files, i);
        lemma_find_index_unique(snapshot.files, i);
        assert(is_reused(snapshot.files, walked[i]));
    }
    assert(next.files =~= snapshot.files);
    if pending.len() > 0 {
        let i = pending[0] as int;
        assert(is_reused(snapshot.files, walked[i]));
        assert(false);
    }
}

/// Where the walked files bear different paths, so do the records of the new
/// snapshot, and if the counts of every stored record add up, so do those of
/// every new one.
pub proof fn lemma_merge_keeps_records_sound(
    prior: Option<ProjectSnapshot>,
    history: Seq<Seq<char>>,
    current: Option<Seq<char>>,
    walked: Seq<WalkedText>,
)
    requires
        forall|i: int, j: int|
            0 <= i < j < walked.len() ==> (#[trigger] walked[i]).path != (#[trigger] walked[j]).path,
        prior matches Some(p) ==> forall|i: int|
            0 <= i < p.files.len() ==> (#[trigger] p.files[i]).stats.wf(),
    ensures
        merge_result(prior, history, current, walked).wf(),
        merge_result(prior, history, current, walked).files.len() == walked.len(),
        forall|i: int|
            0 <= i < walked.len() ==> (#[trigger] merge_result(
                prior,
                history,
                current,
                walked,
            ).files[i]).path == walked[i].path,
{
    let next = merge_result(prior, history, current, walked);
    let stored = usable_records(run_mode(prior, history), prior);
    assert forall|i: int| 0 <= i < walked.len() implies (#[trigger] next.files[i]).path
        == walked[i].path && next.files[i].stats.wf() by {
        lemma_find_record(stored, walked[i].path);
        lemma_line_stats_wf(walked[i].text);
        if is_reused(stored, walked[i]) {
            let r = find_record(stored, walked[i].path)->0;
            let k = choose|k: int| 0 <= k < stored.len() && stored[k] == r;
            assert(stored[k].stats.wf());
        }
    }
}


/// What an update of the stored report has to do.
#[derive(Debug, PartialEq, Eq)]
pub enum UpdatePlan {
    /// The stored analyses are kept as they are: only the report is written
    /// again.
    ReportOnly,
    /// There is no usable stored report, or the revisions it covers are out
    /// of order: run the engine once on the working tree, from nothing.
    FullReset,
    /// The stored report covers every revision of the history. The engine
    /// still runs once on the working tree, from the stored report, to find
    /// files that changed since.
    UpToDate,
    /// The stored report lacks these revisions: run the engine on each, in
    /// this order, each run from the snapshot of the one before.
    Analyze(Vec<String>),
}

/// Plans the update of the stored report `stored` against `history`.
///
/// With `keep`, a stored report is left as it is. Else the plan is a full
/// reset exactly where a run of the engine would be one: without a stored
/// report, or where the revisions it covers are no unbroken run of the
/// history. Only a stored report that can be merged into is brought up to
/// date revision by revision.
pub fn plan_update(stored: Option<&ProjectAnalysis>, history: &[String], keep: bool) -> (plan:
    UpdatePlan)
    ensures
        ({
            let kept = keep && stored is Some;
            let mode = run_mode(stored.deep_view(), names(history@));
            let todo = match stored {
                Some(s) => pending_revisions(names(history@), analyzed_revisions(s@)),
                None => Seq::empty(),
            };
            match plan {
                UpdatePlan::ReportOnly => kept,
                UpdatePlan::FullReset => !kept && mode == RunMode::FullReset,
                UpdatePlan::UpToDate => !kept && stored is Some && mode
                    == RunMode::IncrementalMerge && todo.len() == 0,
                UpdatePlan::Analyze(list) => !kept && stored is Some && mode
                    == RunMode::IncrementalMerge && todo.len() > 0 && names(list@) == todo,
            }
        }),
{
    match stored {
        None => UpdatePlan::FullReset,
        Some(s) => {
            if keep {
                return UpdatePlan::ReportOnly;
            }
            match continuity_check(stored, history) {
                RunMode::FullReset => UpdatePlan::FullReset,
                RunMode::IncrementalMerge => {
                    let covered = analyzed_versions_of(s);
                    let todo = versions_to_analyze(history, covered.as_slice());
                    if todo.len() == 0 {
                        UpdatePlan::UpToDate
                    } else {
                        UpdatePlan::Analyze(todo)
                    }
                },
            }
        },
    }
}

} // verus!
