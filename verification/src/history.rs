//! The history tracker: which revisions a snapshot covers, whether they form
//! one unbroken run of the project's history, and which are still to be
//! analyzed.
//!
//! A history is a sequence of revision identifiers in the order in which
//! version control lists them. The functions here never look inside an
//! identifier and hold for either direction of that order.

use crate::models::{ProjectAnalysis, ProjectSnapshot};
use crate::text::str_eq;
use vstd::prelude::*;
use vstd::string::StringExecFns;

verus! {

/// The texts of a list of strings.
pub open spec fn names(v: Seq<String>) -> Seq<Seq<char>> {
    Seq::new(v.len(), |i: int| v[i]@)
}

/// Whether the revisions of `analyzed` stand in `history` as one unbroken run:
/// no revision outside the set lies between two revisions inside it.
pub open spec fn is_contiguous(analyzed: Set<Seq<char>>, history: Seq<Seq<char>>) -> bool {
    forall|i: int, j: int, k: int|
        #![trigger history[i], history[j], history[k]]
        0 <= i < j < k < history.len() && analyzed.contains(history[i]) && analyzed.contains(
            history[k],
        ) ==> analyzed.contains(history[j])
}

/// With nothing analyzed there is nothing to be out of order: the empty set is
/// contiguous in every history.
pub proof fn lemma_empty_set_is_contiguous(history: Seq<Seq<char>>)
    ensures
        is_contiguous(Set::empty(), history),
{
}

/// No set is out of order in an empty history.
pub proof fn lemma_contiguous_in_empty_history(analyzed: Set<Seq<char>>)
    ensures
        is_contiguous(analyzed, Seq::empty()),
{
}

/// A single analyzed revision is contiguous in every history that lists each
/// revision once.
pub proof fn lemma_single_revision_is_contiguous(rev: Seq<char>, history: Seq<Seq<char>>)
    requires
        history.no_duplicates(),
    ensures
        is_contiguous(set![rev], history),
{
}

/// An unanalyzed revision between two analyzed ones breaks contiguity.
pub proof fn lemma_gap_breaks_contiguity(
    analyzed: Set<Seq<char>>,
    history: Seq<Seq<char>>,
    i: int,
    j: int,
    k: int,
)
    requires
        0 <= i < j < k < history.len(),
        analyzed.contains(history[i]),
        !analyzed.contains(history[j]),
        analyzed.contains(history[k]),
    ensures
        !is_contiguous(analyzed, history),
{
}

/// Whether `name` is one of `list`.
pub fn contains_name(list: &[String], name: &str) -> (r: bool)
    ensures
        r == names(list@).contains(name@),
{
    let mut i: usize = 0;
    while i < list.len()
        invariant
            i <= list.len(),
            forall|k: int| 0 <= k < i ==> names(list@)[k] != name@,
        decreases list.len() - i,
    {
        if str_eq(list[i].as_str(), name) {
            assert(names(list@)[i as int] == name@);
            return true;
        }
        i += 1;
    }
    false
}

/// Whether the analyzed revisions `versions` form one unbroken run within
/// `history`.
pub fn check_version_continuity(versions: &[String], history: &[String]) -> (r: bool)
    ensures
        r == is_contiguous(names(versions@).to_set(), names(history@)),
{
    let ghost set = names(versions@).to_set();
    let ghost h = names(history@);
    let mut entered = false;
    let mut left = false;
    let mut pos: usize = 0;
    while pos < history.len()
        invariant
            pos <= history.len(),
            set == names(versions@).to_set(),
            h == names(history@),
            entered <==> exists|i: int| 0 <= i < pos && set.contains(#[trigger] h[i]),
            left <==> exists|i: int, j: int|
                0 <= i < j < pos && set.contains(#[trigger] h[i]) && !set.contains(#[trigger] h[j]),
            is_contiguous(set, h.take(pos as int)),
        decreases history.len() - pos,
    {
        let inside = contains_name(versions, history[pos].as_str());
        assert(inside == set.contains(h[pos as int]));
        if inside && left {
            proof {
                let (i, j) = choose|i: int, j: int|
                    0 <= i < j < pos && set.contains(#[trigger] h[i]) && !set.contains(
                        #[trigger] h[j],
                    );
                lemma_gap_breaks_contiguity(set, h, i, j, pos as int);
            }
            return false;
        }
        proof {
            let next = h.take(pos + 1);
            let seen = h.take(pos as int);
            assert forall|i: int, j: int, k: int|
                #![trigger next[i], next[j], next[k]]
                0 <= i < j < k < next.len() && set.contains(next[i]) && set.contains(
                    next[k],
                ) implies set.contains(next[j]) by {
                if k < pos {
                    assert(seen[i] == next[i] && seen[j] == next[j] && seen[k] == next[k]);
                } else {
                    if !set.contains(next[j]) {
                        assert(next[i] == h[i] && next[j] == h[j]);
                        assert(left);
                    }
                }
            }
        }
        if inside {
            entered = true;
        } else if entered {
            proof {
                let i = choose|i: int| 0 <= i < pos && set.contains(#[trigger] h[i]);
                assert(set.contains(h[i]) && !set.contains(h[pos as int]));
            }
            left = true;
        }
        pos += 1;
    }
    assert(h.take(pos as int) == h);
    true
}

/// Whether a run at revision `current` has to analyze anew, given the stored
/// snapshot: always without version control or without a snapshot; otherwise
/// exactly when the snapshot does not cover `current`. A snapshot that lists
/// its analyzed revisions covers those; one that does not covers the revision
/// it was made at.
pub open spec fn reanalysis_needed(current: Option<Seq<char>>, stored: Option<ProjectSnapshot>) -> bool {
    match (current, stored) {
        (None, _) => true,
        (Some(_), None) => true,
        (Some(c), Some(s)) => match s.analyzed {
            Some(list) => !list.contains(c),
            None => s.revision != Some(c),
        },
    }
}

/// Whether a run at `current_version` has to analyze anew.
pub fn needs_reanalysis(current_version: Option<&str>, stored_analysis: Option<ProjectAnalysis>) -> (r:
    bool)
    ensures
        r == reanalysis_needed(
            match current_version {
                Some(c) => Some(c@),
                None => None,
            },
            stored_analysis.deep_view(),
        ),
{
    match (current_version, stored_analysis) {
        (None, _) => true,
        (Some(_), None) => true,
        (Some(current), Some(analysis)) => {
            match &analysis.analyzed_versions {
                Some(analyzed) => {
                    assert(names(analyzed@) =~= analyzed.deep_view());
                    !contains_name(analyzed.as_slice(), current)
                },
                None => match &analysis.git_version {
                    None => true,
                    Some(stored) => !str_eq(stored.as_str(), current),
                },
            }
        },
    }
}

/// The revisions that `snapshot` covers: those it lists, and the revision it
/// was made at where the list lacks it.
pub open spec fn analyzed_revisions(snapshot: ProjectSnapshot) -> Seq<Seq<char>> {
    let listed = match snapshot.analyzed {
        Some(list) => list,
        None => Seq::empty(),
    };
    match snapshot.revision {
        Some(rev) => if listed.contains(rev) {
            listed
        } else {
            listed.push(rev)
        },
        None => listed,
    }
}

/// The revisions that `analysis` covers.
pub fn analyzed_versions_of(analysis: &ProjectAnalysis) -> (r: Vec<String>)
    ensures
        names(r@) == analyzed_revisions(analysis@),
{
    let mut r: Vec<String> = Vec::new();
    if let Some(list) = &analysis.analyzed_versions {
        let mut i: usize = 0;
        while i < list.len()
            invariant
                i <= list.len(),
                names(r@) == list.deep_view().take(i as int),
            decreases list.len() - i,
        {
            let ghost before = names(r@);
            r.push(list[i].clone());
            i += 1;
            assert(names(r@) =~= before.push(list@[i - 1]@));
            assert(list.deep_view().take(i as int) =~= list.deep_view().take(i - 1).push(
                list@[i - 1]@,
            ));
        }
        assert(list.deep_view().take(i as int) == list.deep_view());
    } else {
        assert(names(r@) =~= Seq::<Seq<char>>::empty());
    }
    if let Some(rev) = &analysis.git_version {
        if !contains_name(r.as_slice(), rev.as_str()) {
            let ghost before = names(r@);
            r.push(rev.clone());
            assert(names(r@) =~= before.push(rev@));
        }
    }
    r
}

/// The revisions of `history` that `analyzed` lacks, in the order of
/// `history`.
pub open spec fn pending_revisions(history: Seq<Seq<char>>, analyzed: Seq<Seq<char>>) -> Seq<Seq<char>> {
    history.filter(|rev: Seq<char>| !analyzed.contains(rev))
}

/// The revisions of `history` still to be analyzed.
pub fn versions_to_analyze(history: &[String], analyzed: &[String]) -> (r: Vec<String>)
    ensures
        names(r@) == pending_revisions(names(history@), names(analyzed@)),
{
    let ghost h = names(history@);
    let ghost keep = |rev: Seq<char>| !names(analyzed@).contains(rev);
    let mut r: Vec<String> = Vec::new();
    let mut i: usize = 0;
    assert(names(r@) =~= Seq::<Seq<char>>::empty());
    assert(h.take(0).filter(keep) == Seq::<Seq<char>>::empty()) by {
        reveal(Seq::filter);
    }
    while i < history.len()
        invariant
            i <= history.len(),
            h == names(history@),
            keep == |rev: Seq<char>| !names(analyzed@).contains(rev),
            names(r@) == h.take(i as int).filter(keep),
        decreases history.len() - i,
    {
        let ghost before = names(r@);
        proof {
            reveal(Seq::filter);
            assert(h.take(i + 1).drop_last() == h.take(i as int));
            assert(h.take(i + 1).last() == h[i as int]);
        }
        if !contains_name(analyzed, history[i].as_str()) {
            r.push(history[i].clone());
            assert(names(r@) =~= before.push(h[i as int]));
        }
        i += 1;
    }
    assert(h.take(i as int) == h);
    r
}

/// `list` with `rev` at the end, unless it holds `rev` already.
pub open spec fn with_revision(list: Seq<Seq<char>>, rev: Seq<char>) -> Seq<Seq<char>> {
    if list.contains(rev) {
        list
    } else {
        list.push(rev)
    }
}

/// Notes `version` as analyzed. Noting a revision twice changes nothing.
pub fn record_analyzed_version(analysis: &mut ProjectAnalysis, version: &str)
    ensures
        final(analysis)@.analyzed == Some(
            with_revision(
                match old(analysis)@.analyzed {
                    Some(list) => list,
                    None => Seq::empty(),
                },
                version@,
            ),
        ),
        final(analysis)@.summary == old(analysis)@.summary,
        final(analysis)@.files == old(analysis)@.files,
        final(analysis)@.revision == old(analysis)@.revision,
{
    let mut list: Vec<String> = match analysis.analyzed_versions.take() {
        Some(list) => list,
        None => Vec::new(),
    };
    let ghost before = list.deep_view();
    assert(names(list@) =~= before);
    if !contains_name(list.as_slice(), version) {
        list.push(crate::text::from_chars(&crate::text::to_chars(version)));
        assert(list.deep_view() =~= before.push(version@));
    }
    analysis.analyzed_versions = Some(list);
}

/// Recording a revision twice is the same as recording it once.
pub proof fn lemma_with_revision_idempotent(list: Seq<Seq<char>>, rev: Seq<char>)
    ensures
        with_revision(with_revision(list, rev), rev) == with_revision(list, rev),
        with_revision(list, rev).contains(rev),
{
    if !list.contains(rev) {
        assert(list.push(rev)[list.len() as int] == rev);
    }
}


/// The name of the branch on which revision `commit_id` is checked out while
/// it is analyzed.
pub fn analysis_branch(commit_id: &str) -> (r: String)
    ensures
        r@ == "temp-analysis-"@ + commit_id@,
{
    let mut r = String::new();
    r.append("temp-analysis-");
    r.append(commit_id);
    assert(r@ =~= "temp-analysis-"@ + commit_id@);
    r
}

/// The full name of the reference of the branch `branch`.
pub fn branch_ref(branch: &str) -> (r: String)
    ensures
        r@ == "refs/heads/"@ + branch@,
{
    let mut r = String::new();
    r.append("refs/heads/");
    r.append(branch);
    assert(r@ =~= "refs/heads/"@ + branch@);
    r
}

/// The history as the engine takes it: what version control listed, or
/// nothing where it could not be asked.
pub fn history_or_none(listed: Option<Vec<String>>) -> (r: Vec<String>)
    ensures
        names(r@) == match listed {
            Some(l) => names(l@),
            None => Seq::empty(),
        },
{
    match listed {
        Some(l) => l,
        None => {
            let r: Vec<String> = Vec::new();
            assert(names(r@) =~= Seq::<Seq<char>>::empty());
            r
        },
    }
}

} // verus!
