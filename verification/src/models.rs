//! The data of an analysis run and its mathematical model.
//!
//! Each executable type has a model made of sequences, options and naturals,
//! reached by `@`. Contracts throughout the crate speak of the models, so that
//! two values with the same content are the same to them.

use vstd::prelude::*;

verus! {

/// Model of [`CodeStats`]: the line counts of one text.
pub struct LineStats {
    pub total: nat,
    pub blank: nat,
    pub comment: nat,
    pub code: nat,
}

impl LineStats {
    /// Every line is blank, comment or code.
    pub open spec fn wf(self) -> bool {
        self.total == self.blank + self.comment + self.code
    }
}

/// Model of [`CoreStruct`].
pub struct StructNote {
    pub name: Seq<char>,
    pub description: Seq<char>,
}

/// Model of [`FunctionDetail`].
pub struct FunctionNote {
    pub name: Seq<char>,
    pub description: Seq<char>,
    pub parameters: Seq<Seq<char>>,
    pub return_type: Seq<char>,
    pub complexity: Seq<char>,
}

/// Model of [`AIAnalysis`]: what the analysis service said of one file.
pub struct AnalysisPayload {
    pub main_functions: Seq<Seq<char>>,
    pub core_structs: Seq<StructNote>,
    pub error_types: Seq<Seq<char>>,
    pub functions_details: Seq<FunctionNote>,
    pub code_complexity: Seq<char>,
}

/// Model of [`FileAnalysis`]: one file of a snapshot.
pub struct FileRecord {
    pub path: Seq<char>,
    pub stats: LineStats,
    pub fingerprint: Seq<char>,
    pub payload: Option<AnalysisPayload>,
}

/// Model of [`ProjectSummary`].
pub struct SummaryPayload {
    pub total_files: nat,
    pub total_loc: nat,
    pub main_features: Seq<Seq<char>>,
    pub code_architecture: Seq<char>,
    pub key_components: Seq<Seq<char>>,
    pub tech_stack: Seq<Seq<char>>,
    pub recommendations: Seq<Seq<char>>,
}

/// Model of [`ProjectAnalysis`]: the persisted result of a run.
pub struct ProjectSnapshot {
    pub summary: SummaryPayload,
    pub files: Seq<FileRecord>,
    pub revision: Option<Seq<char>>,
    pub analyzed: Option<Seq<Seq<char>>>,
}

/// The line counts of one text.
#[derive(Debug, PartialEq, Eq)]
pub struct CodeStats {
    pub loc: usize,
    pub blank_lines: usize,
    pub comment_lines: usize,
    pub code_lines: usize,
}

/// One file of a snapshot: its path relative to the project root, its line
/// counts, the fingerprint of its code and, where there is one, the analysis
/// made of it.
#[derive(Debug, PartialEq, Eq)]
pub struct FileAnalysis {
    pub file_path: String,
    pub loc: usize,
    pub blank_lines: usize,
    pub comment_lines: usize,
    pub code_lines: usize,
    pub code_hash: String,
    pub ai_analysis: Option<AIAnalysis>,
}

/// What the analysis service said of one file.
#[derive(Debug, PartialEq, Eq)]
pub struct AIAnalysis {
    pub main_functions: Vec<String>,
    pub core_structs: Vec<CoreStruct>,
    pub error_types: Vec<String>,
    pub functions_details: Vec<FunctionDetail>,
    pub code_complexity: String,
}

/// A data type that an analysis singles out.
#[derive(Debug, PartialEq, Eq)]
pub struct CoreStruct {
    pub name: String,
    pub description: String,
}

/// A function that an analysis describes.
#[derive(Debug, PartialEq, Eq)]
pub struct FunctionDetail {
    pub name: String,
    pub description: String,
    pub parameters: Vec<String>,
    pub return_type: String,
    pub complexity: String,
}

/// The project-wide summary of a snapshot.
#[derive(Debug, PartialEq, Eq)]
pub struct ProjectSummary {
    pub total_files: usize,
    pub total_loc: usize,
    pub main_features: Vec<String>,
    pub code_architecture: String,
    pub key_components: Vec<String>,
    pub tech_stack: Vec<String>,
    pub recommendations: Vec<String>,
}

/// The persisted result of a run: every file record, the summary, the revision
/// the run was made at and the revisions folded into it so far.
#[derive(Debug, PartialEq, Eq)]
pub struct ProjectAnalysis {
    pub summary: ProjectSummary,
    pub file_analyses: Vec<FileAnalysis>,
    pub git_version: Option<String>,
    pub analyzed_versions: Option<Vec<String>>,
}

impl View for CodeStats {
    type V = LineStats;

    open spec fn view(&self) -> LineStats {
        LineStats {
            total: self.loc as nat,
            blank: self.blank_lines as nat,
            comment: self.comment_lines as nat,
            code: self.code_lines as nat,
        }
    }
}

impl View for CoreStruct {
    type V = StructNote;

    open spec fn view(&self) -> StructNote {
        StructNote { name: self.name@, description: self.description@ }
    }
}

impl DeepView for CoreStruct {
    type V = StructNote;

    open spec fn deep_view(&self) -> StructNote {
        self@
    }
}

impl View for FunctionDetail {
    type V = FunctionNote;

    open spec fn view(&self) -> FunctionNote {
        FunctionNote {
            name: self.name@,
            description: self.description@,
            parameters: self.parameters.deep_view(),
            return_type: self.return_type@,
            complexity: self.complexity@,
        }
    }
}

impl DeepView for FunctionDetail {
    type V = FunctionNote;

    open spec fn deep_view(&self) -> FunctionNote {
        self@
    }
}

impl View for AIAnalysis {
    type V = AnalysisPayload;

    open spec fn view(&self) -> AnalysisPayload {
        AnalysisPayload {
            main_functions: self.main_functions.deep_view(),
            core_structs: self.core_structs.deep_view(),
            error_types: self.error_types.deep_view(),
            functions_details: self.functions_details.deep_view(),
            code_complexity: self.code_complexity@,
        }
    }
}

impl DeepView for AIAnalysis {
    type V = AnalysisPayload;

    open spec fn deep_view(&self) -> AnalysisPayload {
        self@
    }
}

impl View for FileAnalysis {
    type V = FileRecord;

    open spec fn view(&self) -> FileRecord {
        FileRecord {
            path: self.file_path@,
            stats: LineStats {
                total: self.loc as nat,
                blank: self.blank_lines as nat,
                comment: self.comment_lines as nat,
                code: self.code_lines as nat,
            },
            fingerprint: self.code_hash@,
            payload: self.ai_analysis.deep_view(),
        }
    }
}

impl DeepView for FileAnalysis {
    type V = FileRecord;

    open spec fn deep_view(&self) -> FileRecord {
        self@
    }
}

impl View for ProjectSummary {
    type V = SummaryPayload;

    open spec fn view(&self) -> SummaryPayload {
        SummaryPayload {
            total_files: self.total_files as nat,
            total_loc: self.total_loc as nat,
            main_features: self.main_features.deep_view(),
            code_architecture: self.code_architecture@,
            key_components: self.key_components.deep_view(),
            tech_stack: self.tech_stack.deep_view(),
            recommendations: self.recommendations.deep_view(),
        }
    }
}

impl DeepView for ProjectSummary {
    type V = SummaryPayload;

    open spec fn deep_view(&self) -> SummaryPayload {
        self@
    }
}

impl View for ProjectAnalysis {
    type V = ProjectSnapshot;

    open spec fn view(&self) -> ProjectSnapshot {
        ProjectSnapshot {
            summary: self.summary@,
            files: self.file_analyses.deep_view(),
            revision: self.git_version.deep_view(),
            analyzed: self.analyzed_versions.deep_view(),
        }
    }
}

impl DeepView for ProjectAnalysis {
    type V = ProjectSnapshot;

    open spec fn deep_view(&self) -> ProjectSnapshot {
        self@
    }
}

/// A copy of a list of strings.
pub fn clone_strings(v: &Vec<String>) -> (r: Vec<String>)
    ensures
        r.deep_view() == v.deep_view(),
{
    let mut r: Vec<String> = Vec::new();
    let mut i: usize = 0;
    while i < v.len()
        invariant
            i <= v.len(),
            r.len() == i,
            forall|k: int| 0 <= k < i ==> r@[k]@ == v@[k]@,
        decreases v.len() - i,
    {
        r.push(v[i].clone());
        i += 1;
    }
    assert(r.deep_view() =~= v.deep_view());
    r
}

/// A copy of an optional string.
pub fn clone_opt_string(s: &Option<String>) -> (r: Option<String>)
    ensures
        r.deep_view() == s.deep_view(),
{
    match s {
        Some(x) => Some(x.clone()),
        None => None,
    }
}

impl Clone for CodeStats {
    fn clone(&self) -> (r: Self)
        ensures
            r == *self,
    {
        CodeStats {
            loc: self.loc,
            blank_lines: self.blank_lines,
            comment_lines: self.comment_lines,
            code_lines: self.code_lines,
        }
    }
}

impl Clone for CoreStruct {
    fn clone(&self) -> (r: Self)
        ensures
            r@ == self@,
    {
        CoreStruct { name: self.name.clone(), description: self.description.clone() }
    }
}

impl Clone for FunctionDetail {
    fn clone(&self) -> (r: Self)
        ensures
            r@ == self@,
    {
        FunctionDetail {
            name: self.name.clone(),
            description: self.description.clone(),
            parameters: clone_strings(&self.parameters),
            return_type: self.return_type.clone(),
            complexity: self.complexity.clone(),
        }
    }
}

impl Clone for AIAnalysis {
    fn clone(&self) -> (r: Self)
        ensures
            r@ == self@,
    {
        let mut core_structs: Vec<CoreStruct> = Vec::new();
        let mut i: usize = 0;
        while i < self.core_structs.len()
            invariant
                i <= self.core_structs.len(),
                core_structs.len() == i,
                forall|k: int| 0 <= k < i ==> core_structs@[k]@ == self.core_structs@[k]@,
            decreases self.core_structs.len() - i,
        {
            core_structs.push(self.core_structs[i].clone());
            i += 1;
        }
        assert(core_structs.deep_view() =~= self.core_structs.deep_view());
        let mut functions_details: Vec<FunctionDetail> = Vec::new();
        let mut j: usize = 0;
        while j < self.functions_details.len()
            invariant
                j <= self.functions_details.len(),
                functions_details.len() == j,
                forall|k: int|
                    0 <= k < j ==> functions_details@[k]@ == self.functions_details@[k]@,
            decreases self.functions_details.len() - j,
        {
            functions_details.push(self.functions_details[j].clone());
            j += 1;
        }
        assert(functions_details.deep_view() =~= self.functions_details.deep_view());
        AIAnalysis {
            main_functions: clone_strings(&self.main_functions),
            core_structs,
            error_types: clone_strings(&self.error_types),
            functions_details,
            code_complexity: self.code_complexity.clone(),
        }
    }
}

impl Clone for FileAnalysis {
    fn clone(&self) -> (r: Self)
        ensures
            r@ == self@,
    {
        FileAnalysis {
            file_path: self.file_path.clone(),
            loc: self.loc,
            blank_lines: self.blank_lines,
            comment_lines: self.comment_lines,
            code_lines: self.code_lines,
            code_hash: self.code_hash.clone(),
            ai_analysis: match &self.ai_analysis {
                Some(a) => Some(a.clone()),
                None => None,
            },
        }
    }
}

impl Clone for ProjectSummary {
    fn clone(&self) -> (r: Self)
        ensures
            r@ == self@,
    {
        ProjectSummary {
            total_files: self.total_files,
            total_loc: self.total_loc,
            main_features: clone_strings(&self.main_features),
            code_architecture: self.code_architecture.clone(),
            key_components: clone_strings(&self.key_components),
            tech_stack: clone_strings(&self.tech_stack),
            recommendations: clone_strings(&self.recommendations),
        }
    }
}

/// A copy of a list of file records.
pub fn clone_records(v: &Vec<FileAnalysis>) -> (r: Vec<FileAnalysis>)
    ensures
        r.deep_view() == v.deep_view(),
{
    let mut r: Vec<FileAnalysis> = Vec::new();
    let mut i: usize = 0;
    while i < v.len()
        invariant
            i <= v.len(),
            r.len() == i,
            forall|k: int| 0 <= k < i ==> r@[k]@ == v@[k]@,
        decreases v.len() - i,
    {
        r.push(v[i].clone());
        i += 1;
    }
    assert(r.deep_view() =~= v.deep_view());
    r
}

impl Clone for ProjectAnalysis {
    fn clone(&self) -> (r: Self)
        ensures
            r@ == self@,
    {
        ProjectAnalysis {
            summary: self.summary.clone(),
            file_analyses: clone_records(&self.file_analyses),
            git_version: clone_opt_string(&self.git_version),
            analyzed_versions: match &self.analyzed_versions {
                Some(v) => Some(clone_strings(v)),
                None => None,
            },
        }
    }
}

/// The models of the items of `s`, in order.
pub open spec fn models<T: View>(s: Seq<T>) -> Seq<T::V> {
    Seq::new(s.len(), |i: int| s[i]@)
}

/// The sum of the line totals of `files`.
pub open spec fn total_loc(files: Seq<FileRecord>) -> nat
    decreases files.len(),
{
    if files.len() == 0 {
        0
    } else {
        total_loc(files.drop_last()) + files.last().stats.total
    }
}

impl ProjectSnapshot {
    /// No two records share a path, and the line counts of each add up.
    pub open spec fn wf(self) -> bool {
        &&& forall|i: int, j: int|
            0 <= i < j < self.files.len() ==> (#[trigger] self.files[i]).path
                != (#[trigger] self.files[j]).path
        &&& forall|i: int| 0 <= i < self.files.len() ==> (#[trigger] self.files[i]).stats.wf()
    }
}

} // verus!
