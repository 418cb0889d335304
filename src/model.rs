use vstd::prelude::*;

verus! {

/// One file touched by a commit: a one-character status code and a
/// repository-relative path.
#[derive(Debug)]
pub struct GitFile {
    pub status: String,
    pub path: String,
}

/// One commit as the history tool reports it.
#[derive(Debug)]
pub struct GitCommit {
    pub hash: String,
    pub author: String,
    pub email: String,
    pub date: String,
    pub message: String,
    pub files: Vec<GitFile>,
}

/// A nested repository: its display name and its absolute path.
#[derive(Debug)]
pub struct GitSubmodule {
    pub name: String,
    pub path: String,
}

/// How often one path changed across the sampled commits.
#[derive(Debug)]
pub struct FileChangeSummary {
    pub path: String,
    pub change_count: usize,
}

/// Statistics over a main repository and its submodules.
#[derive(Debug)]
pub struct GitStats {
    pub total_commits: usize,
    pub total_files_changed: usize,
    pub authors: Vec<String>,
    pub date_range: (String, String),
    pub sample_commits: Vec<GitCommit>,
    pub file_changes_summary: Vec<FileChangeSummary>,
}

/// Mathematical value of a [`GitFile`].
pub struct FileModel {
    pub status: Seq<char>,
    pub path: Seq<char>,
}

/// Mathematical value of a [`GitCommit`].
pub struct CommitModel {
    pub hash: Seq<char>,
    pub author: Seq<char>,
    pub email: Seq<char>,
    pub date: Seq<char>,
    pub message: Seq<char>,
    pub files: Seq<FileModel>,
}

impl View for GitFile {
    type V = FileModel;

    open spec fn view(&self) -> FileModel {
        FileModel { status: self.status@, path: self.path@ }
    }
}

pub open spec fn files_view(v: Seq<GitFile>) -> Seq<FileModel> {
    v.map_values(|f: GitFile| f@)
}

impl View for GitCommit {
    type V = CommitModel;

    open spec fn view(&self) -> CommitModel {
        CommitModel {
            hash: self.hash@,
            author: self.author@,
            email: self.email@,
            date: self.date@,
            message: self.message@,
            files: files_view(self.files@),
        }
    }
}

pub open spec fn commits_view(v: Seq<GitCommit>) -> Seq<CommitModel> {
    v.map_values(|c: GitCommit| c@)
}

pub proof fn lemma_commits_view_push(v: Seq<GitCommit>, c: GitCommit)
    ensures
        commits_view(v.push(c)) == commits_view(v).push(c@),
{
    assert(commits_view(v.push(c)) =~= commits_view(v).push(c@));
}

pub proof fn lemma_files_view_push(v: Seq<GitFile>, f: GitFile)
    ensures
        files_view(v.push(f)) == files_view(v).push(f@),
{
    assert(files_view(v.push(f)) =~= files_view(v).push(f@));
}

} // verus!
