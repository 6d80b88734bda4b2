//! Errors of repository analysis.
use crate::text::chars::{concat2, concat3};
use vstd::prelude::*;
use vstd::string::*;

verus! {

/// What can go wrong in repository analysis.
#[derive(Debug, Clone, PartialEq, Eq)]
pub enum RepoError {
    /// Reading files or walking directories failed.
    Io(String),
    /// No syntax tree could be made for the file.
    ParseFailed(String),
    /// The git library reported an error.
    Git(String),
    /// A git command failed while an isolated workspace was prepared.
    GitCommandFailed { command: String, stderr: String },
    /// A path was not a safe path inside the repository.
    InvalidRepoRelativePath { path: String, reason: String },
}

/// What an error says.
pub open spec fn error_text(e: RepoError) -> Seq<char> {
    match e {
        RepoError::Io(m) => "IO error: "@ + m@,
        RepoError::ParseFailed(p) => "tree-sitter parse failed for "@ + p@,
        RepoError::Git(m) => "git error: "@ + m@,
        RepoError::GitCommandFailed { command, stderr } => "git command failed (`"@ + command@
            + "`): "@ + stderr@,
        RepoError::InvalidRepoRelativePath { path, reason } => "invalid repo-relative path `"@
            + path@ + "`: "@ + reason@,
    }
}

impl RepoError {
    /// What the error says.
    pub fn to_string(&self) -> (r: String)
        ensures
            r@ == error_text(*self),
    {
        match self {
            RepoError::Io(m) => concat2("IO error: ", m.as_str()),
            RepoError::ParseFailed(p) => concat2("tree-sitter parse failed for ", p.as_str()),
            RepoError::Git(m) => concat2("git error: ", m.as_str()),
            RepoError::GitCommandFailed { command, stderr } => {
                let mut r = concat3("git command failed (`", command.as_str(), "`): ");
                r.append(stderr.as_str());
                r
            },
            RepoError::InvalidRepoRelativePath { path, reason } => {
                let mut r = concat3("invalid repo-relative path `", path.as_str(), "`: ");
                r.append(reason.as_str());
                r
            },
        }
    }
}

} // verus!
