//! The tools that a repair may use inside the repository.
use vstd::prelude::*;

verus! {

/// A tool with what it does.
#[derive(Debug, Clone, Copy, PartialEq, Eq)]
pub struct RepoNativeTool {
    pub name: &'static str,
    pub description: &'static str,
}

/// The name and description of each tool.
pub open spec fn tool_surface() -> Seq<(Seq<char>, Seq<char>)> {
    seq![
        ("read_file"@, "Read a repository file for targeted diagnosis."@),
        ("search_symbol"@, "Search for symbol definitions/usages in repository code."@),
        ("run_tests"@, "Execute verifier commands and collect structured output."@),
        ("apply_patch_temp"@, "Apply candidate patch in isolated sandbox/worktree."@),
        ("git_diff"@, "Emit working diff for candidate review and artifacts."@),
        ("rollback_candidate"@, "Discard candidate changes and restore clean candidate state."@),
    ]
}

/// What a list of tools stands for.
pub open spec fn tools_view(v: Seq<RepoNativeTool>) -> Seq<(Seq<char>, Seq<char>)> {
    Seq::new(v.len(), |i: int| (v[i].name@, v[i].description@))
}

/// The tools that a repair may use, in the order in which they are offered.
pub fn repo_native_tool_surface() -> (r: Vec<RepoNativeTool>)
    ensures
        tools_view(r@) == tool_surface(),
{
    let r = vec![
        RepoNativeTool { name: "read_file", description: "Read a repository file for targeted diagnosis." },
        RepoNativeTool { name: "search_symbol", description: "Search for symbol definitions/usages in repository code." },
        RepoNativeTool { name: "run_tests", description: "Execute verifier commands and collect structured output." },
        RepoNativeTool { name: "apply_patch_temp", description: "Apply candidate patch in isolated sandbox/worktree." },
        RepoNativeTool { name: "git_diff", description: "Emit working diff for candidate review and artifacts." },
        RepoNativeTool { name: "rollback_candidate", description: "Discard candidate changes and restore clean candidate state." },
    ];
    proof {
        assert(tools_view(r@) =~= tool_surface());
    }
    r
}

} // verus!
