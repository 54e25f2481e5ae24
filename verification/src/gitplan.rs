//! Planning of git invocations: the exact argument lists handed to the
//! external git binary, and the decision whether a commit is needed.
//!
//! The binary is run outside the library; what is verified here is which
//! arguments each step passes and when the push sequence commits.

use vstd::prelude::*;

verus! {

/// Whether a character is blank space, as git's porcelain output uses it.
pub open spec fn is_space_char(c: char) -> bool {
    c == ' ' || c == '\t' || c == '\n' || c == '\r'
}

/// Whether a status output holds nothing but blank space: then there is
/// nothing to commit.
pub open spec fn is_blank(s: Seq<char>) -> bool {
    forall|i: int| 0 <= i < s.len() ==> is_space_char(#[trigger] s[i])
}

/// Whether the working tree has changes to commit, judged from the
/// output of `status --porcelain`.
pub fn has_changes(status: &str) -> (r: bool)
    ensures
        r == !is_blank(status@),
{
    let n = status.unicode_len();
    let mut i: usize = 0;
    while i < n
        invariant
            0 <= i <= n,
            n == status@.len(),
            forall|j: int| 0 <= j < i ==> is_space_char(#[trigger] status@[j]),
        decreases n - i,
    {
        let c = status.get_char(i);
        if !(c == ' ' || c == '\t' || c == '\n' || c == '\r') {
            return true;
        }
        i = i + 1;
    }
    false
}

/// The commit message to use: the given one, or the standing default.
pub fn commit_message(message: Option<String>) -> (r: String)
    ensures
        match message {
            Some(m) => r@ == m@,
            None => r@ == "Automated backup commit"@,
        },
{
    match message {
        Some(m) => m,
        None => String::from_str("Automated backup commit"),
    }
}

/// The arguments that stage all changes.
pub fn git_add_args() -> (r: Vec<String>)
    ensures
        r.deep_view() == seq!["add"@, "."@],
{
    let mut v: Vec<String> = Vec::new();
    v.push(String::from_str("add"));
    v.push(String::from_str("."));
    proof {
        assert(v.deep_view() =~~= seq!["add"@, "."@]);
    }
    v
}

/// The arguments that report the working tree's status tersely.
pub fn git_status_args() -> (r: Vec<String>)
    ensures
        r.deep_view() == seq!["status"@, "--porcelain"@],
{
    let mut v: Vec<String> = Vec::new();
    v.push(String::from_str("status"));
    v.push(String::from_str("--porcelain"));
    proof {
        assert(v.deep_view() =~~= seq!["status"@, "--porcelain"@]);
    }
    v
}

/// The arguments that commit staged changes with the given message.
pub fn git_commit_args(message: &String) -> (r: Vec<String>)
    ensures
        r.deep_view() == seq!["commit"@, "-m"@, message@],
{
    let mut v: Vec<String> = Vec::new();
    v.push(String::from_str("commit"));
    v.push(String::from_str("-m"));
    v.push(message.clone());
    proof {
        assert(v.deep_view() =~~= seq!["commit"@, "-m"@, message@]);
    }
    v
}

/// The arguments that push the branch to the remote named `origin`.
pub fn git_push_args(branch: &String) -> (r: Vec<String>)
    ensures
        r.deep_view() == seq!["push"@, "origin"@, branch@],
{
    let mut v: Vec<String> = Vec::new();
    v.push(String::from_str("push"));
    v.push(String::from_str("origin"));
    v.push(branch.clone());
    proof {
        assert(v.deep_view() =~~= seq!["push"@, "origin"@, branch@]);
    }
    v
}

/// The arguments that pull the branch from the remote named `origin`.
pub fn git_pull_args(branch: &String) -> (r: Vec<String>)
    ensures
        r.deep_view() == seq!["pull"@, "origin"@, branch@],
{
    let mut v: Vec<String> = Vec::new();
    v.push(String::from_str("pull"));
    v.push(String::from_str("origin"));
    v.push(branch.clone());
    proof {
        assert(v.deep_view() =~~= seq!["pull"@, "origin"@, branch@]);
    }
    v
}

/// The arguments that fetch a branch or commit from `origin`.
pub fn git_fetch_args(target: &String) -> (r: Vec<String>)
    ensures
        r.deep_view() == seq!["fetch"@, "origin"@, target@],
{
    let mut v: Vec<String> = Vec::new();
    v.push(String::from_str("fetch"));
    v.push(String::from_str("origin"));
    v.push(target.clone());
    proof {
        assert(v.deep_view() =~~= seq!["fetch"@, "origin"@, target@]);
    }
    v
}

/// The arguments that check a branch or commit out.
pub fn git_checkout_args(target: &String) -> (r: Vec<String>)
    ensures
        r.deep_view() == seq!["checkout"@, target@],
{
    let mut v: Vec<String> = Vec::new();
    v.push(String::from_str("checkout"));
    v.push(target.clone());
    proof {
        assert(v.deep_view() =~~= seq!["checkout"@, target@]);
    }
    v
}

/// The arguments that hard-reset the working tree to the branch's state
/// at `origin`.
pub fn git_reset_hard_args(branch: &String) -> (r: Vec<String>)
    ensures
        r.deep_view() == seq!["reset"@, "--hard"@, "origin/"@ + branch@],
{
    let mut v: Vec<String> = Vec::new();
    v.push(String::from_str("reset"));
    v.push(String::from_str("--hard"));
    v.push(String::from_str("origin/").concat(branch.as_str()));
    proof {
        assert(v.deep_view() =~~= seq!["reset"@, "--hard"@, "origin/"@ + branch@]);
    }
    v
}

/// The arguments that initialize a repository.
pub fn git_init_args() -> (r: Vec<String>)
    ensures
        r.deep_view() == seq!["init"@],
{
    let mut v: Vec<String> = Vec::new();
    v.push(String::from_str("init"));
    proof {
        assert(v.deep_view() =~~= seq!["init"@]);
    }
    v
}

/// The arguments that list the commit history one line per commit.
pub fn git_log_args() -> (r: Vec<String>)
    ensures
        r.deep_view() == seq!["log"@, "--oneline"@],
{
    let mut v: Vec<String> = Vec::new();
    v.push(String::from_str("log"));
    v.push(String::from_str("--oneline"));
    proof {
        assert(v.deep_view() =~~= seq!["log"@, "--oneline"@]);
    }
    v
}

/// The commit and push steps of the push sequence.
pub struct PushPlan {
    pub commit_args: Vec<String>,
    pub push_args: Vec<String>,
}

/// After staging, the status output decides the rest of the push
/// sequence: a blank status means nothing to commit and the sequence
/// no-ops benignly; otherwise a commit with the given or default message
/// and a push to `origin/<branch>` follow.
pub fn plan_push_after_status(status: &str, message: Option<String>, branch: &String) -> (r:
    Option<PushPlan>)
    ensures
        r is Some <==> !is_blank(status@),
        r matches Some(p) ==> p.commit_args.deep_view() == seq![
            "commit"@,
            "-m"@,
            match message {
                Some(m) => m@,
                None => "Automated backup commit"@,
            },
        ] && p.push_args.deep_view() == seq!["push"@, "origin"@, branch@],
{
    if has_changes(status) {
        let msg = commit_message(message);
        Some(PushPlan { commit_args: git_commit_args(&msg), push_args: git_push_args(branch) })
    } else {
        None
    }
}

/// The git invocations that fetch and check out a backup: a specific
/// commit when one is named, else the branch, hard-reset to its state at
/// `origin`.
pub fn plan_fetch(branch: &String, commit_hash: Option<&String>) -> (r: Vec<Vec<String>>)
    ensures
        match commit_hash {
            Some(hash) => r.deep_view() == seq![
                seq!["fetch"@, "origin"@, hash@],
                seq!["checkout"@, hash@],
            ],
            None => r.deep_view() == seq![
                seq!["fetch"@, "origin"@, branch@],
                seq!["checkout"@, branch@],
                seq!["reset"@, "--hard"@, "origin/"@ + branch@],
            ],
        },
{
    let mut steps: Vec<Vec<String>> = Vec::new();
    match commit_hash {
        Some(hash) => {
            steps.push(git_fetch_args(hash));
            steps.push(git_checkout_args(hash));
            proof {
                assert(steps.deep_view() =~~= seq![
                    seq!["fetch"@, "origin"@, hash@],
                    seq!["checkout"@, hash@],
                ]);
            }
        },
        None => {
            steps.push(git_fetch_args(branch));
            steps.push(git_checkout_args(branch));
            steps.push(git_reset_hard_args(branch));
            proof {
                assert(steps.deep_view() =~~= seq![
                    seq!["fetch"@, "origin"@, branch@],
                    seq!["checkout"@, branch@],
                    seq!["reset"@, "--hard"@, "origin/"@ + branch@],
                ]);
            }
        },
    }
    steps
}

} // verus!
