//! Publisher: deliver what a run made to where a person will find it.
//!
//! Off unless configured. This is the only node that acts outside this machine, and a run that opens
//! a pull request nobody expected is worse than one that publishes nothing.

use vstd::prelude::*;
use vstd::string::StringExecFns;

use crate::analyst::AnalystOutput;
use crate::config::Capability;
use crate::config::RatatoskrConfig;
use crate::error::NodeError;
use crate::error::PlanError;
use crate::implementer::ImplementerOutput;
use crate::review::Finding;
use crate::text;

verus! {

broadcast use vstd::string::group_string_axioms;

/// What the publisher did.
#[derive(Clone, Copy, Debug, PartialEq, Eq, Structural)]
pub enum PublisherAction {
    PullRequest,
    Comment,
    Both,
    Nothing,
}

/// What the publisher did, and where it can be seen.
#[derive(Clone, Debug)]
pub struct PublisherOutput {
    /// A closed classification, which says which of the two URLs are present.
    pub action: PublisherAction,
    /// The one pull request URL, empty where none was opened.
    pub pull_request_url: String,
    /// The one issue-comment URL, empty where none was posted.
    pub comment_url: String,
    /// Why this was the right form — and, when nothing was published, the whole result.
    pub reasoning: String,
}

/// What the publisher is given: the run, and what it produced.
#[derive(Clone, Debug)]
pub struct PublisherInput {
    pub issue: String,
    pub analyst: AnalystOutput,
    /// `None` for a run that changed no code — the case where a comment is the only sensible form.
    pub implementer: Option<ImplementerOutput>,
    /// The run's terminal status, so the write does not overclaim what the acceptance run showed.
    pub status: String,
    pub iterations: u32,
    /// What the last review still objected to, if there was a review.
    pub unresolved: Vec<Finding>,
    /// What the last review could not reach, if it could not finish.
    pub unchecked: Vec<String>,
}

/// Whether a run publishes: it came to an end worth delivering, and the repository turned it on.
pub fn publishes(config: &RatatoskrConfig, terminal: bool) -> (r: bool)
    ensures
        r == (terminal && config.publish.enabled),
{
    terminal && config.publish.enabled
}

/// What a publish may push: one branch, and the issue it is for. What the tool takes is a name's
/// parts, never a ref.
#[derive(Clone, Debug)]
pub struct PushAccess {
    pub repo_root: String,
    pub branch: String,
    /// From the run, not from the publisher: it is not the naming step's to choose.
    pub issue: Option<String>,
}

/// What a publisher's turn may use.
#[derive(Clone, Debug)]
pub struct PublishResources {
    pub resource_root: String,
    pub capability_ceiling: Capability,
    pub rag_rat_worktree: Option<String>,
    pub push: Option<PushAccess>,
}

/// Whether the resources are those a run's publisher gets. It sees the committed run worktree, and
/// the repository only where there is none; push is offered only for the run's own branch, and only
/// where that can be pushed.
pub open spec fn publish_access(
    resources: PublishResources,
    input: PublisherInput,
    repository_root: Seq<char>,
    worktree: Option<Seq<char>>,
    pushable: bool,
) -> bool {
    let root = match worktree {
        Some(path) => path,
        None => repository_root,
    };
    &&& resources.resource_root@ == root
    &&& resources.capability_ceiling == Capability::Publish
    &&& text::opt(resources.rag_rat_worktree) == worktree
    &&& match input.implementer {
        Some(implementer) if pushable => {
            &&& resources.push matches Some(push)
            &&& push.repo_root@ == root
            &&& push.branch == implementer.branch
            &&& push.issue matches Some(issue) && issue == input.issue
        },
        _ => resources.push is None,
    }
}

/// What a run's publisher may use. `pushable` says whether the run's branch is one that may be
/// pushed.
pub fn publish_resources(
    input: &PublisherInput,
    repository_root: &str,
    worktree: Option<&str>,
    pushable: bool,
) -> (r: PublishResources)
    ensures
        publish_access(
            r,
            *input,
            repository_root@,
            match worktree {
                Some(path) => Some(path@),
                None => None,
            },
            pushable,
        ),
{
    let root = match worktree {
        Some(path) => path.to_owned(),
        None => repository_root.to_owned(),
    };
    let push = match &input.implementer {
        Some(implementer) => if pushable {
            Some(
                PushAccess {
                    repo_root: root.clone(),
                    branch: implementer.branch.clone(),
                    issue: Some(input.issue.clone()),
                },
            )
        } else {
            None
        },
        None => None,
    };
    PublishResources {
        resource_root: root,
        capability_ceiling: Capability::Publish,
        rag_rat_worktree: match worktree {
            Some(path) => Some(path.to_owned()),
            None => None,
        },
        push,
    }
}

/// What a publisher's turn came to: what it did, as its answer was read, or why there is nothing to
/// record. The outer failure is that of the turn, the inner that of reading its answer.
pub fn published(turn: Result<Result<PublisherOutput, String>, String>) -> (r: Result<
    PublisherOutput,
    PlanError,
>)
    ensures
        match turn {
            Ok(Ok(out)) => r matches Ok(done) && done == out,
            Ok(Err(error)) => r matches Err(PlanError::Node { node, source: NodeError::Failed(why) })
                && node@ == "publisher"@ && why@
                == "publisher output could not be reconstructed: "@ + error@,
            Err(error) => r matches Err(PlanError::Node { node, source: NodeError::Failed(why) })
                && node@ == "publisher"@ && why == error,
        },
{
    match turn {
        Ok(Ok(out)) => Ok(out),
        Ok(Err(error)) => {
            let mut m = "publisher output could not be reconstructed: ".to_owned();
            m.append(error.as_str());
            Err(PlanError::Node { node: "publisher", source: NodeError::Failed(m) })
        },
        Err(error) => Err(PlanError::Node { node: "publisher", source: NodeError::Failed(error) }),
    }
}

/// What publishing comes to for the run. Best-effort: the change is made and its tests are recorded,
/// and failing the run because a tracker was unreachable would discard completed work over a
/// delivery problem.
pub fn delivered(published: Result<PublisherOutput, PlanError>) -> (r: Option<PublisherOutput>)
    ensures
        r == match published {
            Ok(out) => Some(out),
            Err(_) => None,
        },
{
    match published {
        Ok(out) => Some(out),
        Err(_) => None,
    }
}

/// A run with no fork is given nothing to push, and one with a fork no other branch than its own.
pub proof fn only_the_runs_own_branch_is_pushed(
    resources: PublishResources,
    input: PublisherInput,
    repository_root: Seq<char>,
    worktree: Option<Seq<char>>,
    pushable: bool,
)
    requires
        publish_access(resources, input, repository_root, worktree, pushable),
    ensures
        resources.push matches Some(push) ==> {
            &&& pushable
            &&& input.implementer matches Some(implementer) && push.branch == implementer.branch
        },
{
}

/// What a publisher may use: the run's own tree where there is one and the repository otherwise, no more
/// than publishing, and a push exactly where there is a change whose branch may be pushed: of that
/// branch, from that tree, for the run's own issue.
pub proof fn a_publisher_gets_the_runs_own_tree_and_branch(
    resources: PublishResources,
    input: PublisherInput,
    repository_root: Seq<char>,
    worktree: Option<Seq<char>>,
    pushable: bool,
)
    requires
        publish_access(resources, input, repository_root, worktree, pushable),
    ensures
        worktree is Some ==> resources.resource_root@ == worktree->0 && resources.rag_rat_worktree is Some
            && resources.rag_rat_worktree->0@ == worktree->0,
        worktree is None ==> resources.resource_root@ == repository_root
            && resources.rag_rat_worktree is None,
        resources.capability_ceiling == Capability::Publish,
        resources.push is Some <==> input.implementer is Some && pushable,
        resources.push is Some ==> resources.push->0.branch@ == input.implementer->0.branch@
            && resources.push->0.repo_root@ == resources.resource_root@
            && resources.push->0.issue is Some && resources.push->0.issue->0@ == input.issue@,
{
}

} // verus!
