//! A run, from the task it was given to what it leaves behind: which workflow it executes, whether
//! the fork runs at all, and what is recorded of the graph it executed.

use vstd::prelude::*;
use vstd::string::StringExecFns;

use crate::analyst::AnalystOutput;
use crate::bookkeeper::BookkeeperOutput;
use crate::config::RatatoskrConfig;
use crate::context::Constraint;
use crate::error::NodeError;
use crate::error::PlanError;
use crate::implementer::ImplementerOutput;
use crate::issue;
use crate::issue::Fetched;
use crate::memory::MemoryOutput;
use crate::overseer::OverseerInput;
use crate::redteam::RedTeamOutput;
use crate::scout::ScoutOutput;
use crate::text;
use crate::workflow;
use crate::workflow::Chosen;
use crate::workflow::Workflow;

verus! {

broadcast use vstd::string::group_string_axioms;

/// Everything a completed plan run produced.
#[derive(Debug)]
pub struct PlanOutcome {
    /// How it ended, as the persisted status token.
    pub status: String,
    pub scout: ScoutOutput,
    pub memory: MemoryOutput,
    pub analyst: AnalystOutput,
    /// What the context node distilled. Carried so a later analyst revision keeps it.
    pub brief: String,
    pub constraints: Vec<Constraint>,
}

/// Everything a full run produced. The worktree is the reviewable deliverable and is left in place on
/// a terminal status.
#[derive(Debug)]
pub struct RunOutcome {
    pub plan: PlanOutcome,
    /// The fork's three products, `None` when the fork never ran because the analyst judged the task
    /// to call for no code change.
    pub red_team: Option<RedTeamOutput>,
    pub implementer: Option<ImplementerOutput>,
    pub worktree: Option<String>,
    pub iterations: u32,
    /// How it ended, as the persisted status token.
    pub status: String,
    /// What the bookkeeper did, on a terminal fork outcome.
    pub bookkeeper: Option<BookkeeperOutput>,
}

/// Whether to run the fork at all.
///
/// The analyst owns this call: it is the node that knows whether carrying the plan out means editing
/// code. `always_fork` is the override for a human who disagrees, and it only ever adds work: nothing
/// can configure the fork *away* when the analyst says a change is needed.
pub fn fork_is_needed(analyst: &AnalystOutput, config: &RatatoskrConfig) -> (r: bool)
    ensures
        r == (analyst.changes_code || config.implementer.always_fork),
{
    analyst.changes_code || config.implementer.always_fork
}

/// What a run executes: the task as every node is given it, and the workflow.
#[derive(Debug)]
pub struct Launch {
    pub issue: String,
    pub workflow: Workflow,
    /// What the operator is warned of, where the workflow is the repository's own and the run can
    /// change code.
    pub warning: Option<&'static str>,
}

/// What is ready to run, or what has to be asked first.
#[derive(Debug)]
pub enum Prepared {
    Ready(Launch),
    /// The overseer is asked which of these workflows fits; what it answers is put to
    /// [`workflow::overseer_decides`], and the workflow it stands for to [`launch`].
    Ask { issue: String, question: OverseerInput, found: Vec<Workflow> },
}

/// A run that executes a workflow on a task.
pub open spec fn launches(launch: Launch, full: bool, issue: Seq<char>, workflow: Workflow) -> bool {
    &&& launch.issue@ == issue
    &&& launch.workflow == workflow
    &&& match launch.warning {
        Some(warning) => full && workflow is Scripted && warning@
            == workflow::SCRIPTED_REVIEW_WARNING@,
        None => !full || workflow is BuiltIn,
    }
}

/// The run of a workflow that was chosen. A repository's own workflow controls whether the review
/// runs, and a full run of one says so.
pub fn launch(full: bool, issue: String, workflow: Workflow) -> (r: Launch)
    ensures
        launches(r, full, issue@, workflow),
{
    let warning = match &workflow {
        Workflow::Scripted(_) => if full {
            Some(workflow::SCRIPTED_REVIEW_WARNING)
        } else {
            None
        },
        Workflow::BuiltIn => None,
    };
    Launch { issue, workflow, warning }
}

/// The task as every node of a run is given it.
pub open spec fn task(issue: Seq<char>, number: Option<&str>, fetched: Option<Fetched>) -> Seq<char> {
    match (number, fetched) {
        (Some(number), Some(held)) if issue::adds(issue, held) => issue::filled(issue, number@, held),
        _ => issue,
    }
}

/// Prepares a run whose registry was accepted: fills its task in, before anything is recorded of it,
/// and picks its workflow for that task.
pub fn prepare(
    full: bool,
    issue: &str,
    number: Option<&str>,
    fetched: Option<Fetched>,
    found: Vec<Workflow>,
    wanted: Option<&str>,
    overseer_configured: bool,
) -> (r: Result<Prepared, PlanError>)
    ensures
        if wanted is None && workflow::scripted(found@).len() > 1 && overseer_configured {
            r matches Ok(Prepared::Ask { issue: filled, question, found: kept }) && {
                &&& filled@ == task(issue@, number, fetched)
                &&& question.issue@ == task(issue@, number, fetched)
                &&& text::views(question.choices@) == workflow::choices(found@)
                &&& kept@ == found@
            }
        } else {
            exists|picked: Result<Workflow, PlanError>| #[trigger]
                workflow::selected(found@, wanted, picked) && match picked {
                    Ok(workflow) => r matches Ok(Prepared::Ready(launch)) && launches(
                        launch,
                        full,
                        task(issue@, number, fetched),
                        workflow,
                    ),
                    Err(error) => r matches Err(why) && why == error,
                }
        },
{
    let filled = issue::enriched(issue, number, fetched);
    match workflow::choose_workflow(found, wanted, overseer_configured, filled.as_str()) {
        Chosen::Ask { question, found } => Ok(Prepared::Ask { issue: filled, question, found }),
        Chosen::Settled(picked) => {
            assert(workflow::selected(found@, wanted, picked));
            match picked {
                Ok(workflow) => Ok(Prepared::Ready(launch(full, filled, workflow))),
                Err(error) => Err(error),
            }
        },
    }
}

/// What is recorded of a run so that it can be told whether two were the same experiment.
#[derive(Clone, Debug)]
pub struct Provenance {
    pub config_json: Option<String>,
    pub graph_fingerprint: Option<String>,
    pub repo_sha: Option<String>,
    pub shape_json: Option<String>,
}

/// The first half of a run's provenance: the graph it executes, which carries the stage registry.
pub fn shape_provenance(shape_json: String) -> (r: Provenance)
    ensures
        r.config_json is None,
        r.graph_fingerprint is None,
        r.repo_sha is None,
        r.shape_json == Some(shape_json),
{
    Provenance {
        config_json: None,
        graph_fingerprint: None,
        repo_sha: None,
        shape_json: Some(shape_json),
    }
}

/// Takes what recording the graph came to. A run whose registry does not land does not start: every
/// control is addressed to the box a stage belongs to, and a run without that mapping cannot be
/// stopped or steered.
pub fn registry_recorded(written: Result<(), String>) -> (r: Result<(), PlanError>)
    ensures
        match written {
            Ok(_) => r is Ok,
            Err(error) => r matches Err(PlanError::Node { node, source: NodeError::Failed(why) })
                && node@ == "workflow"@ && why@
                == "the run's stage registry did not record: "@ + error@,
        },
{
    match written {
        Ok(_) => Ok(()),
        Err(error) => {
            let mut m = "the run's stage registry did not record: ".to_owned();
            m.append(error.as_str());
            Err(PlanError::Node { node: "workflow", source: NodeError::Failed(m) })
        },
    }
}

/// The rest of a run's provenance. Best-effort: what could not be had is left out, and never worth
/// failing a run over.
pub fn run_provenance(
    config_json: Option<String>,
    graph_fingerprint: String,
    repo_sha: Option<String>,
) -> (r: Provenance)
    ensures
        r.config_json == config_json,
        r.graph_fingerprint == Some(graph_fingerprint),
        r.repo_sha == repo_sha,
        r.shape_json is None,
{
    Provenance {
        config_json,
        graph_fingerprint: Some(graph_fingerprint),
        repo_sha,
        shape_json: None,
    }
}

/// A run executes the workflow that was chosen on the task it was given, and warns exactly where it is
/// full and the workflow is the repository's own.
pub proof fn a_full_run_of_an_own_workflow_warns(
    launch: Launch,
    full: bool,
    issue: Seq<char>,
    workflow: Workflow,
)
    requires
        launches(launch, full, issue, workflow),
    ensures
        launch.issue@ == issue,
        launch.workflow == workflow,
        launch.warning is Some <==> full && workflow is Scripted,
{
}

/// A task is filled in exactly where it names an issue, the tracker gave that issue, and the issue adds
/// something; and otherwise stays as it is.
pub proof fn a_task_is_filled_in_where_that_adds_something(
    issue: Seq<char>,
    number: Option<&str>,
    fetched: Option<Fetched>,
)
    ensures
        number is Some && fetched is Some && issue::adds(issue, fetched->0) ==> task(
            issue,
            number,
            fetched,
        ) == issue::filled(issue, number->0@, fetched->0),
        !(number is Some && fetched is Some && issue::adds(issue, fetched->0)) ==> task(
            issue,
            number,
            fetched,
        ) == issue,
{
}

} // verus!
