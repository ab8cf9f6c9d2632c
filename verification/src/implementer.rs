//! Implementer: make edits in an isolated worktree, then run the repo's acceptance checks in a
//! sandbox against that worktree. Converge iterates this node on the same worktree with a diagnostic
//! prompt when the change introduces new failures.

use vstd::prelude::*;
use vstd::string::StringExecFns;

use crate::analyst::AnalystOutput;
use crate::config::Capability;
use crate::error::NodeError;
use crate::testrun;
use crate::testrun::AcceptanceStep;
use crate::testrun::SandboxConfig;
use crate::testrun::SandboxSpec;
use crate::testrun::TestResults;
use crate::text;

verus! {

broadcast use vstd::string::group_string_axioms;

/// What an acceptance run reported.
#[derive(Clone, Debug)]
pub struct AcceptanceResult {
    pub failing_tests: Vec<String>,
    pub passed_tests: usize,
    pub exit_code: i32,
}

/// What an attempt at the change came to.
#[derive(Clone, Debug)]
pub struct ImplementerOutput {
    pub worktree_path: String,
    /// The branch this run authored, by name. The worktree path is not it: the path ends in the id,
    /// while the branch is `ratatoskr/<id>`.
    pub branch: String,
    pub diff_summary: String,
    pub touched_files: Vec<String>,
    /// Of those, the ones where a line that was already there was removed or replaced.
    pub rewritten_files: Vec<String>,
    /// What the acceptance run reported, or `None` when there was no run to report: the implementer
    /// wrote nothing, and an unchanged tree has an unchanged test result. A zeroed result would be
    /// indistinguishable from a clean one.
    pub acceptance: Option<AcceptanceResult>,
    /// The model's own account of what it did.
    pub narrative: Option<String>,
    /// How the change describes itself for the commit: type, scope, and a one-line subject.
    pub commit_kind: String,
    pub commit_scope: String,
    pub commit_subject: String,
}

/// What the model reports when it stops. Everything that decides the run is read from the worktree
/// afterwards, so this carries only what nothing else can see: what it believes it did.
#[derive(Clone, Debug)]
pub struct Report {
    pub summary: String,
    pub kind: String,
    pub scope: String,
    pub subject: String,
}

/// Deterministic input for one model attempt: the initial plan, or a correction of it.
#[derive(Clone, Debug)]
pub struct ImplementerAttemptInput {
    pub issue: String,
    pub analyst: AnalystOutput,
    pub acceptance: Vec<AcceptanceStep>,
    pub diagnostic: Option<String>,
}

/// What the model is told of where it is working, after its preamble.
pub const WHERE_YOU_ARE: &'static str =
    "\n\n# WHERE YOU ARE\n\nYour tools already start in this run's worktree, which is already checked out on your own branch. Use relative paths with Read, Edit, and Bash; relative paths resolve against the worktree. Reading or writing outside the worktree is refused. It is a full copy of the repository — the change you are asked for is made here, and nowhere else.";

/// Where the model is working, appended to its preamble: a re-driven attempt is a fresh conversation
/// that receives only a diagnostic, and would otherwise have to rediscover this every iteration. The
/// same whatever the sandbox is.
pub fn where_you_are() -> (r: String)
    ensures
        r@ == WHERE_YOU_ARE@,
{
    WHERE_YOU_ARE.to_owned()
}

/// The first characters of a run's id.
pub open spec fn shortened(run_id: Seq<char>) -> Seq<char> {
    if run_id.len() <= 8 {
        run_id
    } else {
        run_id.take(8)
    }
}

/// How much of the machine a run's shell commands get.
#[derive(Clone, Copy, Debug)]
pub struct ShellLimits {
    pub cpus: u32,
    pub memory_mib: u32,
}

/// What a stage's turn may use.
#[derive(Debug)]
pub struct StageResources {
    /// Where its file tools resolve paths.
    pub resource_root: String,
    /// The most it may do.
    pub capability_ceiling: Capability,
    /// The tree the index is asked about, when it is not the checkout.
    pub rag_rat_worktree: Option<String>,
    /// Where its commands run, when it may run any.
    pub shell: Option<SandboxSpec>,
    /// What it is told after its preamble.
    pub guidance: Option<String>,
}

/// The implementer: everything needed to name its worktree and to run an attempt in it. What the
/// model turn runs on is deliberately absent: a workflow may override that stage, so a copy resolved
/// here could only be the wrong answer held next to the right one.
#[derive(Debug)]
pub struct ImplementerNode {
    pub sandbox: SandboxConfig,
    pub limits: ShellLimits,
    pub run_id: String,
    pub issue: String,
    pub analyst: AnalystOutput,
    /// What "done" means for the task. Frozen at plan time: a change must not be able to move the
    /// bar it is judged against, so a revision of the plan amends requirements and never this.
    pub acceptance: Vec<AcceptanceStep>,
}

/// Whether an input is what a node's attempt is driven with.
pub open spec fn drives(
    input: ImplementerAttemptInput,
    node: ImplementerNode,
    diagnostic: Option<Seq<char>>,
) -> bool {
    &&& input.issue == node.issue
    &&& crate::analyst::same_plan(input.analyst, node.analyst)
    &&& testrun::same_steps(input.acceptance@, node.acceptance@)
    &&& text::opt(input.diagnostic) == diagnostic
}

/// Whether a sandbox is the one a node's shell commands run in: the backend, the image and the
/// mounts its acceptance checks get, at the node's own limits, offline, with no command filled in.
pub open spec fn shells(spec: SandboxSpec, node: ImplementerNode, worktree: Seq<char>) -> bool {
    &&& spec.backend == node.sandbox.backend
    &&& spec.name@ == "ratatoskr-impl-"@ + shortened(node.run_id@)
    &&& spec.image == node.sandbox.image
    &&& spec.workdir@ == testrun::GUEST_WORKSPACE@
    &&& text::views(spec.mounts@) == testrun::mounted(node.sandbox.caches@, worktree)
    &&& spec.command@.len() == 0
    &&& spec.cpus == node.limits.cpus
    &&& spec.memory_mib == node.limits.memory_mib
    &&& !spec.network
}

impl ImplementerNode {
    /// The first eight characters of the run's id.
    pub fn short_id(&self) -> (r: String)
        ensures
            r@ == shortened(self.run_id@),
    {
        let chars = text::chars_of(self.run_id.as_str());
        let n: usize = if chars.len() <= 8 {
            chars.len()
        } else {
            8
        };
        let r = text::string_of(vstd::slice::slice_subrange(chars.as_slice(), 0, n));
        assert(r@ =~= shortened(self.run_id@));
        r
    }

    /// The branch this run works on. One definition, because the name is used to create the
    /// worktree, to push, and to open a pull request.
    pub fn branch(&self) -> (r: String)
        ensures
            r@ == "ratatoskr/"@ + shortened(self.run_id@),
    {
        let mut name = "ratatoskr/".to_owned();
        name.append(self.short_id().as_str());
        name
    }

    /// The name of the sandboxes this run's implementer uses.
    pub fn sandbox_name(&self) -> (r: String)
        ensures
            r@ == "ratatoskr-impl-"@ + shortened(self.run_id@),
    {
        let mut name = "ratatoskr-impl-".to_owned();
        name.append(self.short_id().as_str());
        name
    }

    /// The sandbox an attempt's shell commands run in: the same mounts its acceptance checks get, so
    /// a command that passes for the model passes for the run. Always offline; the command is filled
    /// in per call.
    pub fn shell_access(&self, worktree: &str) -> (r: SandboxSpec)
        ensures
            shells(r, *self, worktree@),
    {
        SandboxSpec {
            backend: self.sandbox.backend.clone(),
            name: self.sandbox_name(),
            image: self.sandbox.image.clone(),
            workdir: testrun::GUEST_WORKSPACE.to_owned(),
            mounts: testrun::mounts_for(&self.sandbox, worktree),
            command: Vec::new(),
            cpus: self.limits.cpus,
            memory_mib: self.limits.memory_mib,
            network: false,
        }
    }

    /// What an attempt's turn may use: it writes within the worktree and nowhere else, and its
    /// commands run in the sandbox its checks run in.
    pub fn attempt_resources(&self, worktree: &str) -> (r: StageResources)
        ensures
            r.resource_root@ == worktree@,
            r.capability_ceiling == Capability::Write,
            r.rag_rat_worktree matches Some(tree) && tree@ == worktree@,
            r.shell matches Some(spec) && shells(spec, *self, worktree@),
            r.guidance matches Some(said) && said@ == WHERE_YOU_ARE@,
    {
        StageResources {
            resource_root: worktree.to_owned(),
            capability_ceiling: Capability::Write,
            rag_rat_worktree: Some(worktree.to_owned()),
            shell: Some(self.shell_access(worktree)),
            guidance: Some(where_you_are()),
        }
    }

    /// What stays the same over an attempt in a worktree: the diff it was handed over with, where it
    /// is, and the branch this run works on.
    pub fn facts(&self, handed: Option<String>, worktree: &str) -> (r: AttemptFacts)
        ensures
            r.handed == handed,
            r.worktree_path@ == worktree@,
            r.branch@ == "ratatoskr/"@ + shortened(self.run_id@),
    {
        AttemptFacts { handed, worktree_path: worktree.to_owned(), branch: self.branch() }
    }

    /// What the first attempt is driven with: the plan, and no diagnostic.
    pub fn initial_input(&self) -> (r: ImplementerAttemptInput)
        ensures
            drives(r, *self, None),
    {
        ImplementerAttemptInput {
            issue: self.issue.clone(),
            analyst: self.analyst.copy(),
            acceptance: testrun::copy_steps(self.acceptance.as_slice()),
            diagnostic: None,
        }
    }

    /// What a re-driven attempt on the same worktree is driven with: the same plan and the same bar,
    /// and what the last attempt broke.
    pub fn iterate_input(&self, diagnostic: &str) -> (r: ImplementerAttemptInput)
        ensures
            drives(r, *self, Some(diagnostic@)),
    {
        ImplementerAttemptInput {
            issue: self.issue.clone(),
            analyst: self.analyst.copy(),
            acceptance: testrun::copy_steps(self.acceptance.as_slice()),
            diagnostic: Some(diagnostic.to_owned()),
        }
    }
}

/// Whether the tree changed between two readings of its diff. A reading that could not be taken
/// counts as changed: a tool that cannot answer must not be able to skip the suite.
pub open spec fn changed(handed: Option<String>, now: Option<String>) -> bool {
    match (handed, now) {
        (Some(handed), Some(now)) => handed@ != now@,
        _ => true,
    }
}

/// Whether the implementer changed the tree it was handed. Compared against that tree, never against
/// an empty one: the red team's tests are already in it.
pub fn produced_change(handed: &Option<String>, now: &Option<String>) -> (r: bool)
    ensures
        r == changed(*handed, *now),
{
    match (handed, now) {
        (Some(handed), Some(now)) => !text::same(handed.as_str(), now.as_str()),
        _ => true,
    }
}

/// What stays the same over one attempt.
#[derive(Debug)]
pub struct AttemptFacts {
    /// The diff of the tree as it was handed over, where it could be read.
    pub handed: Option<String>,
    pub worktree_path: String,
    pub branch: String,
}

/// How far one attempt has come, and so what is to be done next.
#[derive(Debug)]
pub enum Attempt {
    /// Drive the model.
    Driving,
    /// Read the diff the tree has now.
    Comparing { report: Report },
    /// Run the acceptance checks.
    Accepting { report: Report },
    /// Read what the change touched.
    Describing { report: Report, acceptance: Option<AcceptanceResult> },
    /// Nothing more: this is what the attempt came to.
    Finished(Result<ImplementerOutput, NodeError>),
}

/// What came of the last thing that was done.
#[derive(Debug)]
pub enum AttemptEvent {
    /// The attempt's input could not be written down.
    InputFailed(String),
    /// The turn failed.
    TurnFailed(String),
    /// The turn ended, with a report or with something that is none.
    Reported(Result<Report, NodeError>),
    /// The diff the tree has now, where it could be read.
    Diff(Option<String>),
    /// What the acceptance checks came to, or why they could not be run.
    Checked(Result<TestResults, String>),
    /// What the change touched, as far as it could be read.
    Touched {
        diff_summary: Option<String>,
        touched_files: Option<Vec<String>>,
        rewritten_files: Option<Vec<String>>,
    },
}

/// Being the failure that says a thing.
pub open spec fn fails_saying(attempt: Attempt, why: Seq<char>) -> bool {
    attempt matches Attempt::Finished(Err(NodeError::Failed(said))) && said@ == why
}

/// A list that could not be read is taken as empty.
pub open spec fn or_empty(list: Option<Vec<String>>) -> Seq<String> {
    match list {
        Some(list) => list@,
        None => Seq::empty(),
    }
}

/// How one thing that happened moves an attempt on.
pub open spec fn moves(facts: AttemptFacts, from: Attempt, event: AttemptEvent, to: Attempt) -> bool {
    match (from, event) {
        (Attempt::Driving, AttemptEvent::InputFailed(error)) => fails_saying(
            to,
            "implementer input: "@ + error@,
        ),
        (Attempt::Driving, AttemptEvent::TurnFailed(error)) => fails_saying(
            to,
            "implementer agent failed: "@ + error@,
        ),
        (Attempt::Driving, AttemptEvent::Reported(Err(error))) => to == Attempt::Finished(
            Err(error),
        ),
        (Attempt::Driving, AttemptEvent::Reported(Ok(report))) => to == (Attempt::Comparing {
            report,
        }),
        (Attempt::Comparing { report }, AttemptEvent::Diff(now)) => if changed(facts.handed, now) {
            to == (Attempt::Accepting { report })
        } else {
            to == (Attempt::Describing { report, acceptance: None })
        },
        (Attempt::Accepting { report }, AttemptEvent::Checked(Err(error))) => to
            == Attempt::Finished(Err(NodeError::Failed(error))),
        (Attempt::Accepting { report }, AttemptEvent::Checked(Ok(results))) => to
            == (Attempt::Describing {
            report,
            acceptance: Some(
                AcceptanceResult {
                    failing_tests: results.failing,
                    passed_tests: results.passed,
                    exit_code: results.exit_code,
                },
            ),
        }),
        (
            Attempt::Describing { report, acceptance },
            AttemptEvent::Touched { diff_summary, touched_files, rewritten_files },
        ) => to matches Attempt::Finished(Ok(out)) && {
            &&& out.worktree_path == facts.worktree_path
            &&& out.branch == facts.branch
            &&& out.diff_summary@ == (match diff_summary {
                Some(summary) => summary@,
                None => Seq::empty(),
            })
            &&& out.touched_files@ == or_empty(touched_files)
            &&& out.rewritten_files@ == or_empty(rewritten_files)
            &&& out.acceptance == acceptance
            &&& out.narrative == Some(report.summary)
            &&& out.commit_kind == report.kind
            &&& out.commit_scope == report.scope
            &&& out.commit_subject == report.subject
        },
        _ => to == from,
    }
}

fn failed(prefix: &str, error: &str) -> (r: Attempt)
    ensures
        fails_saying(r, prefix@ + error@),
{
    let mut m = prefix.to_owned();
    m.append(error);
    Attempt::Finished(Err(NodeError::Failed(m)))
}

impl Attempt {
    /// Moves an attempt on: drive the model, then run the worktree's acceptance checks and read its
    /// diff.
    ///
    /// An unchanged tree has an unchanged test result, so its checks are not run again: the result
    /// is absent, never zeroed. What the change touched is read as far as it can be, and never fails
    /// the attempt. Anything that is not an answer to what was to be done leaves the attempt where
    /// it is.
    pub fn next(self, facts: &AttemptFacts, event: AttemptEvent) -> (r: Attempt)
        ensures
            moves(*facts, self, event, r),
    {
        match (self, event) {
            (Attempt::Driving, AttemptEvent::InputFailed(error)) => failed(
                "implementer input: ",
                error.as_str(),
            ),
            (Attempt::Driving, AttemptEvent::TurnFailed(error)) => failed(
                "implementer agent failed: ",
                error.as_str(),
            ),
            (Attempt::Driving, AttemptEvent::Reported(Err(error))) => Attempt::Finished(Err(error)),
            (Attempt::Driving, AttemptEvent::Reported(Ok(report))) => Attempt::Comparing { report },
            (Attempt::Comparing { report }, AttemptEvent::Diff(now)) => {
                if produced_change(&facts.handed, &now) {
                    Attempt::Accepting { report }
                } else {
                    Attempt::Describing { report, acceptance: None }
                }
            },
            (Attempt::Accepting { report }, AttemptEvent::Checked(Err(error))) => Attempt::Finished(
                Err(NodeError::Failed(error)),
            ),
            (Attempt::Accepting { report }, AttemptEvent::Checked(Ok(results))) => {
                Attempt::Describing {
                    report,
                    acceptance: Some(
                        AcceptanceResult {
                            failing_tests: results.failing,
                            passed_tests: results.passed,
                            exit_code: results.exit_code,
                        },
                    ),
                }
            },
            (
                Attempt::Describing { report, acceptance },
                AttemptEvent::Touched { diff_summary, touched_files, rewritten_files },
            ) => {
                let touched = match touched_files {
                    Some(files) => files,
                    None => Vec::new(),
                };
                let rewritten = match rewritten_files {
                    Some(files) => files,
                    None => Vec::new(),
                };
                let summary = match diff_summary {
                    Some(summary) => summary,
                    None => String::new(),
                };
                assert(touched@ =~= or_empty(touched_files));
                assert(rewritten@ =~= or_empty(rewritten_files));
                Attempt::Finished(
                    Ok(
                        ImplementerOutput {
                            worktree_path: facts.worktree_path.clone(),
                            branch: facts.branch.clone(),
                            diff_summary: summary,
                            touched_files: touched,
                            rewritten_files: rewritten,
                            acceptance,
                            narrative: Some(report.summary),
                            commit_kind: report.kind,
                            commit_scope: report.scope,
                            commit_subject: report.subject,
                        },
                    ),
                )
            },
            (state, _) => state,
        }
    }
}

/// An attempt that is finished stays finished, whatever happens after.
pub proof fn a_finished_attempt_is_final(facts: AttemptFacts, from: Attempt, event: AttemptEvent, to: Attempt)
    requires
        moves(facts, from, event, to),
        from is Finished,
    ensures
        to == from,
{
}

/// The acceptance checks are skipped only for a tree both of whose readings were taken and are the
/// same, and a skipped run has no result rather than an empty one.
pub proof fn checks_are_skipped_only_for_an_unchanged_tree(
    facts: AttemptFacts,
    report: Report,
    now: Option<String>,
    to: Attempt,
)
    requires
        moves(facts, Attempt::Comparing { report }, AttemptEvent::Diff(now), to),
    ensures
        to is Accepting || (to matches Attempt::Describing { acceptance, .. } && acceptance is None
            && facts.handed is Some && now is Some && facts.handed->0@ == now->0@),
{
}

/// The tree counts as unchanged exactly where both readings of it were taken and say the same.
pub proof fn a_tree_is_unchanged_only_where_both_readings_agree(
    handed: Option<String>,
    now: Option<String>,
)
    ensures
        !changed(handed, now) <==> handed is Some && now is Some && handed->0@ == now->0@,
{
}

/// A run's short id is its first eight characters, or all of them where it has fewer.
pub proof fn a_short_id_is_eight_characters_at_most(run_id: Seq<char>)
    ensures
        shortened(run_id).is_prefix_of(run_id),
        run_id.len() >= 8 ==> shortened(run_id).len() == 8,
        run_id.len() < 8 ==> shortened(run_id) == run_id,
{
    assert(shortened(run_id) =~= run_id.subrange(0, shortened(run_id).len() as int));
}

/// An attempt is driven with the run's own issue, plan and bar, whole, and with the diagnostic it was
/// given.
pub proof fn an_attempt_is_driven_with_the_plan_and_the_bar(
    input: ImplementerAttemptInput,
    node: ImplementerNode,
    diagnostic: Option<Seq<char>>,
    i: int,
)
    requires
        drives(input, node, diagnostic),
    ensures
        input.issue@ == node.issue@,
        input.analyst.requirements@ == node.analyst.requirements@,
        input.analyst.impact_summary@ == node.analyst.impact_summary@,
        input.acceptance@.len() == node.acceptance@.len(),
        0 <= i < input.acceptance@.len() ==> input.acceptance@[i].name@ == node.acceptance@[i].name@
            && input.acceptance@[i].command@ == node.acceptance@[i].command@,
        input.diagnostic is Some <==> diagnostic is Some,
        diagnostic is Some ==> input.diagnostic->0@ == diagnostic->0,
{
    if 0 <= i < input.acceptance@.len() {
        assert(testrun::same_step(input.acceptance@[i], node.acceptance@[i]));
    }
}

/// The sandbox of an attempt's commands is the one its checks run in, at the node's own limits, and
/// never on the network.
pub proof fn commands_run_where_checks_run(
    spec: SandboxSpec,
    node: ImplementerNode,
    worktree: Seq<char>,
)
    requires
        shells(spec, node, worktree),
    ensures
        spec.backend@ == node.sandbox.backend@,
        spec.image@ == node.sandbox.image@,
        spec.workdir@ == "/workspace"@,
        text::views(spec.mounts@) == testrun::mounted(node.sandbox.caches@, worktree),
        spec.name@ == "ratatoskr-impl-"@ + shortened(node.run_id@),
        spec.command@.len() == 0,
        spec.cpus == node.limits.cpus && spec.memory_mib == node.limits.memory_mib,
        !spec.network,
{
}

/// How an attempt goes: the model first, then the comparison, then the checks exactly where the tree
/// changed, then the description; what could not be driven or checked ends it in failure and nothing
/// else does; and what it comes to says all that the attempt found, with no result where no check ran.
pub proof fn an_attempt_goes_step_by_step(
    facts: AttemptFacts,
    from: Attempt,
    event: AttemptEvent,
    to: Attempt,
)
    requires
        moves(facts, from, event, to),
    ensures
        from is Driving && event is Reported && event->Reported_0 is Ok ==> to is Comparing
            && to->Comparing_report == event->Reported_0->Ok_0,
        from is Driving && event is Reported && event->Reported_0 is Err ==> to is Finished
            && to->Finished_0 is Err && to->Finished_0->Err_0 == event->Reported_0->Err_0,
        from is Driving && (event is InputFailed || event is TurnFailed) ==> to is Finished
            && to->Finished_0 is Err,
        from is Comparing && event is Diff ==> (to is Accepting <==> !(facts.handed is Some
            && event->Diff_0 is Some && facts.handed->0@ == event->Diff_0->0@)),
        from is Comparing && event is Diff ==> to is Accepting || (to is Describing
            && to->Describing_acceptance is None),
        from is Comparing && event is Diff && to is Accepting ==> to->Accepting_report
            == from->Comparing_report,
        from is Comparing && event is Diff && to is Describing ==> to->Describing_report
            == from->Comparing_report,
        from is Accepting && event is Checked && event->Checked_0 is Err ==> to is Finished
            && to->Finished_0 is Err,
        from is Accepting && event is Checked && event->Checked_0 is Ok ==> {
            let results = event->Checked_0->Ok_0;
            &&& to is Describing && to->Describing_report == from->Accepting_report
            &&& to->Describing_acceptance is Some
            &&& to->Describing_acceptance->0.failing_tests@ == results.failing@
            &&& to->Describing_acceptance->0.passed_tests == results.passed
            &&& to->Describing_acceptance->0.exit_code == results.exit_code
        },
        from is Describing && event is Touched ==> to is Finished && to->Finished_0 is Ok && {
            let out = to->Finished_0->Ok_0;
            &&& out.worktree_path@ == facts.worktree_path@
            &&& out.branch@ == facts.branch@
            &&& out.acceptance == from->Describing_acceptance
            &&& out.narrative is Some && out.narrative->0@ == from->Describing_report.summary@
            &&& out.commit_kind@ == from->Describing_report.kind@
            &&& out.commit_scope@ == from->Describing_report.scope@
            &&& out.commit_subject@ == from->Describing_report.subject@
            &&& event->touched_files is Some ==> out.touched_files@ == event->touched_files->0@
            &&& event->touched_files is None ==> out.touched_files@.len() == 0
            &&& event->rewritten_files is Some ==> out.rewritten_files@
                == event->rewritten_files->0@
            &&& event->rewritten_files is None ==> out.rewritten_files@.len() == 0
            &&& event->diff_summary is Some ==> out.diff_summary@ == event->diff_summary->0@
            &&& event->diff_summary is None ==> out.diff_summary@.len() == 0
        },
        to is Finished && to->Finished_0 is Err ==> from == to || from is Driving || (from is Accepting
            && event is Checked && event->Checked_0 is Err),
        from is Driving && event is InputFailed ==> to->Finished_0->Err_0 is Failed
            && to->Finished_0->Err_0->Failed_0@ == "implementer input: "@ + event->InputFailed_0@,
        from is Driving && event is TurnFailed ==> to->Finished_0->Err_0 is Failed
            && to->Finished_0->Err_0->Failed_0@ == "implementer agent failed: "@
            + event->TurnFailed_0@,
        from is Accepting && event is Checked && event->Checked_0 is Err
            ==> to->Finished_0->Err_0 is Failed && to->Finished_0->Err_0->Failed_0@
            == event->Checked_0->Err_0@,
        from is Finished ==> to == from,
        from is Driving && (event is Diff || event is Checked || event is Touched) ==> to == from,
        from is Comparing && !(event is Diff) ==> to == from,
        from is Accepting && !(event is Checked) ==> to == from,
        from is Describing && !(event is Touched) ==> to == from,
{
}

} // verus!
