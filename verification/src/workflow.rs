//! The workflows a repository defines, and which of them a run uses.

use vstd::prelude::*;
use vstd::string::StringExecFns;

use crate::config::RatatoskrConfig;
use crate::error;
use crate::error::NodeError;
use crate::error::PlanError;
use crate::lists;
use crate::names;
use crate::overseer::Choice;
use crate::overseer::ChoiceView;
use crate::overseer::OverseerInput;
use crate::overseer::OverseerOutput;
use crate::policy;
use crate::policy::Reserved;
use crate::stage;
use crate::stage::Stage;
use crate::stage::StageView;
use crate::text;
use crate::validate;

verus! {

broadcast use vstd::string::group_string_axioms;

/// A stage as a workflow script declares it.
pub type WorkflowStage = Stage;

/// One column of a declared layout: the nodes drawn side by side in it.
#[derive(Clone, Debug)]
pub struct WorkflowLayoutColumn {
    pub nodes: Vec<String>,
    pub optional: bool,
}

/// What a workflow script says about itself.
#[derive(Clone, Debug)]
pub struct WorkflowMeta {
    pub name: String,
    pub purpose: String,
    /// The cases in which this workflow is the right one.
    pub when_to_use: Vec<String>,
    /// Node names this workflow governs beyond the standard set.
    pub nodes: Vec<String>,
    pub stages: Vec<WorkflowStage>,
    pub layout: Vec<WorkflowLayoutColumn>,
}

/// The operations a workflow script can call that the run itself carries out.
pub open spec fn operations() -> Seq<Seq<char>> {
    seq![
        "context"@,
        "redTeam"@,
        "implement"@,
        "iterate"@,
        "replanAtCeiling"@,
        "verify"@,
        "isConverged"@,
        "testCommandRan"@,
    ]
}

/// The operations a workflow script can call that the run itself carries out.
pub fn operation_hosts() -> (r: Vec<String>)
    ensures
        text::views(r@) == operations(),
{
    let r: Vec<String> = vec![
        "context".to_owned(),
        "redTeam".to_owned(),
        "implement".to_owned(),
        "iterate".to_owned(),
        "replanAtCeiling".to_owned(),
        "verify".to_owned(),
        "isConverged".to_owned(),
        "testCommandRan".to_owned(),
    ];
    assert(text::views(r@) =~= operations());
    r
}

/// Where a repo keeps the workflows it defines.
pub const WORKFLOW_DIR: &'static str = ".ratatoskr/workflows";

/// The single-file form: a repository with exactly one workflow keeps it here rather than in a
/// directory of one.
pub const SINGLE_FILE_WORKFLOW: &'static str = ".ratatoskr/workflow.ts";

/// The name of the bundled flow.
pub const BUILT_IN: &'static str = "built-in";

/// What a run of a repository's own workflow is told about review.
pub const SCRIPTED_REVIEW_WARNING: &'static str =
    "this workflow controls whether to run the verifier; if it omits verify(), the change will be accepted on its Rust-owned test and referee gates alone";

/// What the bundled flow is for.
pub const BUILT_IN_PURPOSE: &'static str =
    "Plan a change, implement it in an isolated worktree, and iterate until it passes the acceptance check and survives review.";

/// One workflow a run can use.
///
/// The built-in uses the bundled standard script for composition. The operations it calls still own
/// the referee, review routing, frozen acceptance, iteration limits, checkpoints, and terminal
/// effects, so repository-authored sequencing cannot weaken those gates.
#[derive(Debug)]
pub enum Workflow {
    /// context, analyst, red-team, implementer, verify/converge, terminal delivery.
    BuiltIn,
    Scripted(WorkflowMeta),
}

impl Workflow {
    /// What the workflow is called.
    pub open spec fn called(self) -> Seq<char> {
        match self {
            Workflow::BuiltIn => BUILT_IN@,
            Workflow::Scripted(meta) => meta.name@,
        }
    }

    /// What it is for.
    pub open spec fn intent(self) -> Seq<char> {
        match self {
            Workflow::BuiltIn => BUILT_IN_PURPOSE@,
            Workflow::Scripted(meta) => meta.purpose@,
        }
    }

    /// The cases in which it is the right one.
    pub open spec fn cases(self) -> Seq<String> {
        match self {
            Workflow::BuiltIn => Seq::empty(),
            Workflow::Scripted(meta) => meta.when_to_use@,
        }
    }

    /// What the workflow is called.
    pub fn name(&self) -> (r: &str)
        ensures
            r@ == self.called(),
    {
        match self {
            Workflow::BuiltIn => BUILT_IN,
            Workflow::Scripted(meta) => meta.name.as_str(),
        }
    }

    /// Node names this workflow governs beyond the standard set.
    ///
    /// A workflow that only re-sequences the existing nodes declares none. One that introduces a
    /// node has to say so, or its ruleset is rejected at load as targeting something that does not
    /// exist.
    pub fn nodes(&self) -> (r: Vec<String>)
        ensures
            r@ == (match *self {
                Workflow::BuiltIn => Seq::empty(),
                Workflow::Scripted(meta) => meta.nodes@,
            }),
    {
        match self {
            Workflow::BuiltIn => Vec::new(),
            Workflow::Scripted(meta) => text::copies(meta.nodes.as_slice()),
        }
    }

    /// The cases in which this workflow is the right one. Empty for the built-in: it is the
    /// fallback, so it is chosen by nothing else matching rather than by matching.
    pub fn when_to_use(&self) -> (r: Vec<String>)
        ensures
            r@ == self.cases(),
    {
        match self {
            Workflow::BuiltIn => Vec::new(),
            Workflow::Scripted(meta) => text::copies(meta.when_to_use.as_slice()),
        }
    }

    /// What it is for, for whatever is choosing.
    pub fn purpose(&self) -> (r: &str)
        ensures
            r@ == self.intent(),
    {
        match self {
            Workflow::BuiltIn => BUILT_IN_PURPOSE,
            Workflow::Scripted(meta) => meta.purpose.as_str(),
        }
    }
}

/// The identities a list of stages is governed under.
pub open spec fn governance_ids(stages: Seq<StageView>) -> Seq<Seq<char>> {
    Seq::new(stages.len(), |i: int| stages[i].governance())
}

fn governance_ids_of(stages: &[Stage]) -> (r: Vec<String>)
    ensures
        text::views(r@) == governance_ids(text::views(stages@)),
{
    let mut out: Vec<String> = Vec::new();
    let mut i: usize = 0;
    while i < stages.len()
        invariant
            i <= stages@.len(),
            out@.len() == i,
            forall|j: int| 0 <= j < i ==> (#[trigger] out@[j])@ == stages@[j]@.governance(),
        decreases stages@.len() - i,
    {
        out.push(stages[i].governance_id().to_owned());
        i += 1;
    }
    assert(text::views(out@) =~= governance_ids(text::views(stages@)));
    out
}

/// What one workflow adds to the names that may be governed: the nodes it declares, and the
/// identities its stages are governed under.
pub open spec fn declared_names(meta: WorkflowMeta) -> Seq<Seq<char>> {
    text::views(meta.nodes@) + governance_ids(text::views(meta.stages@))
}

/// What a list of workflows adds to the names that may be governed.
pub open spec fn all_declared_names(workflows: Seq<WorkflowMeta>) -> Seq<Seq<char>>
    decreases workflows.len(),
{
    if workflows.len() == 0 {
        Seq::empty()
    } else {
        all_declared_names(workflows.drop_last()) + declared_names(workflows.last())
    }
}

/// Every node some workflow may govern: the standard stages' identities and what each workflow
/// declares, in order, each once, without the internal gates.
pub open spec fn governable(standard: Seq<StageView>, workflows: Seq<WorkflowMeta>) -> Seq<
    Seq<char>,
> {
    names::sorted(
        validate::open_names(governance_ids(standard) + all_declared_names(workflows)),
    )
}

/// Every node any workflow may govern: the standard stages plus what each workflow declares.
///
/// Both halves are the identity each stage is *governed* under, as a ruleset is keyed by that. The
/// union across all workflows, not just the one a run selects, because rulesets are loaded before a
/// workflow is chosen. The internal referee is never governable, even when a workflow names it.
pub fn governable_from(standard: &[Stage], workflows: &[WorkflowMeta]) -> (r: Vec<String>)
    ensures
        text::views(r@) == governable(text::views(standard@), workflows@),
{
    let mut all = governance_ids_of(standard);
    let ghost base = text::views(all@);
    let mut i: usize = 0;
    assert(text::views(all@) =~= base + all_declared_names(workflows@.take(0)));
    while i < workflows.len()
        invariant
            i <= workflows@.len(),
            base == governance_ids(text::views(standard@)),
            text::views(all@) == base + all_declared_names(workflows@.take(i as int)),
        decreases workflows@.len() - i,
    {
        let ghost had = all@;
        let ghost so_far = all_declared_names(workflows@.take(i as int));
        let mut nodes = text::copies(workflows[i].nodes.as_slice());
        let mut governed = governance_ids_of(workflows[i].stages.as_slice());
        let ghost added = text::views(nodes@) + text::views(governed@);
        all.append(&mut nodes);
        all.append(&mut governed);
        i += 1;
        proof {
            assert(text::views(all@) =~= text::views(had) + added);
            assert(workflows@.take(i as int).drop_last() =~= workflows@.take(i - 1));
            assert(added =~= declared_names(workflows@[i - 1]));
            assert(base + so_far + added =~= base + (so_far + added));
        }
    }
    assert(workflows@.take(i as int) =~= workflows@);
    names::sort(validate::without_gates(all.as_slice()).as_slice())
}

/// The internal gate is never governable, whatever a workflow declares; and every other identity a
/// standard stage is governed under, or a workflow declares, is.
pub proof fn gates_are_never_governable(
    standard: Seq<StageView>,
    workflows: Seq<WorkflowMeta>,
    name: Seq<char>,
)
    ensures
        governable(standard, workflows).contains(name) <==> !validate::gate(name) && (
        governance_ids(standard) + all_declared_names(workflows)).contains(name),
{
    let all = governance_ids(standard) + all_declared_names(workflows);
    let allowed = |n: Seq<char>| !validate::gate(n);
    let kept = validate::open_names(all);
    assert(kept == all.filter(allowed));
    names::sorted_is_the_set_in_order(kept);
    assert(names::sorted(kept).contains(name) <==> kept.contains(name));
    all.filter_lemma(allowed);
    if kept.contains(name) {
        let k = choose|k: int| 0 <= k < kept.len() && kept[k] == name;
        assert(allowed(kept[k]));
        all.lemma_filter_contains_rev(allowed, name);
    }
    if all.contains(name) && allowed(name) {
        let k = choose|k: int| 0 <= k < all.len() && all[k] == name;
        assert(kept.contains(all[k]));
    }
}

/// Every workflow a run could use: the built-in, then whatever this repo defines.
pub fn registry(defined: Vec<WorkflowMeta>) -> (r: Vec<Workflow>)
    ensures
        r@ == seq![Workflow::BuiltIn] + Seq::new(
            defined@.len(),
            |i: int| Workflow::Scripted(defined@[i]),
        ),
{
    let mut all: Vec<Workflow> = Vec::new();
    all.push(Workflow::BuiltIn);
    let ghost wanted = Seq::new(defined@.len(), |i: int| Workflow::Scripted(defined@[i]));
    assert(all@ =~= seq![Workflow::BuiltIn] + wanted.take(0));
    for meta in it: defined
        invariant
            it.seq() == defined@,
            wanted == Seq::new(defined@.len(), |i: int| Workflow::Scripted(defined@[i])),
            all@ == seq![Workflow::BuiltIn] + wanted.take(it.index() as int),
    {
        let ghost n = it.index() as int;
        all.push(Workflow::Scripted(meta));
        assert(seq![Workflow::BuiltIn] + wanted.take(n + 1) =~= (seq![Workflow::BuiltIn]
            + wanted.take(n)).push(Workflow::Scripted(meta)));
    }
    assert(wanted.take(wanted.len() as int) =~= wanted);
    all
}

/// The names of a list of declared workflows.
pub open spec fn meta_names(workflows: Seq<WorkflowMeta>) -> Seq<Seq<char>> {
    Seq::new(workflows.len(), |i: int| workflows[i].name@)
}

fn any_named(workflows: &[WorkflowMeta], name: &str) -> (r: bool)
    ensures
        r == meta_names(workflows@).contains(name@),
{
    let mut i: usize = 0;
    while i < workflows.len()
        invariant
            i <= workflows@.len(),
            forall|j: int| 0 <= j < i ==> (#[trigger] workflows@[j]).name@ != name@,
        decreases workflows@.len() - i,
    {
        if text::same(workflows[i].name.as_str(), name) {
            assert(meta_names(workflows@)[i as int] == name@);
            return true;
        }
        i += 1;
    }
    assert(!meta_names(workflows@).contains(name@));
    false
}

/// The workflows of the directory, then the one of the single file where the directory has not
/// already claimed its name.
pub open spec fn with_single(found: Seq<WorkflowMeta>, single: Option<WorkflowMeta>) -> Seq<
    WorkflowMeta,
> {
    match single {
        Some(meta) if !meta_names(found).contains(meta.name@) => found.push(meta),
        _ => found,
    }
}

/// The workflows this repo defines: `found` in its workflow directory, and the `single` one of a
/// bare workflow file if there is one. Both, rather than one superseding the other.
///
/// The bundled workflow is always in the registry, so a repository workflow answering to its name is
/// refused: two rows with one name would make asking for it resolve to whichever came first.
pub fn defined_in(found: Vec<WorkflowMeta>, single: Option<WorkflowMeta>) -> (r: Result<
    Vec<WorkflowMeta>,
    PlanError,
>)
    ensures
        ({
            let all = with_single(found@, single);
            if meta_names(all).contains(BUILT_IN@) {
                error::failed(
                    r,
                    "workflow"@,
                    "a workflow in this repository is named `"@ + BUILT_IN@
                        + "`, which is the bundled workflow's name; the bundled workflow is always in the registry, so that name is taken — rename it in its `defineWorkflow` call"@,
                )
            } else {
                r matches Ok(defined) && defined@ == all
            }
        }),
{
    let mut all = found;
    if let Some(meta) = single {
        if !any_named(all.as_slice(), meta.name.as_str()) {
            all.push(meta);
        }
    }
    if any_named(all.as_slice(), BUILT_IN) {
        let mut m = "a workflow in this repository is named `".to_owned();
        m.append(BUILT_IN);
        m.append(
            "`, which is the bundled workflow's name; the bundled workflow is always in the registry, so that name is taken — rename it in its `defineWorkflow` call",
        );
        return Err(PlanError::node("workflow", NodeError::Failed(m)));
    }
    Ok(all)
}

/// The names of a list of workflows.
pub open spec fn workflow_names(found: Seq<Workflow>) -> Seq<Seq<char>> {
    Seq::new(found.len(), |i: int| found[i].called())
}

fn names_of(found: &[Workflow]) -> (r: Vec<String>)
    ensures
        text::views(r@) == workflow_names(found@),
{
    let mut out: Vec<String> = Vec::new();
    let mut i: usize = 0;
    while i < found.len()
        invariant
            i <= found@.len(),
            out@.len() == i,
            forall|j: int| 0 <= j < i ==> (#[trigger] out@[j])@ == found@[j].called(),
        decreases found@.len() - i,
    {
        out.push(found[i].name().to_owned());
        i += 1;
    }
    assert(text::views(out@) =~= workflow_names(found@));
    out
}

/// The workflows a repository defines: all but the built-in.
pub open spec fn scripted(found: Seq<Workflow>) -> Seq<Workflow> {
    found.filter(|w: Workflow| w is Scripted)
}

/// What picking a workflow comes to: the one named, or the only one defined, or the built-in where
/// none is; and a failure of `workflow` where the name is absent or several are defined.
pub open spec fn selected(
    found: Seq<Workflow>,
    wanted: Option<&str>,
    result: Result<Workflow, PlanError>,
) -> bool {
    let listed = text::joined(workflow_names(found), ", "@);
    match wanted {
        Some(name) => if workflow_names(found).contains(name@) {
            let i = workflow_names(found).index_of_first(name@)->0;
            result == Ok::<Workflow, PlanError>(found[i])
        } else {
            error::failed(
                result,
                "workflow"@,
                "no workflow named `"@ + name@ + "`; available: "@ + listed,
            )
        },
        None => if scripted(found).len() == 0 {
            result == Ok::<Workflow, PlanError>(Workflow::BuiltIn)
        } else if scripted(found).len() == 1 {
            result == Ok::<Workflow, PlanError>(scripted(found)[0])
        } else {
            error::failed(
                result,
                "workflow"@,
                "this repo defines several workflows; name one with --workflow. Available: "@
                    + listed,
            )
        },
    }
}

/// Pick the workflow a run should use.
///
/// `wanted` names one and fails if it is not there: a run that asked for a specific shape must not
/// quietly get a different one, and the error lists what it could have asked for.
///
/// With nothing named, the *defined* workflows decide: none means the built-in, exactly one means
/// that one, and several decline to guess. The built-in is not counted in that tally.
pub fn select(found: Vec<Workflow>, wanted: Option<&str>) -> (r: Result<Workflow, PlanError>)
    ensures
        selected(found@, wanted, r),
{
    let listed = text::join(names_of(found.as_slice()).as_slice(), ", ");
    let ghost all = found@;
    let mut pool = found;
    if let Some(name) = wanted {
        let mut i: usize = 0;
        while i < pool.len()
            invariant
                i <= pool@.len(),
                pool@ == all,
                all == found@,
                wanted == Some(name),
                forall|j: int| 0 <= j < i ==> (#[trigger] all[j]).called() != name@,
            decreases pool@.len() - i,
        {
            if text::same(pool[i].name(), name) {
                proof {
                    assert(workflow_names(all)[i as int] == name@);
                    workflow_names(all).index_of_first_ensures(name@);
                    let k = workflow_names(all).index_of_first(name@)->0;
                    assert(all[k].called() == name@);
                    assert(k == i);
                }
                return Ok(pool.remove(i));
            }
            i += 1;
        }
        assert(!workflow_names(all).contains(name@));
        let mut m = "no workflow named `".to_owned();
        m.append(name);
        m.append("`; available: ");
        m.append(listed.as_str());
        return Err(PlanError::node("workflow", NodeError::Failed(m)));
    }
    let mut defined: Vec<Workflow> = Vec::new();
    let ghost keep = |w: Workflow| w is Scripted;
    assert(all.take(0).filter(keep) =~= Seq::empty()) by {
        reveal(Seq::filter);
    }
    for w in it: pool
        invariant
            it.seq() == all,
            keep == (|w: Workflow| w is Scripted),
            defined@ == all.take(it.index() as int).filter(keep),
    {
        let ghost n = it.index() as int;
        proof {
            reveal(Seq::filter);
            assert(all.take(n + 1).drop_last() =~= all.take(n));
            assert(all.take(n + 1).last() == w);
        }
        match w {
            Workflow::BuiltIn => {},
            Workflow::Scripted(meta) => {
                defined.push(Workflow::Scripted(meta));
            },
        }
    }
    assert(all.take(all.len() as int) =~= all);
    if defined.len() == 0 {
        Ok(Workflow::BuiltIn)
    } else if defined.len() == 1 {
        Ok(defined.remove(0))
    } else {
        let mut m =
            "this repo defines several workflows; name one with --workflow. Available: ".to_owned();
        m.append(listed.as_str());
        Err(PlanError::node("workflow", NodeError::Failed(m)))
    }
}

/// What a run picks is the built-in or one of the workflows it was offered, and it never picks among
/// several unnamed ones.
pub proof fn selection_never_invents(
    found: Seq<Workflow>,
    wanted: Option<&str>,
    result: Result<Workflow, PlanError>,
)
    requires
        selected(found, wanted, result),
    ensures
        result matches Ok(workflow) ==> workflow is BuiltIn || found.contains(workflow),
        result matches Ok(workflow) ==> (wanted matches Some(name) ==> workflow.called() == name@),
        wanted is None && scripted(found).len() > 1 ==> result is Err,
{
    let keep = |w: Workflow| w is Scripted;
    assert(scripted(found) == found.filter(keep));
    match wanted {
        Some(name) => {
            workflow_names(found).index_of_first_ensures(name@);
            if workflow_names(found).contains(name@) {
                let k = workflow_names(found).index_of_first(name@)->0;
                assert(found.contains(found[k]));
            }
        },
        None => {
            if scripted(found).len() == 1 {
                assert(scripted(found).contains(scripted(found)[0]));
                found.lemma_filter_contains_rev(keep, scripted(found)[0]);
            }
        },
    }
}

/// Why a registry with a workflow's declarations laid over it is refused: its layout first, where
/// there is one, then the registry itself. Every id of the registry may be governed by.
pub open spec fn overlay_refusal(
    config: RatatoskrConfig,
    base: Seq<StageView>,
    declared: Seq<StageView>,
    permitted: Seq<Seq<char>>,
    meta: Option<WorkflowMeta>,
) -> Option<Seq<char>> {
    let stages = stage::overlaid(base, declared);
    let by_layout = match meta {
        Some(meta) => validate::layout_refusal(meta.layout@, stages, meta.name@),
        None => None,
    };
    if by_layout is Some {
        by_layout
    } else {
        validate::registry_refusal(
            stages,
            stage::profiles_with(config.agents@),
            names::sorted(permitted + stage::ids(stages)),
        )
    }
}

/// Why one workflow is refused: a contract it declares, then a declaration, then the registry it
/// would run.
pub open spec fn workflow_refusal(
    config: RatatoskrConfig,
    base: Seq<StageView>,
    meta: WorkflowMeta,
) -> Option<Seq<char>> {
    let declared = text::views(meta.stages@);
    let by_contract = error::first_refusal(
        declared.len() as int,
        validate::contract_refusals(declared),
    );
    let by_declaration = validate::declarations_refusal(declared, meta.name@);
    if by_contract is Some {
        by_contract
    } else if by_declaration is Some {
        by_declaration
    } else {
        overlay_refusal(config, base, declared, governable(base, seq![meta]), Some(meta))
    }
}

/// Why each workflow is refused.
pub open spec fn workflow_refusals(
    config: RatatoskrConfig,
    base: Seq<StageView>,
    workflows: Seq<WorkflowMeta>,
) -> spec_fn(int) -> Option<Seq<char>> {
    |i: int| workflow_refusal(config, base, workflows[i])
}

/// Why a configuration is refused before any run starts. Each workflow is judged against its *own*
/// registry, never against the declarations of another.
pub open spec fn configured_refusal(
    config: RatatoskrConfig,
    base: Seq<StageView>,
    workflows: Seq<WorkflowMeta>,
) -> Option<Seq<char>> {
    if workflows.len() == 0 {
        overlay_refusal(config, base, Seq::empty(), governable(base, workflows), None)
    } else {
        error::first_refusal(
            workflows.len() as int,
            workflow_refusals(config, base, workflows),
        )
    }
}

/// Judges a registry with declarations laid over it.
fn judge_overlay(
    config: &RatatoskrConfig,
    base: &[Stage],
    declared: &[Stage],
    permitted: Vec<String>,
    meta: Option<&WorkflowMeta>,
) -> (r: Result<(), PlanError>)
    ensures
        error::refused(
            r,
            overlay_refusal(
                *config,
                text::views(base@),
                text::views(declared@),
                text::views(permitted@),
                match meta {
                    Some(meta) => Some(*meta),
                    None => None,
                },
            ),
        ),
{
    let mut stages = stage::copy_stages(base);
    stage::overlay(&mut stages, declared);
    if let Some(meta) = meta {
        let judged = validate::validate_layout(
            meta.layout.as_slice(),
            stages.as_slice(),
            meta.name.as_str(),
        );
        if judged.is_err() {
            return judged;
        }
    }
    let mut all = permitted;
    let mut ids = validate::ids_of(stages.as_slice());
    let ghost both = text::views(all@) + text::views(ids@);
    all.append(&mut ids);
    assert(text::views(all@) =~= both);
    let profiles = stage::agent_profiles(config);
    validate::validate(
        stages.as_slice(),
        profiles.as_slice(),
        names::sort(all.as_slice()).as_slice(),
    )
}

/// Judges one workflow.
fn judge_workflow(config: &RatatoskrConfig, base: &[Stage], workflows: &[WorkflowMeta], i: usize) -> (r:
    Result<(), PlanError>)
    requires
        i < workflows@.len(),
    ensures
        error::refused(r, workflow_refusal(*config, text::views(base@), workflows@[i as int])),
{
    let meta = &workflows[i];
    let declared = stage::stages_from_workflow(meta);
    let by_contract = validate::validate_declared_contracts(declared.as_slice());
    if by_contract.is_err() {
        return by_contract;
    }
    let by_declaration = validate::validate_declarations(declared.as_slice(), meta.name.as_str());
    if by_declaration.is_err() {
        return by_declaration;
    }
    let only = vstd::slice::slice_subrange(workflows, i, i + 1);
    assert(only@ =~= seq![*meta]);
    let permitted = governable_from(base, only);
    judge_overlay(config, base, declared.as_slice(), permitted, Some(meta))
}

/// Validate the stage registry every configured workflow contributes before any run starts.
///
/// Each workflow is judged against its own registry: the base with its declarations laid over it. A
/// run only ever executes one workflow, so two that each override the same standard id never meet.
pub fn validate_configured_stage_registry(
    config: &RatatoskrConfig,
    workflows: &[WorkflowMeta],
    standard_stages: &[Stage],
) -> (r: Result<(), PlanError>)
    ensures
        error::refused(r, configured_refusal(*config, text::views(standard_stages@), workflows@)),
{
    let ghost base = text::views(standard_stages@);
    if workflows.len() == 0 {
        let none: Vec<Stage> = Vec::new();
        assert(text::views(none@) =~= Seq::empty());
        let permitted = governable_from(standard_stages, workflows);
        return judge_overlay(config, standard_stages, none.as_slice(), permitted, None);
    }
    let ghost check = workflow_refusals(*config, base, workflows@);
    let mut i: usize = 0;
    while i < workflows.len()
        invariant
            i <= workflows@.len(),
            base == text::views(standard_stages@),
            check == workflow_refusals(*config, base, workflows@),
            workflows@.len() > 0,
            error::first_refusal(i as int, check) is None,
        decreases workflows@.len() - i,
    {
        let judged = judge_workflow(config, standard_stages, workflows, i);
        assert(error::refused(judged, check(i as int)));
        if judged.is_err() {
            proof {
                error::the_first_refusal_decides(workflows@.len() as int, check, i as int);
            }
            return judged;
        }
        i += 1;
    }
    Ok(())
}

/// A workflow is accepted together with others exactly when it is accepted alone, whatever the
/// others declare: two workflows may each override the same standard stage.
pub proof fn workflows_are_judged_apart(
    config: RatatoskrConfig,
    base: Seq<StageView>,
    workflows: Seq<WorkflowMeta>,
)
    requires
        workflows.len() > 0,
    ensures
        configured_refusal(config, base, workflows) is None <==> (forall|i: int|
            0 <= i < workflows.len() ==> configured_refusal(
                config,
                base,
                seq![#[trigger] workflows[i]],
            ) is None),
{
    let check = workflow_refusals(config, base, workflows);
    error::accepted_when_every_check_passes(workflows.len() as int, check);
    assert forall|i: int| 0 <= i < workflows.len() implies (check(i) is None <==> configured_refusal(
        config,
        base,
        seq![#[trigger] workflows[i]],
    ) is None) by {
        let one = seq![workflows[i]];
        let alone = workflow_refusals(config, base, one);
        error::accepted_when_every_check_passes(1, alone);
        assert(alone(0) == check(i));
    }
    if configured_refusal(config, base, workflows) is None {
        assert forall|i: int| 0 <= i < workflows.len() implies configured_refusal(
            config,
            base,
            seq![#[trigger] workflows[i]],
        ) is None by {
            assert(check(i) is None);
        }
    }
    if forall|i: int|
        0 <= i < workflows.len() ==> configured_refusal(config, base, seq![#[trigger] workflows[i]]) is None {
        assert forall|i: int| 0 <= i < workflows.len() implies #[trigger] check(i) is None by {
            let w = workflows[i];
        }
    }
}

/// Whether there is a real choice for the overseer to make.
pub fn should_consult_overseer(
    defined_workflows: usize,
    workflow_named: bool,
    configured: bool,
) -> (r: bool)
    ensures
        r == (!workflow_named && defined_workflows > 1 && configured),
{
    !workflow_named && defined_workflows > 1 && configured
}

fn count_scripted(found: &[Workflow]) -> (r: usize)
    ensures
        r == scripted(found@).len(),
{
    let mut n: usize = 0;
    let mut i: usize = 0;
    let ghost keep = |w: Workflow| w is Scripted;
    assert(found@.take(0).filter(keep) =~= Seq::empty()) by {
        reveal(Seq::filter);
    }
    while i < found.len()
        invariant
            i <= found@.len(),
            keep == (|w: Workflow| w is Scripted),
            n == found@.take(i as int).filter(keep).len(),
            n <= i,
        decreases found@.len() - i,
    {
        if let Workflow::Scripted(_) = &found[i] {
            n += 1;
        }
        i += 1;
        proof {
            reveal(Seq::filter);
            assert(found@.take(i as int).drop_last() =~= found@.take(i - 1));
            assert(found@.take(i as int).last() == found@[i - 1]);
        }
    }
    assert(found@.take(i as int) =~= found@);
    n
}

/// Whether a run has to know if an overseer is configured at all: only with several defined
/// workflows and none named. Asking costs reading the standard registry, so a run with nothing to
/// choose between never does.
pub fn choice_to_make(found: &[Workflow], wanted: Option<&str>) -> (r: bool)
    ensures
        r == (wanted is None && scripted(found@).len() > 1),
{
    should_consult_overseer(count_scripted(found), wanted.is_some(), true)
}

/// The registry as the overseer is shown it.
pub open spec fn choices(found: Seq<Workflow>) -> Seq<ChoiceView> {
    Seq::new(
        found.len(),
        |i: int|
            ChoiceView {
                name: found[i].called(),
                purpose: found[i].intent(),
                when_to_use: found[i].cases(),
            },
    )
}

/// What the overseer is asked: the task, and every workflow the run could use.
pub fn overseer_question(found: &[Workflow], issue: &str) -> (r: OverseerInput)
    ensures
        r.issue@ == issue@,
        text::views(r.choices@) == choices(found@),
{
    let mut out: Vec<Choice> = Vec::new();
    let mut i: usize = 0;
    while i < found.len()
        invariant
            i <= found@.len(),
            out@.len() == i,
            forall|j: int| 0 <= j < i ==> (#[trigger] out@[j])@ == choices(found@)[j],
        decreases found@.len() - i,
    {
        out.push(
            Choice {
                name: found[i].name().to_owned(),
                purpose: found[i].purpose().to_owned(),
                when_to_use: found[i].when_to_use(),
            },
        );
        i += 1;
    }
    assert(text::views(out@) =~= choices(found@));
    OverseerInput { issue: issue.to_owned(), choices: out }
}

/// How a run comes by its workflow.
#[derive(Debug)]
pub enum Chosen {
    /// It is settled, one way or the other, without a model call.
    Settled(Result<Workflow, PlanError>),
    /// The overseer is asked; what it answers is put to [`overseer_decides`].
    Ask { question: OverseerInput, found: Vec<Workflow> },
}

/// Pick the workflow for a run, asking the overseer when there is a real choice to make.
///
/// The order is deliberate. A named workflow wins outright: a caller that said which shape it wanted
/// is not asking to be second-guessed. Nothing to choose between resolves without a model call. Only
/// a genuine choice reaches the overseer, and without one configured the run still refuses to guess
/// rather than picking.
pub fn choose_workflow(
    found: Vec<Workflow>,
    wanted: Option<&str>,
    overseer_configured: bool,
    issue: &str,
) -> (r: Chosen)
    ensures
        if wanted is None && scripted(found@).len() > 1 && overseer_configured {
            r matches Chosen::Ask { question, found: kept } && {
                &&& question.issue@ == issue@
                &&& text::views(question.choices@) == choices(found@)
                &&& kept@ == found@
            }
        } else {
            r matches Chosen::Settled(result) && selected(found@, wanted, result)
        },
{
    if should_consult_overseer(
        count_scripted(found.as_slice()),
        wanted.is_some(),
        overseer_configured,
    ) {
        let question = overseer_question(found.as_slice(), issue);
        Chosen::Ask { question, found }
    } else {
        Chosen::Settled(select(found, wanted))
    }
}

/// The stage a routing decision is checkpointed under.
pub const OVERSEER_NODE: &'static str = "overseer";

/// A routing decision that stands: the workflow to run, and the checkpoint that records it.
#[derive(Debug)]
pub struct Routed {
    pub workflow: Workflow,
    /// What is checkpointed, under [`OVERSEER_NODE`].
    pub record: OverseerOutput,
}

/// Take the overseer's answer. It names a workflow; it does not get to select one that is not there:
/// a name outside the registry is refused here, before anything is written, so the store never
/// presents a rejected routing decision as a completed stage.
pub fn overseer_decides(found: Vec<Workflow>, decided: OverseerOutput) -> (r: Result<
    Routed,
    PlanError,
>)
    ensures
        if workflow_names(found@).contains(decided.workflow@) {
            r matches Ok(routed) && {
                &&& routed.workflow == found@[workflow_names(found@).index_of_first(
                    decided.workflow@,
                )->0]
                &&& routed.record == decided
            }
        } else {
            error::failed(
                r,
                "workflow"@,
                "no workflow named `"@ + decided.workflow@ + "`; available: "@ + text::joined(
                    workflow_names(found@),
                    ", "@,
                ),
            )
        },
{
    match select(found, Some(decided.workflow.as_str())) {
        Ok(workflow) => Ok(Routed { workflow, record: decided }),
        Err(error) => Err(error),
    }
}

/// Whether a workflow brings a name: it declares it as a node of its own, or one of its stages is
/// governed under it.
pub open spec fn brings(meta: WorkflowMeta, name: Seq<char>) -> bool {
    ||| text::named(meta.nodes@, name)
    ||| governs_some(text::views(meta.stages@), name)
}

/// Whether one of some stages is governed under a name, which is its own where it says nothing else.
pub open spec fn governs_some(stages: Seq<StageView>, name: Seq<char>) -> bool {
    exists|i: int|
        0 <= i < stages.len() && (match (#[trigger] stages[i]).governed_by {
            Some(identity) => identity@,
            None => stages[i].id,
        }) == name
}

/// A name may be governed exactly when it is not the referee's, and a standard stage is governed under
/// it or some workflow, whichever it is, brings it.
pub proof fn what_may_be_governed(
    standard: Seq<StageView>,
    workflows: Seq<WorkflowMeta>,
    name: Seq<char>,
)
    ensures
        governable(standard, workflows).contains(name) <==> name != "referee"@ && (governs_some(
            standard,
            name,
        ) || exists|w: int| 0 <= w < workflows.len() && brings(#[trigger] workflows[w], name)),
{
    gates_are_never_governable(standard, workflows, name);
    policy::who_owns_each_name(name);
    governance_is_somewhere(standard, name);
    declared_names_are_brought(workflows, name);
    let own = governance_ids(standard);
    let theirs = all_declared_names(workflows);
    let all = own + theirs;
    if all.contains(name) {
        let k = choose|k: int| 0 <= k < all.len() && all[k] == name;
        if k < own.len() {
            assert(own[k] == name);
        } else {
            assert(theirs[k - own.len()] == name);
        }
    }
    if own.contains(name) {
        let k = choose|k: int| 0 <= k < own.len() && own[k] == name;
        assert(all[k] == name);
    }
    if theirs.contains(name) {
        let k = choose|k: int| 0 <= k < theirs.len() && theirs[k] == name;
        assert(all[own.len() + k] == name);
    }
}

proof fn governance_is_somewhere(stages: Seq<StageView>, name: Seq<char>)
    ensures
        governance_ids(stages).contains(name) <==> governs_some(stages, name),
{
    let ids = governance_ids(stages);
    if ids.contains(name) {
        let k = choose|k: int| 0 <= k < ids.len() && ids[k] == name;
        assert(stages[k].governance() == name);
    }
    if governs_some(stages, name) {
        let i = choose|i: int|
            0 <= i < stages.len() && (match (#[trigger] stages[i]).governed_by {
                Some(identity) => identity@,
                None => stages[i].id,
            }) == name;
        assert(ids[i] == name);
    }
}

proof fn declared_names_are_brought(workflows: Seq<WorkflowMeta>, name: Seq<char>)
    ensures
        all_declared_names(workflows).contains(name) <==> exists|w: int|
            0 <= w < workflows.len() && brings(#[trigger] workflows[w], name),
    decreases workflows.len(),
{
    if workflows.len() > 0 {
        let front = workflows.drop_last();
        let n = front.len() as int;
        let before = all_declared_names(front);
        let meta = workflows[n];
        let nodes = text::views(meta.nodes@);
        let governed = governance_ids(text::views(meta.stages@));
        let here = declared_names(meta);
        let all = all_declared_names(workflows);
        declared_names_are_brought(front, name);
        text::named_somewhere(meta.nodes@, name);
        governance_is_somewhere(text::views(meta.stages@), name);
        assert(all == before + here);
        assert(here.contains(name) <==> brings(meta, name)) by {
            if here.contains(name) {
                let k = choose|k: int| 0 <= k < here.len() && here[k] == name;
                if k < nodes.len() {
                    assert(nodes[k] == name);
                } else {
                    assert(governed[k - nodes.len()] == name);
                }
            }
            if nodes.contains(name) {
                let k = choose|k: int| 0 <= k < nodes.len() && nodes[k] == name;
                assert(here[k] == name);
            }
            if governed.contains(name) {
                let k = choose|k: int| 0 <= k < governed.len() && governed[k] == name;
                assert(here[nodes.len() + k] == name);
            }
        }
        if all.contains(name) {
            let k = choose|k: int| 0 <= k < all.len() && all[k] == name;
            if k < before.len() {
                assert(before[k] == name);
                let w = choose|w: int| 0 <= w < front.len() && brings(#[trigger] front[w], name);
                assert(brings(workflows[w], name));
            } else {
                assert(here[k - before.len()] == name);
                assert(brings(workflows[n], name));
            }
        }
        if exists|w: int| 0 <= w < workflows.len() && brings(#[trigger] workflows[w], name) {
            let w = choose|w: int| 0 <= w < workflows.len() && brings(#[trigger] workflows[w], name);
            if w < n {
                assert(brings(front[w], name));
                let k = choose|k: int| 0 <= k < before.len() && before[k] == name;
                assert(all[k] == name);
            } else {
                let k = choose|k: int| 0 <= k < here.len() && here[k] == name;
                assert(all[before.len() + k] == name);
            }
        }
    }
}

/// The operations a script can call are exactly the names the run reserves for its operations.
pub proof fn every_operation_is_reserved_as_one(name: Seq<char>)
    ensures
        operations().contains(name) <==> policy::reservation(name) == Some(Reserved::Operation),
{
    policy::who_owns_each_name(name);
    let all = operations();
    assert(all[0] == "context"@ && all[1] == "redTeam"@ && all[2] == "implement"@);
    assert(all[3] == "iterate"@ && all[4] == "replanAtCeiling"@ && all[5] == "verify"@);
    assert(all[6] == "isConverged"@ && all[7] == "testCommandRan"@);
}

/// What asking for a workflow comes to. Asked for by name, a run gets the first workflow of that name
/// and no other, and fails exactly where none has it.
pub proof fn a_named_workflow_is_the_first_of_its_name(
    found: Seq<Workflow>,
    name: &str,
    result: Result<Workflow, PlanError>,
)
    requires
        selected(found, Some(name), result),
    ensures
        result is Ok <==> exists|i: int| 0 <= i < found.len() && (#[trigger] found[i]).called() == name@,
        result is Ok ==> exists|i: int|
            {
                &&& 0 <= i < found.len()
                &&& #[trigger] found[i] == result->Ok_0
                &&& found[i].called() == name@
                &&& forall|j: int| 0 <= j < i ==> (#[trigger] found[j]).called() != name@
            },
{
    let all = workflow_names(found);
    all.index_of_first_ensures(name@);
    if all.contains(name@) {
        let k = all.index_of_first(name@)->0;
        assert(found[k].called() == name@);
        assert(found[k] == result->Ok_0);
        assert forall|j: int| 0 <= j < k implies (#[trigger] found[j]).called() != name@ by {
            assert(all[j] != name@);
        }
    }
    if exists|i: int| 0 <= i < found.len() && (#[trigger] found[i]).called() == name@ {
        let i = choose|i: int| 0 <= i < found.len() && (#[trigger] found[i]).called() == name@;
        assert(all[i] == name@);
    }
}

/// Asked for nothing, a run gets the built-in workflow exactly where the repository defines none, the
/// one it defines exactly where it defines one, and fails exactly where it defines more: wherever in
/// the list they stand, and however often the built-in is there.
pub proof fn an_unnamed_workflow_is_the_only_one_there_is(
    found: Seq<Workflow>,
    result: Result<Workflow, PlanError>,
)
    requires
        selected(found, None, result),
    ensures
        lists::kept(scripted(found), found, |w: Workflow| w is Scripted),
        result is Ok <==> scripted(found).len() <= 1,
        scripted(found).len() == 0 ==> result->Ok_0 == Workflow::BuiltIn,
        scripted(found).len() == 1 ==> result->Ok_0 == scripted(found)[0],
{
    let keep = |w: Workflow| w is Scripted;
    lists::a_filter_keeps(found, keep, keep);
}

/// What a workflow is called, is for, and is right for: what it says of itself, and for the built-in
/// its fixed name, with no cases of its own.
pub proof fn a_workflow_says_what_it_is(workflow: Workflow)
    ensures
        workflow is BuiltIn ==> workflow.called() == "built-in"@ && workflow.cases().len() == 0
            && workflow.intent() == BUILT_IN_PURPOSE@,
        workflow is Scripted ==> workflow.called() == workflow->Scripted_0.name@
            && workflow.intent() == workflow->Scripted_0.purpose@ && workflow.cases()
            == workflow->Scripted_0.when_to_use@,
{
}

/// The workflow of a single file joins those of the directory, last, exactly where none of them has
/// its name.
pub proof fn a_single_file_joins_where_its_name_is_free(
    found: Seq<WorkflowMeta>,
    single: Option<WorkflowMeta>,
)
    ensures
        single is None ==> with_single(found, single) == found,
        single is Some && (exists|i: int|
            0 <= i < found.len() && (#[trigger] found[i]).name@ == single->0.name@) ==> with_single(
            found,
            single,
        ) == found,
        single is Some && (forall|i: int|
            0 <= i < found.len() ==> (#[trigger] found[i]).name@ != single->0.name@) ==> with_single(
            found,
            single,
        ) == found.push(single->0),
{
    if single is Some {
        let all = meta_names(found);
        let name = single->0.name@;
        if all.contains(name) {
            let k = choose|k: int| 0 <= k < all.len() && all[k] == name;
            assert(found[k].name@ == name);
        }
        if exists|i: int| 0 <= i < found.len() && (#[trigger] found[i]).name@ == name {
            let i = choose|i: int| 0 <= i < found.len() && (#[trigger] found[i]).name@ == name;
            assert(all[i] == name);
        }
    }
}

/// A workflow is accepted exactly when its contracts are, its declarations are, and the registry it
/// would run, its own declarations laid over the standard stages, is, layout and all; in which every
/// name that may be governed and every id of that registry may be governed by.
pub proof fn a_workflow_passes_every_gate(
    config: RatatoskrConfig,
    base: Seq<StageView>,
    meta: WorkflowMeta,
    permitted: Seq<Seq<char>>,
)
    requires
        forall|name: Seq<char>| #[trigger]
            permitted.contains(name) <==> governable(base, seq![meta]).contains(name) || stage::ids(
                stage::overlaid(base, text::views(meta.stages@)),
            ).contains(name),
    ensures
        ({
            let declared = text::views(meta.stages@);
            let stages = stage::overlaid(base, declared);
            workflow_refusal(config, base, meta) is None <==> {
                &&& error::first_refusal(
                    declared.len() as int,
                    validate::contract_refusals(declared),
                ) is None
                &&& validate::declarations_refusal(declared, meta.name@) is None
                &&& validate::layout_refusal(meta.layout@, stages, meta.name@) is None
                &&& validate::registry_refusal(
                    stages,
                    stage::profiles_with(config.agents@),
                    permitted,
                ) is None
            }
        }),
{
    let declared = text::views(meta.stages@);
    let stages = stage::overlaid(base, declared);
    let own = governable(base, seq![meta]);
    let both = own + stage::ids(stages);
    let listed = names::sorted(both);
    names::sorted_is_the_set_in_order(both);
    assert forall|name: Seq<char>| #[trigger] permitted.contains(name) <==> listed.contains(name) by {
        if both.contains(name) {
            let k = choose|k: int| 0 <= k < both.len() && both[k] == name;
            if k < own.len() {
                assert(own[k] == name);
            } else {
                assert(stage::ids(stages)[k - own.len()] == name);
            }
        }
        if own.contains(name) {
            let k = choose|k: int| 0 <= k < own.len() && own[k] == name;
            assert(both[k] == name);
        }
        if stage::ids(stages).contains(name) {
            let k = choose|k: int| 0 <= k < stage::ids(stages).len() && stage::ids(stages)[k] == name;
            assert(both[own.len() + k] == name);
        }
        assert(listed.contains(name) <==> both.contains(name));
    }
    let profiles = stage::profiles_with(config.agents@);
    validate::permission_is_by_name(stages, profiles, permitted, listed);
}

/// What the overseer is shown is every workflow there is, in order, each as it says of itself.
pub proof fn the_overseer_is_shown_every_workflow(found: Seq<Workflow>, i: int)
    requires
        0 <= i < found.len(),
    ensures
        choices(found).len() == found.len(),
        choices(found)[i].name == found[i].called(),
        choices(found)[i].purpose == found[i].intent(),
        choices(found)[i].when_to_use == found[i].cases(),
{
}

/// Where a repository defines no workflow, its configuration is accepted exactly when the standard
/// stages alone are, with every identity they are governed under and every id of them permitted.
pub proof fn a_repository_without_workflows_runs_the_standard_stages(
    config: RatatoskrConfig,
    base: Seq<StageView>,
    permitted: Seq<Seq<char>>,
)
    requires
        forall|name: Seq<char>| #[trigger]
            permitted.contains(name) <==> governable(base, Seq::empty()).contains(name) || stage::ids(
                base,
            ).contains(name),
    ensures
        configured_refusal(config, base, Seq::empty()) is None <==> validate::registry_refusal(
            base,
            stage::profiles_with(config.agents@),
            permitted,
        ) is None,
{
    let own = governable(base, Seq::empty());
    let both = own + stage::ids(base);
    let listed = names::sorted(both);
    names::sorted_is_the_set_in_order(both);
    assert forall|name: Seq<char>| #[trigger] permitted.contains(name) <==> listed.contains(name) by {
        if both.contains(name) {
            let k = choose|k: int| 0 <= k < both.len() && both[k] == name;
            if k < own.len() {
                assert(own[k] == name);
            } else {
                assert(stage::ids(base)[k - own.len()] == name);
            }
        }
        if own.contains(name) {
            let k = choose|k: int| 0 <= k < own.len() && own[k] == name;
            assert(both[k] == name);
        }
        if stage::ids(base).contains(name) {
            let k = choose|k: int| 0 <= k < stage::ids(base).len() && stage::ids(base)[k] == name;
            assert(both[own.len() + k] == name);
        }
        assert(listed.contains(name) <==> both.contains(name));
    }
    assert(stage::overlaid(base, Seq::empty()) == base);
    validate::permission_is_by_name(base, stage::profiles_with(config.agents@), permitted, listed);
}

} // verus!
