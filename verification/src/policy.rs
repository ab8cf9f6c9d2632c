//! What a workflow may do with a standard identifier.
//!
//! Stage overlay treats every identifier as a registry key, so a declaration named after a standard
//! stage silently becomes that stage. Some of those identifiers are the run's, not a workflow's: the
//! run invokes them, reads their checkpoints back by name, or reads their output as a concrete type.
//! This module is the one table that says which is which, so classifying a new standard stage is a
//! single edit rather than an audit of several lists.
//!
//! Three classes, and every identifier is in exactly one:
//!
//! 1. [`Class::Overridable`]: a workflow may declare it. `contract` is the output contract the run
//!    reads the stage's output as; an override may not change it.
//! 2. [`Class::Reserved`]: a workflow may not declare it at all, for the reason [`Reserved`] names.
//! 3. Neither: a repository's own stage id, unconstrained.

use vstd::prelude::*;
use vstd::string::StringExecFns;

use crate::names;
use crate::text;

verus! {

broadcast use vstd::string::group_string_axioms;

/// Why an identifier belongs to the run rather than to a workflow.
#[derive(Clone, Copy, Debug, PartialEq, Eq, Structural)]
pub enum Reserved {
    /// A workflow operation the run owns, installed as a script global under this name. A stage
    /// declared under it would be overwritten by the operation and never run.
    Operation,
    /// Bookkeeping and delivery. They run after the run's outcome is accepted, with resources (a
    /// push grant, the committed worktree) no workflow operation holds.
    Terminal,
    /// Selection. It runs before a workflow is chosen, so there is no answer to which workflow's
    /// overseer picks among workflows.
    Selection,
    /// A checkpoint identity the run's lifecycle reads back by name. A stage checkpointing arbitrary
    /// output under one of these names inflates an iteration count, spends the ceiling recovery
    /// early, or cannot be read mid-run.
    Lifecycle,
    /// A record the run writes itself, identified by name alone by every reader.
    Record,
    /// An internal gate with a fixed capability boundary. Never a configurable stage or agent.
    InternalGate,
    /// The governance identity of a standard stage, with no stage of its own under that name.
    ///
    /// Resolution matches a stage id before falling back to `governedBy`, so a workflow stage
    /// declared under this name wins the lookups made *for* the standard stages that name it: their
    /// enablement, their route, their profile.
    GovernanceIdentity,
}

impl Reserved {
    /// The clause that goes in the refusal, after "which is".
    pub open spec fn clause(self) -> Seq<char> {
        match self {
            Reserved::Operation => "the name of a Rust-owned workflow operation; choose a different stage identifier"@,
            Reserved::Terminal => "a terminal adapter owned by the run rather than a workflow operation"@,
            Reserved::Selection => "the selection between workflows, and so cannot be declared by one"@,
            Reserved::Lifecycle => "a lifecycle checkpoint identity the run reads back by name; choose a different stage identifier"@,
            Reserved::Record => "a checkpoint the run writes itself; choose a different stage identifier"@,
            Reserved::InternalGate => "an internal gate with a fixed capability, not a configurable stage"@,
            Reserved::GovernanceIdentity => "the governance identity of the standard red-team stages, which a stage of that name would answer for; choose a different stage identifier"@,
        }
    }

    /// The clause that goes in the refusal, after "which is".
    pub fn because(self) -> (r: &'static str)
        ensures
            r@ == self.clause(),
    {
        match self {
            Reserved::Operation => "the name of a Rust-owned workflow operation; choose a different stage identifier",
            Reserved::Terminal => "a terminal adapter owned by the run rather than a workflow operation",
            Reserved::Selection => "the selection between workflows, and so cannot be declared by one",
            Reserved::Lifecycle => "a lifecycle checkpoint identity the run reads back by name; choose a different stage identifier",
            Reserved::Record => "a checkpoint the run writes itself; choose a different stage identifier",
            Reserved::InternalGate => "an internal gate with a fixed capability, not a configurable stage",
            Reserved::GovernanceIdentity => "the governance identity of the standard red-team stages, which a stage of that name would answer for; choose a different stage identifier",
        }
    }

    /// Whether the identifier is still a governance identity a declared stage may run under.
    pub open spec fn governs(self) -> bool {
        self is Operation || self is Lifecycle || self is GovernanceIdentity
    }

    /// Whether the identifier is still a governance identity a declared stage may run under.
    ///
    /// A reserved identifier whose model turn the workflow itself drives is a real identity to run
    /// under. One whose turn runs outside any workflow is not: selection happens before a workflow
    /// is chosen and delivery after its outcome is accepted, so a stage governed by either would
    /// spend that route for a turn the workflow never made.
    pub fn governable(self) -> (r: bool)
        ensures
            r == self.governs(),
    {
        matches!(self, Reserved::Operation | Reserved::Lifecycle | Reserved::GovernanceIdentity)
    }
}

/// Who invokes a standard stage, and what becomes of its output.
#[derive(Clone, Copy, Debug, PartialEq, Eq, Structural)]
pub enum Invocation {
    /// Installed as a workflow global under its own id. The executor checkpoints its output there.
    Workflow,
    /// Invoked only by the run itself, which supplies a worktree, a shell grant or a review gate a
    /// script host has no way to hold. Its output is checkpointed under this name.
    Adapter,
    /// As [`Invocation::Adapter`], but the output is folded into another stage's record rather than
    /// checkpointed: nothing is ever written under this name.
    AdapterEvidence,
}

/// What a workflow may do with one standard identifier.
#[derive(Clone, Copy, Debug)]
pub enum Class {
    Overridable {
        /// The output contract the run reads this stage's output as. An override that changes it
        /// could not be read mid-run, so it is refused at load.
        contract: Option<&'static str>,
        invocation: Invocation,
    },
    Reserved(Reserved),
}

fn overridable(contract: &'static str) -> (r: Class)
    ensures
        r == (Class::Overridable { contract: Some(contract), invocation: Invocation::Workflow }),
{
    Class::Overridable { contract: Some(contract), invocation: Invocation::Workflow }
}

fn adapter(contract: &'static str) -> (r: Class)
    ensures
        r == (Class::Overridable { contract: Some(contract), invocation: Invocation::Adapter }),
{
    Class::Overridable { contract: Some(contract), invocation: Invocation::Adapter }
}

fn adapter_evidence(contract: &'static str) -> (r: Class)
    ensures
        r == (Class::Overridable {
            contract: Some(contract),
            invocation: Invocation::AdapterEvidence,
        }),
{
    Class::Overridable { contract: Some(contract), invocation: Invocation::AdapterEvidence }
}

/// The class of an identifier; `None` for a repository's own.
pub open spec fn class_of(id: Seq<char>) -> Option<Class> {
    if id == "scout"@ {
        Some(Class::Overridable { contract: Some("ScoutOutput"), invocation: Invocation::Workflow })
    } else if id == "analyst"@ {
        Some(Class::Overridable { contract: Some("AnalystOutput"), invocation: Invocation::Workflow })
    } else if id == "characterizer"@ {
        Some(Class::Overridable { contract: Some("CharacterizerOutput"), invocation: Invocation::Workflow })
    } else if id == "redteam_classifier"@ {
        Some(Class::Overridable { contract: Some("Classification"), invocation: Invocation::Workflow })
    } else if id == "context_distillation"@ {
        Some(Class::Overridable { contract: Some("Distillation"), invocation: Invocation::Workflow })
    } else if id == "verifier"@ {
        Some(Class::Overridable { contract: Some("VerifierOutput"), invocation: Invocation::Adapter })
    } else if id == "redteam_author"@ {
        Some(Class::Overridable { contract: Some("AuthoredTests"), invocation: Invocation::AdapterEvidence })
    } else if id == "implementer_attempt"@ {
        Some(Class::Overridable { contract: Some("Report"), invocation: Invocation::AdapterEvidence })
    } else if id == "overseer"@ {
        Some(Class::Reserved(Reserved::Selection))
    } else if id == "bookkeeper"@ {
        Some(Class::Reserved(Reserved::Terminal))
    } else if id == "publisher"@ {
        Some(Class::Reserved(Reserved::Terminal))
    } else if id == "context"@ {
        Some(Class::Reserved(Reserved::Operation))
    } else if id == "redTeam"@ {
        Some(Class::Reserved(Reserved::Operation))
    } else if id == "implement"@ {
        Some(Class::Reserved(Reserved::Operation))
    } else if id == "iterate"@ {
        Some(Class::Reserved(Reserved::Operation))
    } else if id == "replanAtCeiling"@ {
        Some(Class::Reserved(Reserved::Operation))
    } else if id == "verify"@ {
        Some(Class::Reserved(Reserved::Operation))
    } else if id == "isConverged"@ {
        Some(Class::Reserved(Reserved::Operation))
    } else if id == "testCommandRan"@ {
        Some(Class::Reserved(Reserved::Operation))
    } else if id == "redteam"@ {
        Some(Class::Reserved(Reserved::GovernanceIdentity))
    } else if id == "implementer"@ {
        Some(Class::Reserved(Reserved::Lifecycle))
    } else if id == "memory"@ {
        Some(Class::Reserved(Reserved::Lifecycle))
    } else if id == "red_team"@ {
        Some(Class::Reserved(Reserved::Lifecycle))
    } else if id == "issue"@ {
        Some(Class::Reserved(Reserved::Record))
    } else if id == "clarification"@ {
        Some(Class::Reserved(Reserved::Record))
    } else if id == "referee"@ {
        Some(Class::Reserved(Reserved::InternalGate))
    } else {
        None
    }
}

/// The class of an identifier; `None` for a repository's own.
pub fn class(id: &str) -> (r: Option<Class>)
    ensures
        r == class_of(id@),
{
    if text::same(id, "scout") {
        Some(overridable("ScoutOutput"))
    } else if text::same(id, "analyst") {
        Some(overridable("AnalystOutput"))
    } else if text::same(id, "characterizer") {
        Some(overridable("CharacterizerOutput"))
    } else if text::same(id, "redteam_classifier") {
        Some(overridable("Classification"))
    } else if text::same(id, "context_distillation") {
        Some(overridable("Distillation"))
    } else if text::same(id, "verifier") {
        Some(adapter("VerifierOutput"))
    } else if text::same(id, "redteam_author") {
        Some(adapter_evidence("AuthoredTests"))
    } else if text::same(id, "implementer_attempt") {
        Some(adapter_evidence("Report"))
    } else if text::same(id, "overseer") {
        Some(Class::Reserved(Reserved::Selection))
    } else if text::same(id, "bookkeeper") {
        Some(Class::Reserved(Reserved::Terminal))
    } else if text::same(id, "publisher") {
        Some(Class::Reserved(Reserved::Terminal))
    } else if text::same(id, "context") {
        Some(Class::Reserved(Reserved::Operation))
    } else if text::same(id, "redTeam") {
        Some(Class::Reserved(Reserved::Operation))
    } else if text::same(id, "implement") {
        Some(Class::Reserved(Reserved::Operation))
    } else if text::same(id, "iterate") {
        Some(Class::Reserved(Reserved::Operation))
    } else if text::same(id, "replanAtCeiling") {
        Some(Class::Reserved(Reserved::Operation))
    } else if text::same(id, "verify") {
        Some(Class::Reserved(Reserved::Operation))
    } else if text::same(id, "isConverged") {
        Some(Class::Reserved(Reserved::Operation))
    } else if text::same(id, "testCommandRan") {
        Some(Class::Reserved(Reserved::Operation))
    } else if text::same(id, "redteam") {
        Some(Class::Reserved(Reserved::GovernanceIdentity))
    } else if text::same(id, "implementer") {
        Some(Class::Reserved(Reserved::Lifecycle))
    } else if text::same(id, "memory") {
        Some(Class::Reserved(Reserved::Lifecycle))
    } else if text::same(id, "red_team") {
        Some(Class::Reserved(Reserved::Lifecycle))
    } else if text::same(id, "issue") {
        Some(Class::Reserved(Reserved::Record))
    } else if text::same(id, "clarification") {
        Some(Class::Reserved(Reserved::Record))
    } else if text::same(id, "referee") {
        Some(Class::Reserved(Reserved::InternalGate))
    } else {
        None
    }
}

/// Every identifier with a class, in the order they are listed.
pub open spec fn identifiers() -> Seq<Seq<char>> {
    seq![
        "scout"@,
        "analyst"@,
        "characterizer"@,
        "redteam_classifier"@,
        "context_distillation"@,
        "verifier"@,
        "redteam_author"@,
        "implementer_attempt"@,
        "overseer"@,
        "bookkeeper"@,
        "publisher"@,
        "context"@,
        "redTeam"@,
        "implement"@,
        "iterate"@,
        "replanAtCeiling"@,
        "verify"@,
        "isConverged"@,
        "testCommandRan"@,
        "redteam"@,
        "implementer"@,
        "memory"@,
        "red_team"@,
        "issue"@,
        "clarification"@,
        "referee"@,
    ]
}

proof fn identifiers_are_distinct()
    ensures
        names::distinct(identifiers()),
{
    reveal_strlit("scout");
    reveal_strlit("analyst");
    reveal_strlit("characterizer");
    reveal_strlit("redteam_classifier");
    reveal_strlit("context_distillation");
    reveal_strlit("verifier");
    reveal_strlit("redteam_author");
    reveal_strlit("implementer_attempt");
    reveal_strlit("overseer");
    reveal_strlit("bookkeeper");
    reveal_strlit("publisher");
    reveal_strlit("context");
    reveal_strlit("redTeam");
    reveal_strlit("implement");
    reveal_strlit("iterate");
    reveal_strlit("replanAtCeiling");
    reveal_strlit("verify");
    reveal_strlit("isConverged");
    reveal_strlit("testCommandRan");
    reveal_strlit("redteam");
    reveal_strlit("implementer");
    reveal_strlit("memory");
    reveal_strlit("red_team");
    reveal_strlit("issue");
    reveal_strlit("clarification");
    reveal_strlit("referee");
    assert("scout"@.len() == 5 && "scout"@[0] == 's' && "scout"@[1] == 'c'
        && "scout"@[2] == 'o' && "scout"@[3] == 'u');
    assert("analyst"@.len() == 7 && "analyst"@[0] == 'a' && "analyst"@[1] == 'n'
        && "analyst"@[2] == 'a' && "analyst"@[3] == 'l');
    assert("characterizer"@.len() == 13 && "characterizer"@[0] == 'c' && "characterizer"@[1] == 'h'
        && "characterizer"@[2] == 'a' && "characterizer"@[3] == 'r');
    assert("redteam_classifier"@.len() == 18 && "redteam_classifier"@[0] == 'r' && "redteam_classifier"@[1] == 'e'
        && "redteam_classifier"@[2] == 'd' && "redteam_classifier"@[3] == 't');
    assert("context_distillation"@.len() == 20 && "context_distillation"@[0] == 'c' && "context_distillation"@[1] == 'o'
        && "context_distillation"@[2] == 'n' && "context_distillation"@[3] == 't');
    assert("verifier"@.len() == 8 && "verifier"@[0] == 'v' && "verifier"@[1] == 'e'
        && "verifier"@[2] == 'r' && "verifier"@[3] == 'i');
    assert("redteam_author"@.len() == 14 && "redteam_author"@[0] == 'r' && "redteam_author"@[1] == 'e'
        && "redteam_author"@[2] == 'd' && "redteam_author"@[3] == 't');
    assert("implementer_attempt"@.len() == 19 && "implementer_attempt"@[0] == 'i' && "implementer_attempt"@[1] == 'm'
        && "implementer_attempt"@[2] == 'p' && "implementer_attempt"@[3] == 'l');
    assert("overseer"@.len() == 8 && "overseer"@[0] == 'o' && "overseer"@[1] == 'v'
        && "overseer"@[2] == 'e' && "overseer"@[3] == 'r');
    assert("bookkeeper"@.len() == 10 && "bookkeeper"@[0] == 'b' && "bookkeeper"@[1] == 'o'
        && "bookkeeper"@[2] == 'o' && "bookkeeper"@[3] == 'k');
    assert("publisher"@.len() == 9 && "publisher"@[0] == 'p' && "publisher"@[1] == 'u'
        && "publisher"@[2] == 'b' && "publisher"@[3] == 'l');
    assert("context"@.len() == 7 && "context"@[0] == 'c' && "context"@[1] == 'o'
        && "context"@[2] == 'n' && "context"@[3] == 't');
    assert("redTeam"@.len() == 7 && "redTeam"@[0] == 'r' && "redTeam"@[1] == 'e'
        && "redTeam"@[2] == 'd' && "redTeam"@[3] == 'T');
    assert("implement"@.len() == 9 && "implement"@[0] == 'i' && "implement"@[1] == 'm'
        && "implement"@[2] == 'p' && "implement"@[3] == 'l');
    assert("iterate"@.len() == 7 && "iterate"@[0] == 'i' && "iterate"@[1] == 't'
        && "iterate"@[2] == 'e' && "iterate"@[3] == 'r');
    assert("replanAtCeiling"@.len() == 15 && "replanAtCeiling"@[0] == 'r' && "replanAtCeiling"@[1] == 'e'
        && "replanAtCeiling"@[2] == 'p' && "replanAtCeiling"@[3] == 'l');
    assert("verify"@.len() == 6 && "verify"@[0] == 'v' && "verify"@[1] == 'e'
        && "verify"@[2] == 'r' && "verify"@[3] == 'i');
    assert("isConverged"@.len() == 11 && "isConverged"@[0] == 'i' && "isConverged"@[1] == 's'
        && "isConverged"@[2] == 'C' && "isConverged"@[3] == 'o');
    assert("testCommandRan"@.len() == 14 && "testCommandRan"@[0] == 't' && "testCommandRan"@[1] == 'e'
        && "testCommandRan"@[2] == 's' && "testCommandRan"@[3] == 't');
    assert("redteam"@.len() == 7 && "redteam"@[0] == 'r' && "redteam"@[1] == 'e'
        && "redteam"@[2] == 'd' && "redteam"@[3] == 't');
    assert("implementer"@.len() == 11 && "implementer"@[0] == 'i' && "implementer"@[1] == 'm'
        && "implementer"@[2] == 'p' && "implementer"@[3] == 'l');
    assert("memory"@.len() == 6 && "memory"@[0] == 'm' && "memory"@[1] == 'e'
        && "memory"@[2] == 'm' && "memory"@[3] == 'o');
    assert("red_team"@.len() == 8 && "red_team"@[0] == 'r' && "red_team"@[1] == 'e'
        && "red_team"@[2] == 'd' && "red_team"@[3] == '_');
    assert("issue"@.len() == 5 && "issue"@[0] == 'i' && "issue"@[1] == 's'
        && "issue"@[2] == 's' && "issue"@[3] == 'u');
    assert("clarification"@.len() == 13 && "clarification"@[0] == 'c' && "clarification"@[1] == 'l'
        && "clarification"@[2] == 'a' && "clarification"@[3] == 'r');
    assert("referee"@.len() == 7 && "referee"@[0] == 'r' && "referee"@[1] == 'e'
        && "referee"@[2] == 'f' && "referee"@[3] == 'e');
}

/// Every identifier the standard registry or the run's lifecycle owns a claim on, with its class.
/// Each is listed once.
pub fn standard_identifiers() -> (r: Vec<(&'static str, Class)>)
    ensures
        Seq::new(r@.len(), |i: int| r@[i].0@) == identifiers(),
        forall|i: int| 0 <= i < r@.len() ==> class_of((#[trigger] r@[i]).0@) == Some(r@[i].1),
        forall|id: Seq<char>| (#[trigger] class_of(id)) is Some ==> exists|i: int|
            0 <= i < r@.len() && (#[trigger] r@[i]).0@ == id,
        forall|i: int, j: int|
            0 <= i < j < r@.len() ==> (#[trigger] r@[i]).0@ != (#[trigger] r@[j]).0@,
{
    let r: Vec<(&'static str, Class)> = vec![
        ("scout", overridable("ScoutOutput")),
        ("analyst", overridable("AnalystOutput")),
        ("characterizer", overridable("CharacterizerOutput")),
        ("redteam_classifier", overridable("Classification")),
        ("context_distillation", overridable("Distillation")),
        ("verifier", adapter("VerifierOutput")),
        ("redteam_author", adapter_evidence("AuthoredTests")),
        ("implementer_attempt", adapter_evidence("Report")),
        ("overseer", Class::Reserved(Reserved::Selection)),
        ("bookkeeper", Class::Reserved(Reserved::Terminal)),
        ("publisher", Class::Reserved(Reserved::Terminal)),
        ("context", Class::Reserved(Reserved::Operation)),
        ("redTeam", Class::Reserved(Reserved::Operation)),
        ("implement", Class::Reserved(Reserved::Operation)),
        ("iterate", Class::Reserved(Reserved::Operation)),
        ("replanAtCeiling", Class::Reserved(Reserved::Operation)),
        ("verify", Class::Reserved(Reserved::Operation)),
        ("isConverged", Class::Reserved(Reserved::Operation)),
        ("testCommandRan", Class::Reserved(Reserved::Operation)),
        ("redteam", Class::Reserved(Reserved::GovernanceIdentity)),
        ("implementer", Class::Reserved(Reserved::Lifecycle)),
        ("memory", Class::Reserved(Reserved::Lifecycle)),
        ("red_team", Class::Reserved(Reserved::Lifecycle)),
        ("issue", Class::Reserved(Reserved::Record)),
        ("clarification", Class::Reserved(Reserved::Record)),
        ("referee", Class::Reserved(Reserved::InternalGate)),
    ];
    proof {
        identifiers_are_distinct();
        let all = identifiers();
        assert(Seq::new(r@.len(), |i: int| r@[i].0@) =~= all);
        assert forall|i: int| 0 <= i < r@.len() implies class_of((#[trigger] r@[i]).0@) == Some(
            r@[i].1,
        ) by {
            assert(r@[i].0@ == all[i]);
        }
    }
    r
}

/// Selection's stage id.
pub const SELECTION_STAGE_ID: &'static str = "overseer";

/// Why an identifier may not be declared by a workflow, `None` where it may.
pub open spec fn reservation(id: Seq<char>) -> Option<Reserved> {
    match class_of(id) {
        Some(Class::Reserved(reason)) => Some(reason),
        _ => None,
    }
}

/// Why `id` may not be declared by a workflow, or `None` if it may.
pub fn reserved(id: &str) -> (r: Option<Reserved>)
    ensures
        r == reservation(id@),
{
    match class(id) {
        Some(Class::Reserved(reason)) => Some(reason),
        _ => None,
    }
}

/// Why an identifier may not be a `governedBy`, `None` where it may.
pub open spec fn governance_reservation(id: Seq<char>) -> Option<Reserved> {
    match reservation(id) {
        Some(reason) if !reason.governs() => Some(reason),
        _ => None,
    }
}

/// Why `id` may not be a `governedBy`, or `None` if it may.
pub fn reserved_for_governance(id: &str) -> (r: Option<Reserved>)
    ensures
        r == governance_reservation(id@),
{
    match reserved(id) {
        Some(reason) => if reason.governable() {
            None
        } else {
            Some(reason)
        },
        None => None,
    }
}

/// The output contract an override of an identifier must keep.
pub open spec fn contract_of(id: Seq<char>) -> Option<&'static str> {
    match class_of(id) {
        Some(Class::Overridable { contract, .. }) => contract,
        _ => None,
    }
}

/// The output contract an override of `id` must keep, because the run reads the output as it.
pub fn required_contract(id: &str) -> (r: Option<&'static str>)
    ensures
        r == contract_of(id@),
{
    match class(id) {
        Some(Class::Overridable { contract, .. }) => contract,
        _ => None,
    }
}

/// Whether a registry stage becomes a script host under its own id.
pub open spec fn js_host(id: Seq<char>) -> bool {
    match class_of(id) {
        None => true,
        Some(Class::Overridable { invocation, .. }) => invocation is Workflow,
        Some(Class::Reserved(_)) => false,
    }
}

/// Whether a registry stage becomes a script host under its own id.
///
/// A repository's own stage always does. A standard one does unless the run owns the name outright
/// or invokes it itself.
pub fn is_js_host(id: &str) -> (r: bool)
    ensures
        r == js_host(id@),
{
    match class(id) {
        None => true,
        Some(Class::Overridable { invocation, .. }) => matches!(invocation, Invocation::Workflow),
        Some(Class::Reserved(_)) => false,
    }
}

/// Whether the run folds a stage's output into another record instead of checkpointing it.
pub open spec fn evidence(id: Seq<char>) -> bool {
    match class_of(id) {
        Some(Class::Overridable { invocation, .. }) => invocation is AdapterEvidence,
        _ => false,
    }
}

/// Whether the run folds this stage's output into another record instead of checkpointing it.
///
/// Checkpoint-scoped behaviour is skipped for such a stage, so anything a declaration asks for there
/// (a `delegation` above all) would be accepted and then never run.
pub fn folded_as_evidence(id: &str) -> (r: bool)
    ensures
        r == evidence(id@),
{
    match class(id) {
        Some(Class::Overridable { invocation, .. }) => matches!(
            invocation,
            Invocation::AdapterEvidence
        ),
        _ => false,
    }
}

/// The clause that goes in a refusal of a stage folded as evidence, after "which is".
pub const FOLDED_AS_EVIDENCE_BECAUSE: &'static str =
    "run by a Rust adapter as evidence for another stage's checkpoint rather than checkpointed itself, so nothing would consume the child's evidence; delegate from a stage the run checkpoints";

/// Whether there is a check that a stage's output reads as the contract of this name.
pub open spec fn checked(contract: Seq<char>) -> bool {
    ||| contract == "ScoutOutput"@
    ||| contract == "AnalystOutput"@
    ||| contract == "CharacterizerOutput"@
    ||| contract == "Classification"@
    ||| contract == "Distillation"@
    ||| contract == "VerifierOutput"@
    ||| contract == "AuthoredTests"@
    ||| contract == "Report"@
}

/// Whether there is a check that a stage's output reads as the contract of this name.
pub fn has_contract_check(contract: &str) -> (r: bool)
    ensures
        r == checked(contract@),
{
    text::same(contract, "ScoutOutput")
        || text::same(contract, "AnalystOutput")
        || text::same(contract, "CharacterizerOutput")
        || text::same(contract, "Classification")
        || text::same(contract, "Distillation")
        || text::same(contract, "VerifierOutput")
        || text::same(contract, "AuthoredTests")
        || text::same(contract, "Report")
}

/// Refuses a stage's output before it is checkpointed, when the run reads that stage back as a type.
///
/// `read` is what reading the output as the stage's contract came to: nothing, or what was wrong
/// with it. A workflow's own stage id is never refused: its output shape is its own to choose.
pub fn check_typed_output(id: &str, read: Result<(), String>) -> (r: Result<(), String>)
    ensures
        match contract_of(id@) {
            None => r is Ok,
            Some(contract) => match read {
                Err(error) if checked(contract@) => r matches Err(why) && why@ == "stage `"@ + id@
                    + "` output does not deserialize as `"@ + contract@ + "`: "@ + error@,
                _ => r is Ok,
            },
        },
{
    let contract = match required_contract(id) {
        None => return Ok(()),
        Some(contract) => contract,
    };
    if !has_contract_check(contract) {
        return Ok(());
    }
    match read {
        Ok(_) => Ok(()),
        Err(error) => {
            let mut m = "stage `".to_owned();
            m.append(id);
            m.append("` output does not deserialize as `");
            m.append(contract);
            m.append("`: ");
            m.append(error.as_str());
            Err(m)
        },
    }
}

/// Every contract the run reads a stage's output as has a check: no standard stage can be classified
/// with a contract that nothing checks.
pub proof fn every_required_contract_is_checked(id: Seq<char>)
    ensures
        contract_of(id) matches Some(contract) ==> checked(contract@),
{
}

/// The three ways an identifier can be constrained exclude one another: a reserved one has no
/// contract to keep, is no script host and is not folded as evidence; one folded as evidence is no
/// script host; and an unclassified one is free of all of them.
pub proof fn classes_exclude_one_another(id: Seq<char>)
    ensures
        reservation(id) is Some ==> contract_of(id) is None && !js_host(id) && !evidence(id),
        evidence(id) ==> !js_host(id) && contract_of(id) is Some,
        class_of(id) is None ==> reservation(id) is None && contract_of(id) is None && js_host(id)
            && !evidence(id),
        governance_reservation(id) is Some ==> reservation(id) is Some,
{
}

/// The identities a run writes a checkpoint under, with no stage of that name to declare them.
///
/// These are also the names under which the *model events* for that work arrive: an
/// `implementer_attempt` turn is recorded under `implementer`, and both red-team turns under
/// `redteam`. The run checkpoints the merged gather step under `context`, and the model turn inside
/// that step governs as `context` too.
pub const RUN_CHECKPOINT_IDENTITIES: [&'static str; 3] = ["context", "implementer", "redteam"];

/// The names a run's own checkpoints can be drawn under: those it writes now, and every lifecycle
/// identity it reads back by name.
pub open spec fn drawable_identities() -> Seq<Seq<char>> {
    seq!["context"@, "implementer"@, "redteam"@, "red_team"@, "memory"@]
}

/// The names a run's own checkpoints can be drawn under.
pub fn checkpoint_identities() -> (r: Vec<String>)
    ensures
        text::views(r@) == drawable_identities(),
{
    let r: Vec<String> = vec![
        RUN_CHECKPOINT_IDENTITIES[0].to_owned(),
        RUN_CHECKPOINT_IDENTITIES[1].to_owned(),
        RUN_CHECKPOINT_IDENTITIES[2].to_owned(),
        "red_team".to_owned(),
        "memory".to_owned(),
    ];
    assert(text::views(r@) =~= drawable_identities());
    r
}

/// A name drawn for the run itself is one no workflow can declare a stage under, so one box never
/// means the run's record here and some repository's stage there; and every lifecycle identity is
/// such a name.
pub proof fn drawable_identities_are_not_declarable(id: Seq<char>)
    ensures
        drawable_identities().contains(id) ==> reservation(id) is Some,
        reservation(id) == Some(Reserved::Lifecycle) ==> drawable_identities().contains(id),
{
    identifiers_are_distinct();
    let all = drawable_identities();
    assert(all[1] == "implementer"@ && all[3] == "red_team"@ && all[4] == "memory"@);
    let known = identifiers();
    assert(known[11] == "context"@ && known[20] == "implementer"@ && known[19] == "redteam"@);
    assert(known[22] == "red_team"@ && known[21] == "memory"@);
}

/// Who owns each name, of all names there are: which the run reserves and why, which may be
/// overridden and what each must then produce, and which of those only the run itself invokes. Every
/// other name is a repository's own.
pub proof fn who_owns_each_name(id: Seq<char>)
    ensures
        reservation(id) == Some(Reserved::Operation) <==> id == "context"@ || id == "redTeam"@ || id == "implement"@ || id == "iterate"@ || id == "replanAtCeiling"@ || id == "verify"@ || id == "isConverged"@ || id == "testCommandRan"@,
        reservation(id) == Some(Reserved::Selection) <==> id == "overseer"@,
        reservation(id) == Some(Reserved::Terminal) <==> id == "bookkeeper"@ || id == "publisher"@,
        reservation(id) == Some(Reserved::GovernanceIdentity) <==> id == "redteam"@,
        reservation(id) == Some(Reserved::Lifecycle) <==> id == "implementer"@ || id == "memory"@
            || id == "red_team"@,
        reservation(id) == Some(Reserved::Record) <==> id == "issue"@ || id == "clarification"@,
        reservation(id) == Some(Reserved::InternalGate) <==> id == "referee"@,
        contract_of(id) is Some <==> id == "scout"@ || id == "analyst"@ || id == "characterizer"@ || id == "redteam_classifier"@ || id == "context_distillation"@ || id == "verifier"@ || id == "redteam_author"@ || id == "implementer_attempt"@,
        id == "scout"@ ==> contract_of(id) is Some && contract_of(id)->0@ == "ScoutOutput"@,
        id == "analyst"@ ==> contract_of(id) is Some && contract_of(id)->0@ == "AnalystOutput"@,
        id == "characterizer"@ ==> contract_of(id) is Some && contract_of(id)->0@ == "CharacterizerOutput"@,
        id == "redteam_classifier"@ ==> contract_of(id) is Some && contract_of(id)->0@ == "Classification"@,
        id == "context_distillation"@ ==> contract_of(id) is Some && contract_of(id)->0@ == "Distillation"@,
        id == "verifier"@ ==> contract_of(id) is Some && contract_of(id)->0@ == "VerifierOutput"@,
        id == "redteam_author"@ ==> contract_of(id) is Some && contract_of(id)->0@ == "AuthoredTests"@,
        id == "implementer_attempt"@ ==> contract_of(id) is Some && contract_of(id)->0@ == "Report"@,
        evidence(id) <==> id == "redteam_author"@ || id == "implementer_attempt"@,
        js_host(id) <==> reservation(id) is None && id != "verifier"@ && id != "redteam_author"@
            && id != "implementer_attempt"@,
        governance_reservation(id) is Some <==> id == "overseer"@ || id == "bookkeeper"@ || id
            == "publisher"@ || id == "issue"@ || id == "clarification"@ || id == "referee"@,
{
    identifiers_are_distinct();
    let all = identifiers();
    assert(all[0] == "scout"@);
    assert(all[1] == "analyst"@);
    assert(all[2] == "characterizer"@);
    assert(all[3] == "redteam_classifier"@);
    assert(all[4] == "context_distillation"@);
    assert(all[5] == "verifier"@);
    assert(all[6] == "redteam_author"@);
    assert(all[7] == "implementer_attempt"@);
    assert(all[8] == "overseer"@);
    assert(all[9] == "bookkeeper"@);
    assert(all[10] == "publisher"@);
    assert(all[11] == "context"@);
    assert(all[12] == "redTeam"@);
    assert(all[13] == "implement"@);
    assert(all[14] == "iterate"@);
    assert(all[15] == "replanAtCeiling"@);
    assert(all[16] == "verify"@);
    assert(all[17] == "isConverged"@);
    assert(all[18] == "testCommandRan"@);
    assert(all[19] == "redteam"@);
    assert(all[20] == "implementer"@);
    assert(all[21] == "memory"@);
    assert(all[22] == "red_team"@);
    assert(all[23] == "issue"@);
    assert(all[24] == "clarification"@);
    assert(all[25] == "referee"@);
}

} // verus!
