//! Bookkeeper: write durable memories back into the repository's memory index — the phase that makes
//! a run change what the *next* run knows.
//!
//! A model composes what the memories say; what is written, and where, is settled here. The model
//! has read authority only: every write is a call decided by this module, made by whoever drives it,
//! and answered back to it.

use vstd::prelude::*;
use vstd::string::StringExecFns;

use crate::analyst::AnalystOutput;
use crate::checkpoint;
use crate::checkpoint::Checkpoint;
use crate::config::Capability;
use crate::error::NodeError;
use crate::error::PlanError;
use crate::implementer::ImplementerOutput;
use crate::implementer::StageResources;
use crate::json;
use crate::lists;
use crate::text;
use crate::tools::Argument;
use crate::tools::ArgumentView;
use crate::tools::ToolRequest;

verus! {

broadcast use vstd::string::group_string_axioms;

/// A node that failed, and why.
#[derive(Clone, Debug)]
pub struct NodeFailure {
    pub node: String,
    pub error: String,
}

/// How much work one node's turn took.
#[derive(Clone, Debug)]
pub struct NodeEffort {
    pub node: String,
    pub turns: u64,
    pub seconds: u64,
}

/// What a run struggled with — the part of a run that its diff does not show. Derived entirely from
/// checkpoints, so a run that is still going and one that is replayed reach the same memories.
#[derive(Clone, Debug)]
pub struct RunFriction {
    /// The diagnostic each implementer iteration past the first was given.
    pub diagnostics: Vec<String>,
    /// Nodes that failed, and why.
    pub errors: Vec<NodeFailure>,
    /// How much work each node's turn took. No threshold is applied: what counts as unusual is a
    /// judgement about the repository, so the numbers are handed over as they are.
    pub effort: Vec<NodeEffort>,
}

/// A checkpointed input as it was given: the string it is the JSON of, or the text itself where it
/// is not the JSON of one.
pub open spec fn unquoted(raw: Seq<char>, read: Option<Seq<char>>) -> Seq<char> {
    match read {
        Some(inner) => inner,
        None => raw,
    }
}

/// A checkpointed input as it was given, from what was read of it.
pub fn unquote_read(raw: &str, read: Option<String>) -> (r: String)
    ensures
        r@ == unquoted(raw@, text::opt(read)),
{
    match read {
        Some(inner) => inner,
        None => raw.to_owned(),
    }
}

/// A checkpoint's input is serialized, so a plain string arrives JSON-quoted. Gives the string back,
/// rather than a quoted rendering of it.
pub fn unquote(raw: &str) -> (r: String)
    ensures
        r@ == unquoted(raw@, json::json_string(raw@)),
{
    unquote_read(raw, json::read_string(raw))
}

/// Whether a checkpoint is of an implementer pass that was given a diagnostic. The first pass was
/// given the plan; everything after it was told what the previous attempt broke.
pub open spec fn diagnosed(checkpoint: Checkpoint) -> bool {
    &&& checkpoint.node_name@ == "implementer"@
    &&& checkpoint.iteration matches Some(pass) && pass > 1
    &&& checkpoint.input_json is Some
}

/// The diagnostics a run's implementer was given.
pub open spec fn diagnostics_in(checkpoints: Seq<Checkpoint>) -> Seq<Seq<char>>
    decreases checkpoints.len(),
{
    if checkpoints.len() == 0 {
        Seq::empty()
    } else {
        let before = diagnostics_in(checkpoints.drop_last());
        let last = checkpoints.last();
        if diagnosed(last) {
            let raw = last.input_json->0@;
            before.push(unquoted(raw, json::json_string(raw)))
        } else {
            before
        }
    }
}

/// The failures a run's nodes had.
pub open spec fn errors_in(checkpoints: Seq<Checkpoint>) -> Seq<NodeFailure>
    decreases checkpoints.len(),
{
    if checkpoints.len() == 0 {
        Seq::empty()
    } else {
        let before = errors_in(checkpoints.drop_last());
        let last = checkpoints.last();
        match last.telemetry.error {
            Some(error) => before.push(NodeFailure { node: last.node_name, error }),
            None => before,
        }
    }
}

/// The work a run's nodes did, where both their turns and their time were measured.
pub open spec fn effort_in(checkpoints: Seq<Checkpoint>) -> Seq<NodeEffort>
    decreases checkpoints.len(),
{
    if checkpoints.len() == 0 {
        Seq::empty()
    } else {
        let before = effort_in(checkpoints.drop_last());
        let last = checkpoints.last();
        match (last.telemetry.turns, last.telemetry.duration_ms) {
            (Some(turns), Some(ms)) => before.push(
                NodeEffort { node: last.node_name, turns, seconds: ms / 1000 },
            ),
            _ => before,
        }
    }
}

impl RunFriction {
    /// Read a run's path out of its checkpoints.
    pub fn from_checkpoints(checkpoints: &[Checkpoint]) -> (r: RunFriction)
        ensures
            text::views(r.diagnostics@) == diagnostics_in(checkpoints@),
            r.errors@ == errors_in(checkpoints@),
            r.effort@ == effort_in(checkpoints@),
    {
        let mut diagnostics: Vec<String> = Vec::new();
        let mut errors: Vec<NodeFailure> = Vec::new();
        let mut effort: Vec<NodeEffort> = Vec::new();
        let ghost all = checkpoints@;
        let mut i: usize = 0;
        assert(text::views(diagnostics@) =~= diagnostics_in(all.take(0)));
        while i < checkpoints.len()
            invariant
                i <= checkpoints@.len(),
                all == checkpoints@,
                text::views(diagnostics@) == diagnostics_in(all.take(i as int)),
                errors@ == errors_in(all.take(i as int)),
                effort@ == effort_in(all.take(i as int)),
            decreases checkpoints@.len() - i,
        {
            let checkpoint = &checkpoints[i];
            let ghost before = diagnostics@;
            let rerun = match checkpoint.iteration {
                Some(pass) => pass > 1,
                None => false,
            };
            if rerun && text::same(checkpoint.node_name.as_str(), "implementer") {
                if let Some(input) = &checkpoint.input_json {
                    let told = unquote(input.as_str());
                    diagnostics.push(told);
                    assert(text::views(diagnostics@) =~= text::views(before).push(told@));
                }
            }
            if let Some(error) = &checkpoint.telemetry.error {
                errors.push(
                    NodeFailure { node: checkpoint.node_name.clone(), error: error.clone() },
                );
            }
            if let (Some(turns), Some(ms)) = (
                checkpoint.telemetry.turns,
                checkpoint.telemetry.duration_ms,
            ) {
                effort.push(
                    NodeEffort { node: checkpoint.node_name.clone(), turns, seconds: ms / 1000 },
                );
            }
            i += 1;
            proof {
                assert(all.take(i as int).drop_last() =~= all.take(i - 1));
                assert(all.take(i as int).last() == *checkpoint);
            }
        }
        assert(all.take(i as int) =~= all);
        RunFriction { diagnostics, errors, effort }
    }

    /// Whether the run's path holds nothing at all. Effort alone is not friction: every node reports
    /// it.
    pub open spec fn quiet(self) -> bool {
        self.diagnostics@.len() == 0 && self.errors@.len() == 0
    }

    /// Whether the run's path holds nothing at all. A run that changed nothing and hit nothing has
    /// nothing to teach; one that changed nothing after a struggle does.
    pub fn is_empty(&self) -> (r: bool)
        ensures
            r == self.quiet(),
    {
        self.diagnostics.len() == 0 && self.errors.len() == 0
    }
}

impl Default for RunFriction {
    fn default() -> (r: RunFriction)
        ensures
            r.quiet(),
            r.effort@.len() == 0,
    {
        RunFriction { diagnostics: Vec::new(), errors: Vec::new(), effort: Vec::new() }
    }
}

/// A run's friction, from what reading its checkpoints came to. Best-effort: a read that fails costs
/// the bookkeeper its richest input, and must not cost the run.
pub fn friction_of(read: Result<Vec<Checkpoint>, String>) -> (r: RunFriction)
    ensures
        match read {
            Ok(checkpoints) => text::views(r.diagnostics@) == diagnostics_in(checkpoints@)
                && r.errors@ == errors_in(checkpoints@) && r.effort@ == effort_in(checkpoints@),
            Err(_) => r.quiet() && r.effort@.len() == 0,
        },
{
    match read {
        Ok(checkpoints) => RunFriction::from_checkpoints(checkpoints.as_slice()),
        Err(_) => RunFriction::default(),
    }
}

/// A run is quiet exactly when no pass of its implementer was given a diagnostic and no node of it
/// failed, however much work its nodes did.
pub proof fn a_run_is_quiet_unless_something_went_wrong(checkpoints: Seq<Checkpoint>)
    ensures
        diagnostics_in(checkpoints).len() == 0 && errors_in(checkpoints).len() == 0 <==> (forall|
            i: int,
        |
            0 <= i < checkpoints.len() ==> !diagnosed(#[trigger] checkpoints[i])
                && checkpoints[i].telemetry.error is None),
    decreases checkpoints.len(),
{
    if checkpoints.len() > 0 {
        let front = checkpoints.drop_last();
        a_run_is_quiet_unless_something_went_wrong(front);
        assert forall|i: int| 0 <= i < front.len() implies front[i] == checkpoints[i] by {}
        if diagnostics_in(checkpoints).len() == 0 && errors_in(checkpoints).len() == 0 {
            assert forall|i: int| 0 <= i < checkpoints.len() implies !diagnosed(
                #[trigger] checkpoints[i],
            ) && checkpoints[i].telemetry.error is None by {
                if i < front.len() {
                    assert(!diagnosed(front[i]) && front[i].telemetry.error is None);
                }
            }
        }
        if forall|i: int|
            0 <= i < checkpoints.len() ==> !diagnosed(#[trigger] checkpoints[i])
                && checkpoints[i].telemetry.error is None {
            assert forall|i: int| 0 <= i < front.len() implies !diagnosed(#[trigger] front[i])
                && front[i].telemetry.error is None by {
                assert(!diagnosed(checkpoints[i]));
            }
            assert(!diagnosed(checkpoints[checkpoints.len() - 1]));
        }
    }
}

/// Tools the composing model may use to ground a memory.
pub const BOOKKEEPER_TOOLS: [&'static str; 3] = ["semantic_search", "symbol_lookup", "memory_search"];

/// What a skip says when no decision was made at all.
pub const DECIDED_NOTHING: &'static str = "the bookkeeper decided nothing";

/// Why nothing was recorded, when nothing was.
pub open spec fn skipped_because(recorded: nat, declined: Seq<Seq<char>>) -> Option<Seq<char>> {
    if recorded > 0 {
        None
    } else if declined.len() == 0 {
        Some(DECIDED_NOTHING@)
    } else {
        Some(text::joined(declined, "; "@))
    }
}

/// Why nothing was recorded, when nothing was. `None` as soon as anything was: a run that recorded
/// one memory and declined another recorded something.
pub fn skip_reason(recorded: usize, declined: &[String]) -> (r: Option<String>)
    ensures
        text::opt(r) == skipped_because(recorded as nat, text::views(declined@)),
{
    if recorded > 0 {
        return None;
    }
    assert(text::views(declined@).len() == declined@.len());
    if declined.len() == 0 {
        Some(DECIDED_NOTHING.to_owned())
    } else {
        Some(text::join(declined, "; "))
    }
}

/// The kinds of memory the index knows.
pub open spec fn kinds() -> Seq<Seq<char>> {
    seq![
        "Invariant"@,
        "Decision"@,
        "RejectedAlternative"@,
        "Risk"@,
        "BugPattern"@,
        "TestExpectation"@,
        "PerformanceNote"@,
        "SecurityNote"@,
        "FFIBoundary"@,
        "PlatformQuirk"@,
        "FollowUp"@,
        "OpenQuestion"@,
        "Concept"@,
    ]
}

/// The kinds of memory the index knows.
pub fn valid_kinds() -> (r: Vec<String>)
    ensures
        text::views(r@) == kinds(),
{
    let r: Vec<String> = vec![
        "Invariant".to_owned(),
        "Decision".to_owned(),
        "RejectedAlternative".to_owned(),
        "Risk".to_owned(),
        "BugPattern".to_owned(),
        "TestExpectation".to_owned(),
        "PerformanceNote".to_owned(),
        "SecurityNote".to_owned(),
        "FFIBoundary".to_owned(),
        "PlatformQuirk".to_owned(),
        "FollowUp".to_owned(),
        "OpenQuestion".to_owned(),
        "Concept".to_owned(),
    ];
    assert(text::views(r@) =~= kinds());
    r
}

/// The first of some kinds that a text names, whatever its case; `Decision` where it names none.
pub open spec fn kind_among(kinds: Seq<Seq<char>>, named: Seq<char>) -> Seq<char>
    decreases kinds.len(),
{
    if kinds.len() == 0 {
        "Decision"@
    } else if text::lowered(kinds[0]) == text::lowered(named) {
        kinds[0]
    } else {
        kind_among(kinds.drop_first(), named)
    }
}

/// The kind a model's word names.
pub open spec fn normalized(kind: Seq<char>) -> Seq<char> {
    kind_among(kinds(), text::trimmed(kind))
}

/// Map the model's `kind` to one the index knows, defaulting to `Decision`.
pub fn normalize_kind(kind: &str) -> (r: String)
    ensures
        r@ == normalized(kind@),
{
    let named = text::trim(kind);
    let valid = valid_kinds();
    let ghost all = text::views(valid@);
    let mut i: usize = 0;
    assert(all.skip(0) =~= all);
    while i < valid.len()
        invariant
            i <= valid@.len(),
            all == text::views(valid@),
            all == kinds(),
            named@ == text::trimmed(kind@),
            kind_among(all.skip(i as int), named@) == normalized(kind@),
        decreases valid@.len() - i,
    {
        assert(all.skip(i as int)[0] == valid@[i as int]@);
        assert(all.skip(i as int).drop_first() =~= all.skip(i + 1));
        if text::same_ignoring_case(valid[i].as_str(), named.as_str()) {
            return valid[i].clone();
        }
        i += 1;
    }
    "Decision".to_owned()
}

/// Whatever a model calls a memory, it is written under a kind the index knows.
pub proof fn a_normalized_kind_is_valid(kind: Seq<char>)
    ensures
        kinds().contains(normalized(kind)),
{
    assert(kinds()[1] == "Decision"@);
    kind_among_is_among(kinds(), text::trimmed(kind));
}

proof fn kind_among_is_among(list: Seq<Seq<char>>, named: Seq<char>)
    ensures
        kind_among(list, named) == "Decision"@ || list.contains(kind_among(list, named)),
    decreases list.len(),
{
    if list.len() > 0 {
        if text::lowered(list[0]) == text::lowered(named) {
            assert(list[0] == kind_among(list, named));
        } else {
            kind_among_is_among(list.drop_first(), named);
            let kept = kind_among(list.drop_first(), named);
            if list.drop_first().contains(kept) {
                let i = choose|i: int|
                    0 <= i < list.drop_first().len() && list.drop_first()[i] == kept;
                assert(list[i + 1] == kept);
            }
        }
    }
}

/// What the bookkeeper decided the repository's memory should say. Flat rather than a tagged union,
/// because models fill a flat shape far more reliably; the combination is validated here.
#[derive(Clone, Debug)]
pub struct MemoryDecision {
    /// `none`, `create`, or `revise`.
    pub action: String,
    /// Why this was the right call.
    pub reason: String,
    /// Which memory to rewrite, for `revise`.
    pub memory_id: Option<String>,
    /// One of the index's kinds; normalized to `Decision` if unrecognized.
    pub kind: String,
    pub title: String,
    pub body: String,
    /// The file this lesson is about. Falls back to the first touched file.
    pub anchor: Option<String>,
}

/// What the bookkeeper decided, in full. A list because one run can teach more than one thing.
#[derive(Clone, Debug)]
pub struct MemoryDecisions {
    pub decisions: Vec<MemoryDecision>,
}

/// One memory the index wrote back.
#[derive(Clone, Debug)]
pub struct MemoryWritten {
    pub kind: String,
    pub anchor: String,
    pub memory_id: String,
    pub summary: Option<String>,
}

/// The memories written plus the run's artifact fields.
#[derive(Clone, Debug)]
pub struct BookkeeperOutput {
    /// Memories created. Empty is an ordinary outcome, not a failure.
    pub memories_written: Vec<MemoryWritten>,
    /// Memories this run rewrote because it made them wrong.
    pub memories_revised: Vec<MemoryWritten>,
    /// Why nothing was recorded, when nothing was. Present exactly when both lists are empty.
    pub skipped: Option<String>,
    pub iterations: u32,
    pub residual_risk_accepted: bool,
}

/// Everything the bookkeeper composes from.
#[derive(Clone, Debug)]
pub struct BookkeeperInput {
    pub issue: String,
    pub analyst: AnalystOutput,
    pub implementer: ImplementerOutput,
    pub iterations: u32,
    /// How the run ended, as the persisted status token. Not a boolean: a run that ends `unreviewed`
    /// has green tests and no unresolved failures, and is not one that hit a wall.
    pub status: String,
    /// What the review never reached, when the run ended `unreviewed`.
    pub unchecked: Vec<String>,
    /// What the run struggled with.
    pub friction: RunFriction,
}

/// An output that records nothing, and says why.
pub open spec fn records_nothing(out: BookkeeperOutput, iterations: u32, reason: Seq<char>) -> bool {
    &&& out.memories_written@.len() == 0
    &&& out.memories_revised@.len() == 0
    &&& text::opt(out.skipped) == Some(reason)
    &&& out.iterations == iterations
    &&& !out.residual_risk_accepted
}

impl BookkeeperInput {
    /// A result that records nothing, and says why.
    pub fn nothing_recorded(&self, reason: &str) -> (r: BookkeeperOutput)
        ensures
            records_nothing(r, self.iterations, reason@),
    {
        BookkeeperOutput {
            memories_written: Vec::new(),
            memories_revised: Vec::new(),
            skipped: Some(reason.to_owned()),
            iterations: self.iterations,
            residual_risk_accepted: false,
        }
    }

    /// Whether the run changed nothing and hit nothing. A tree that came back unchanged is the same
    /// shape reached by a different route; a run that hit a wall before it touched a file is not.
    pub open spec fn uneventful(self) -> bool {
        &&& self.status@ == "converged"@ || self.status@ == "no_change_produced"@
        &&& self.implementer.touched_files@.len() == 0
        &&& text::blank(self.implementer.diff_summary@)
        &&& self.friction.quiet()
    }
}

/// The outcome when no model turn is worth spending: there is nowhere to write, or nothing to learn.
pub fn skipped_before_compose(input: &BookkeeperInput, has_memory_index: bool) -> (r: Option<
    BookkeeperOutput,
>)
    ensures
        if !has_memory_index {
            r matches Some(out) && records_nothing(
                out,
                input.iterations,
                "this repository keeps no memory index"@,
            )
        } else if input.uneventful() {
            r matches Some(out) && records_nothing(
                out,
                input.iterations,
                "the run changed nothing and hit nothing"@,
            )
        } else {
            r is None
        },
{
    if !has_memory_index {
        return Some(input.nothing_recorded("this repository keeps no memory index"));
    }
    if (text::same(input.status.as_str(), "converged") || text::same(
        input.status.as_str(),
        "no_change_produced",
    )) && input.implementer.touched_files.len() == 0 && text::is_blank(
        input.implementer.diff_summary.as_str(),
    ) && input.friction.is_empty() {
        return Some(input.nothing_recorded("the run changed nothing and hit nothing"));
    }
    None
}

/// Where a memory is bound.
#[derive(Clone, Debug)]
pub enum Binding {
    /// The file it is about.
    Path(String),
    /// The repository's root directory, for a memory about no file in particular: an unanchored
    /// memory is not accepted.
    Root,
}

/// A memory to rewrite. The body replaces the old one outright: the point of revising is that it
/// states what is true now.
#[derive(Clone, Debug)]
pub struct Revision {
    pub memory_id: String,
    pub title: Option<String>,
    pub body: String,
    /// What the revision is recorded as, once it is made.
    pub entry: MemoryWritten,
}

/// A memory to create.
#[derive(Clone, Debug)]
pub struct Creation {
    pub kind: String,
    pub title: String,
    pub body: String,
    pub tags: Vec<String>,
    pub bind: Binding,
}

/// What one decision comes to.
#[derive(Clone, Debug)]
pub enum Act {
    Revise(Revision),
    Create(Creation),
    /// Nothing is written, and this is why.
    Decline(String),
}

/// What a decline says of a revision without a target.
pub const NO_TARGET: &'static str = "a revision named no memory to rewrite";

/// What a decline says of an empty memory.
pub const EMPTY_MEMORY: &'static str = "a composed memory was empty";

/// The tags a memory of a run is given. Tagged by what actually happened, so a search for walls
/// finds walls: a run whose review could not finish is not one that could not fix its tests.
pub open spec fn tags_of(status: Seq<char>) -> Seq<Seq<char>> {
    if status == "converged"@ {
        seq!["ratatoskr"@, "bookkeeper"@]
    } else if status == "unreviewed"@ {
        seq!["ratatoskr"@, "bookkeeper"@, "unreviewed"@]
    } else {
        seq!["ratatoskr"@, "bookkeeper"@, "unresolved"@]
    }
}

/// The tags a memory of a run is given.
pub fn tags(status: &str) -> (r: Vec<String>)
    ensures
        text::views(r@) == tags_of(status@),
{
    let mut r: Vec<String> = vec!["ratatoskr".to_owned(), "bookkeeper".to_owned()];
    if text::same(status, "converged") {
    } else if text::same(status, "unreviewed") {
        r.push("unreviewed".to_owned());
    } else {
        r.push("unresolved".to_owned());
    }
    assert(text::views(r@) =~= tags_of(status@));
    r
}

/// The file a memory is about: the lesson's own first, as what a run learned is often about code it
/// did not change; then the first touched file.
pub open spec fn anchor_of(anchor: Option<String>, touched: Seq<String>) -> Option<Seq<char>> {
    match anchor {
        Some(own) if !text::blank(own@) => Some(text::trimmed(own@)),
        _ => if touched.len() > 0 {
            Some(touched[0]@)
        } else {
            None
        },
    }
}

fn anchor(own: &Option<String>, touched: &[String]) -> (r: Option<String>)
    ensures
        text::opt(r) == anchor_of(*own, touched@),
{
    if let Some(own) = own {
        if !text::is_blank(own.as_str()) {
            return Some(text::trim(own.as_str()));
        }
    }
    if touched.len() > 0 {
        Some(touched[0].clone())
    } else {
        None
    }
}

/// Where an anchor binds a memory.
pub open spec fn binds(bind: Binding, anchor: Option<Seq<char>>) -> bool {
    match anchor {
        Some(path) => bind matches Binding::Path(bound) && bound@ == path,
        None => bind is Root,
    }
}

/// What one decision comes to, given the run it was made of.
pub open spec fn decides(
    decision: MemoryDecision,
    status: Seq<char>,
    touched: Seq<String>,
    act: Act,
) -> bool {
    let action = text::lowered(text::trimmed(decision.action@));
    if action == "revise"@ {
        if (decision.memory_id matches Some(id) && id@.len() > 0) && !text::blank(decision.body@) {
            let title = if text::blank(decision.title@) {
                None
            } else {
                Some(decision.title)
            };
            act matches Act::Revise(revision) && {
                &&& revision.memory_id == decision.memory_id->0
                &&& revision.title == title
                &&& revision.body == decision.body
                &&& revision.entry.kind@ == normalized(decision.kind@)
                &&& revision.entry.anchor@.len() == 0
                &&& revision.entry.memory_id == decision.memory_id->0
                &&& revision.entry.summary == Some(
                    match title {
                        Some(title) => title,
                        None => decision.reason,
                    },
                )
            }
        } else {
            act matches Act::Decline(why) && why@ == NO_TARGET@
        }
    } else if action == "create"@ {
        if text::blank(decision.title@) || text::blank(decision.body@) {
            act matches Act::Decline(why) && why@ == EMPTY_MEMORY@
        } else {
            act matches Act::Create(creation) && {
                &&& creation.kind@ == normalized(decision.kind@)
                &&& creation.title == decision.title
                &&& creation.body == decision.body
                &&& text::views(creation.tags@) == tags_of(status)
                &&& binds(creation.bind, anchor_of(decision.anchor, touched))
            }
        }
    } else {
        act matches Act::Decline(why) && why@ == (if text::blank(decision.reason@) {
            "nothing recorded ("@ + action + ")"@
        } else {
            text::trimmed(decision.reason@)
        })
    }
}

/// Settles what one decision comes to. Anything unrecognised writes nothing: that is the safe
/// reading of a decision that cannot be read.
pub fn decide(decision: &MemoryDecision, status: &str, touched: &[String]) -> (r: Act)
    ensures
        decides(*decision, status@, touched@, r),
{
    let action = text::lower(text::trim(decision.action.as_str()).as_str());
    if text::same(action.as_str(), "revise") {
        let target = match &decision.memory_id {
            Some(id) => if id.as_str().is_empty() {
                None
            } else {
                Some(id.clone())
            },
            None => None,
        };
        match target {
            Some(id) => {
                if text::is_blank(decision.body.as_str()) {
                    return Act::Decline(NO_TARGET.to_owned());
                }
                let title = if text::is_blank(decision.title.as_str()) {
                    None
                } else {
                    Some(decision.title.clone())
                };
                let summary = match &title {
                    Some(title) => title.clone(),
                    None => decision.reason.clone(),
                };
                let nowhere = "".to_owned();
                proof {
                    reveal_strlit("");
                }
                let entry = MemoryWritten {
                    kind: normalize_kind(decision.kind.as_str()),
                    anchor: nowhere,
                    memory_id: id.clone(),
                    summary: Some(summary),
                };
                Act::Revise(Revision { memory_id: id, title, body: decision.body.clone(), entry })
            },
            None => Act::Decline(NO_TARGET.to_owned()),
        }
    } else if text::same(action.as_str(), "create") {
        if text::is_blank(decision.title.as_str()) || text::is_blank(decision.body.as_str()) {
            return Act::Decline(EMPTY_MEMORY.to_owned());
        }
        let bind = match anchor(&decision.anchor, touched) {
            Some(path) => Binding::Path(path),
            None => Binding::Root,
        };
        Act::Create(
            Creation {
                kind: normalize_kind(decision.kind.as_str()),
                title: decision.title.clone(),
                body: decision.body.clone(),
                tags: tags(status),
                bind,
            },
        )
    } else if text::is_blank(decision.reason.as_str()) {
        let mut why = "nothing recorded (".to_owned();
        why.append(action.as_str());
        why.append(")");
        Act::Decline(why)
    } else {
        Act::Decline(text::trim(decision.reason.as_str()))
    }
}

/// What the index answered to a call.
#[derive(Clone, Debug)]
pub struct ToolReply {
    pub is_error: Option<bool>,
    /// The parts of the answer's text.
    pub texts: Vec<String>,
}

impl ToolReply {
    /// What the answer says.
    pub open spec fn said(self) -> Seq<char> {
        text::joined(text::views(self.texts@), ""@)
    }

    /// Whether the answer says it is an error.
    pub open spec fn refused(self) -> bool {
        self.is_error == Some(true)
    }
}

/// What a call for `tool` came to: what the index said, or why the call failed.
pub open spec fn answered(
    tool: Seq<char>,
    reply: Result<ToolReply, String>,
    result: Result<String, NodeError>,
) -> bool {
    match reply {
        Err(error) => result matches Err(NodeError::Failed(why)) && why@ == tool + " call failed: "@
            + error@,
        Ok(reply) => if reply.refused() {
            result matches Err(NodeError::Failed(why)) && why@ == tool + " returned an error: "@
                + reply.said()
        } else {
            result matches Ok(said) && said@ == reply.said()
        },
    }
}

/// Takes the index's answer to a call for `tool`.
pub fn answer_of(tool: &str, reply: Result<ToolReply, String>) -> (r: Result<String, NodeError>)
    ensures
        answered(tool@, reply, r),
{
    match reply {
        Err(error) => {
            let mut m = tool.to_owned();
            m.append(" call failed: ");
            m.append(error.as_str());
            Err(NodeError::Failed(m))
        },
        Ok(reply) => {
            let said = text::join(reply.texts.as_slice(), "");
            let refused = match reply.is_error {
                Some(flag) => flag,
                None => false,
            };
            if refused {
                let mut m = tool.to_owned();
                m.append(" returned an error: ");
                m.append(said.as_str());
                return Err(NodeError::Failed(m));
            }
            Ok(said)
        },
    }
}

/// The id in a creation's answer: under `memory` where it stands there, else at the top.
pub open spec fn identifies(
    said: Seq<char>,
    nested: Result<Option<Option<Seq<char>>>, Seq<char>>,
    top: Result<Option<Option<Seq<char>>>, Seq<char>>,
    result: Result<String, NodeError>,
) -> bool {
    let missing = "no memory_id in memory_create response: "@ + said;
    match nested {
        Err(error) => result matches Err(NodeError::Failed(why)) && why@
            == "memory_create response not JSON ("@ + error + "); is rag-rat on --json?"@,
        Ok(Some(Some(id))) => result matches Ok(found) && found@ == id,
        Ok(Some(None)) => result matches Err(NodeError::Failed(why)) && why@ == missing,
        Ok(None) => match top {
            Ok(Some(Some(id))) => result matches Ok(found) && found@ == id,
            _ => result matches Err(NodeError::Failed(why)) && why@ == missing,
        },
    }
}

/// The id in a creation's answer, from what was read at the two places it may stand.
pub fn memory_id_read(
    said: &str,
    nested: Result<Option<Option<String>>, String>,
    top: Result<Option<Option<String>>, String>,
) -> (r: Result<String, NodeError>)
    ensures
        identifies(said@, json::found(nested), json::found(top), r),
{
    match nested {
        Err(error) => {
            let mut m = "memory_create response not JSON (".to_owned();
            m.append(error.as_str());
            m.append("); is rag-rat on --json?");
            return Err(NodeError::Failed(m));
        },
        Ok(Some(Some(id))) => return Ok(id),
        Ok(Some(None)) => {},
        Ok(None) => {
            if let Ok(Some(Some(id))) = top {
                return Ok(id);
            }
        },
    }
    let mut m = "no memory_id in memory_create response: ".to_owned();
    m.append(said);
    Err(NodeError::Failed(m))
}

/// Pull the created memory's id out of the index's JSON answer.
pub fn parse_memory_id(said: &str) -> (r: Result<String, NodeError>)
    ensures
        identifies(
            said@,
            json::json_at(text::trimmed(said@), "/memory/memory_id"@),
            json::json_at(text::trimmed(said@), "/memory_id"@),
            r,
        ),
{
    let source = text::trim(said);
    memory_id_read(
        said,
        json::read_at(source.as_str(), "/memory/memory_id"),
        json::read_at(source.as_str(), "/memory_id"),
    )
}

/// The memories a run's decisions have come to so far.
#[derive(Clone, Debug)]
pub struct MemoryApplication {
    decisions: Vec<MemoryDecision>,
    at: usize,
    written: Vec<MemoryWritten>,
    revised: Vec<MemoryWritten>,
    declined: Vec<String>,
}

/// The tool that rewrites a memory.
pub const MEMORY_UPDATE: &'static str = "memory_update";

/// The tool that creates one.
pub const MEMORY_CREATE: &'static str = "memory_create";

/// A call to make of the index.
#[derive(Clone, Debug)]
pub enum MemoryCall {
    /// By way of [`MEMORY_UPDATE`].
    Update(Revision),
    /// By way of [`MEMORY_CREATE`].
    Create(Creation),
}

/// The tool a call goes to.
pub open spec fn tool_of(call: MemoryCall) -> Seq<char> {
    match call {
        MemoryCall::Update(_) => MEMORY_UPDATE@,
        MemoryCall::Create(_) => MEMORY_CREATE@,
    }
}

/// What a call hands its tool. A revision names a title only where it changes it; a creation is
/// always bound, to its file or else to the root directory.
pub open spec fn arguments_of(call: MemoryCall) -> Seq<(Seq<char>, ArgumentView)> {
    match call {
        MemoryCall::Update(revision) => {
            let always = seq![
                ("memory_id"@, ArgumentView::Text(revision.memory_id@)),
                ("body"@, ArgumentView::Text(revision.body@)),
            ];
            match revision.title {
                Some(title) => always.push(("title"@, ArgumentView::Text(title@))),
                None => always,
            }
        },
        MemoryCall::Create(creation) => seq![
            ("kind"@, ArgumentView::Text(creation.kind@)),
            ("title"@, ArgumentView::Text(creation.title@)),
            ("body"@, ArgumentView::Text(creation.body@)),
            ("confidence"@, ArgumentView::Text("medium"@)),
            ("source"@, ArgumentView::Text("agent"@)),
            ("tags"@, ArgumentView::List(text::views(creation.tags@))),
            (
                "bind"@,
                match creation.bind {
                    Binding::Path(path) => ArgumentView::Field("path"@, path@),
                    Binding::Root => ArgumentView::Field("dir"@, ""@),
                },
            ),
        ],
    }
}

impl MemoryCall {
    /// The call as it is made: its tool, and what the tool is handed.
    pub fn request(&self) -> (r: ToolRequest)
        ensures
            r.tool@ == tool_of(*self),
            text::views(r.arguments@) == arguments_of(*self),
    {
        match self {
            MemoryCall::Update(revision) => {
                let mut arguments: Vec<(&'static str, Argument)> = vec![
                    ("memory_id", Argument::Text(revision.memory_id.clone())),
                    ("body", Argument::Text(revision.body.clone())),
                ];
                if let Some(title) = &revision.title {
                    arguments.push(("title", Argument::Text(title.clone())));
                }
                assert(text::views(arguments@) =~= arguments_of(*self));
                ToolRequest { tool: MEMORY_UPDATE, arguments }
            },
            MemoryCall::Create(creation) => {
                let bind = match &creation.bind {
                    Binding::Path(path) => Argument::Field("path", path.clone()),
                    Binding::Root => Argument::Field("dir", "".to_owned()),
                };
                let arguments: Vec<(&'static str, Argument)> = vec![
                    ("kind", Argument::Text(creation.kind.clone())),
                    ("title", Argument::Text(creation.title.clone())),
                    ("body", Argument::Text(creation.body.clone())),
                    ("confidence", Argument::Text("medium".to_owned())),
                    ("source", Argument::Text("agent".to_owned())),
                    ("tags", Argument::List(text::copies(creation.tags.as_slice()))),
                    ("bind", bind),
                ];
                assert(text::views(arguments@) =~= arguments_of(*self));
                ToolRequest { tool: MEMORY_CREATE, arguments }
            },
        }
    }
}

/// Whether a call is the one a decision asks for.
pub open spec fn calls(
    call: MemoryCall,
    decision: MemoryDecision,
    status: Seq<char>,
    touched: Seq<String>,
) -> bool {
    match call {
        MemoryCall::Update(revision) => decides(decision, status, touched, Act::Revise(revision)),
        MemoryCall::Create(creation) => decides(decision, status, touched, Act::Create(creation)),
    }
}

/// What a decision declines with; `None` where it asks for a call instead.
pub open spec fn declines(decision: MemoryDecision) -> Option<Seq<char>> {
    let action = text::lowered(text::trimmed(decision.action@));
    if action == "revise"@ {
        if (decision.memory_id matches Some(id) && id@.len() > 0) && !text::blank(decision.body@) {
            None
        } else {
            Some(NO_TARGET@)
        }
    } else if action == "create"@ {
        if text::blank(decision.title@) || text::blank(decision.body@) {
            Some(EMPTY_MEMORY@)
        } else {
            None
        }
    } else if text::blank(decision.reason@) {
        Some("nothing recorded ("@ + action + ")"@)
    } else {
        Some(text::trimmed(decision.reason@))
    }
}

/// What the declined ones among some decisions say.
pub open spec fn declined_among(decisions: Seq<MemoryDecision>) -> Seq<Seq<char>>
    decreases decisions.len(),
{
    if decisions.len() == 0 {
        Seq::empty()
    } else {
        let before = declined_among(decisions.drop_last());
        match declines(decisions.last()) {
            Some(why) => before.push(why),
            None => before,
        }
    }
}

/// How many of some decisions ask for a call.
pub open spec fn calls_among(decisions: Seq<MemoryDecision>) -> nat
    decreases decisions.len(),
{
    if decisions.len() == 0 {
        0
    } else {
        calls_among(decisions.drop_last()) + (if declines(decisions.last()) is None {
            1nat
        } else {
            0nat
        })
    }
}

impl MemoryApplication {
    /// All the decisions.
    pub closed spec fn all(self) -> Seq<MemoryDecision> {
        self.decisions@
    }

    /// How many of them are settled.
    pub closed spec fn settled(self) -> int {
        self.at as int
    }

    /// The memories created so far.
    pub closed spec fn made(self) -> Seq<MemoryWritten> {
        self.written@
    }

    /// The memories rewritten so far.
    pub closed spec fn rewritten(self) -> Seq<MemoryWritten> {
        self.revised@
    }

    /// What the decisions that wrote nothing said.
    pub closed spec fn refusals(self) -> Seq<Seq<char>> {
        text::views(self.declined@)
    }

    /// Every settled decision is accounted for: as a memory, or as a reason it is none.
    pub open spec fn well_formed(self) -> bool {
        &&& 0 <= self.settled() <= self.all().len()
        &&& self.refusals() == declined_among(self.all().take(self.settled()))
        &&& self.made().len() + self.rewritten().len() == calls_among(
            self.all().take(self.settled()),
        )
    }

    /// Nothing settled yet.
    pub fn new(decisions: Vec<MemoryDecision>) -> (r: MemoryApplication)
        ensures
            r.well_formed(),
            r.all() == decisions@,
            r.settled() == 0,
            r.made().len() == 0,
            r.rewritten().len() == 0,
    {
        let r = MemoryApplication {
            decisions,
            at: 0,
            written: Vec::new(),
            revised: Vec::new(),
            declined: Vec::new(),
        };
        assert(r.refusals() =~= declined_among(r.all().take(0)));
        r
    }

    /// The next call to make, past every decision that declines; `None` once all are settled. Each
    /// decision is independent: one that names no memory to revise, or composes an empty body, is
    /// dropped without taking the others with it.
    pub fn next(&mut self, status: &str, touched: &[String]) -> (r: Option<MemoryCall>)
        requires
            old(self).well_formed(),
        ensures
            skips_to(*old(self), *final(self), r, status@, touched@),
    {
        let ghost all = self.decisions@;
        while self.at < self.decisions.len()
            invariant
                self.well_formed(),
                self.all() == all,
                all == old(self).all(),
                self.made() == old(self).made(),
                self.rewritten() == old(self).rewritten(),
                old(self).settled() <= self.settled(),
                forall|i: int|
                    old(self).settled() <= i < self.settled() ==> declines(#[trigger] all[i]) is Some,
            decreases self.decisions@.len() - self.at,
        {
            let ghost decision = self.decisions@[self.at as int];
            let ghost before = text::views(self.declined@);
            match decide(&self.decisions[self.at], status, touched) {
                Act::Revise(revision) => return Some(MemoryCall::Update(revision)),
                Act::Create(creation) => return Some(MemoryCall::Create(creation)),
                Act::Decline(why) => {
                    let ghost said = why@;
                    self.declined.push(why);
                    self.at = self.at + 1;
                    proof {
                        assert(text::views(self.declined@) =~= before.push(said));
                        assert(all.take(self.at as int).drop_last() =~= all.take(self.at - 1));
                        assert(all.take(self.at as int).last() == decision);
                        assert(declines(decision) == Some(said));
                    }
                },
            }
        }
        None
    }

    /// Takes the index's answer to the call last asked for. An answer that is a failure settles
    /// nothing: the run's bookkeeping ends with it.
    pub fn settle(&mut self, call: MemoryCall, reply: Result<ToolReply, String>) -> (r: Result<
        (),
        NodeError,
    >)
        requires
            old(self).well_formed(),
            old(self).settled() < old(self).all().len(),
            declines(old(self).all()[old(self).settled()]) is None,
        ensures
            final(self).well_formed(),
            final(self).all() == old(self).all(),
            settles(*old(self), *final(self), call, reply, r),
    {
        let ghost all = self.decisions@;
        let ghost before = *self;
        let ghost asked = call;
        let total: usize = self.decisions.len();
        assert(self.at < total);
        match call {
            MemoryCall::Update(revision) => {
                let said = answer_of(MEMORY_UPDATE, reply);
                assert(answered(MEMORY_UPDATE@, reply, said));
                match said {
                    Ok(_) => {
                        self.revised.push(revision.entry);
                        self.at = self.at + 1;
                        assert(self.rewritten() == before.rewritten().push(revision.entry));
                    },
                    Err(error) => return Err(error),
                }
            },
            MemoryCall::Create(creation) => {
                let said = answer_of(MEMORY_CREATE, reply);
                assert(answered(MEMORY_CREATE@, reply, said));
                let body = match said {
                    Ok(body) => body,
                    Err(error) => return Err(error),
                };
                let id = parse_memory_id(body.as_str());
                assert(identifies(
                    body@,
                    json::json_at(text::trimmed(body@), "/memory/memory_id"@),
                    json::json_at(text::trimmed(body@), "/memory_id"@),
                    id,
                ));
                match id {
                    Ok(found) => {
                        self.written.push(written(creation, found));
                        self.at = self.at + 1;
                        assert(self.made().drop_last() =~= before.made());
                        assert(created(before.made(), self.made(), creation, found));
                    },
                    Err(error) => return Err(error),
                }
            },
        }
        proof {
            assert(all.take(self.at as int).drop_last() =~= all.take(self.at - 1));
            assert(all.take(self.at as int).last() == all[self.at - 1]);
            assert(settles(before, *self, asked, reply, Ok(())));
        }
        Ok(())
    }

    /// What the bookkeeper did, once every decision is settled.
    pub fn finish(self, iterations: u32) -> (r: BookkeeperOutput)
        requires
            self.well_formed(),
            self.settled() == self.all().len(),
        ensures
            finished(r, self, iterations),
    {
        assert(self.all().take(self.settled()) =~= self.all());
        let recorded: usize = if self.written.len() > 0 {
            self.written.len()
        } else {
            self.revised.len()
        };
        let skipped = skip_reason(recorded, self.declined.as_slice());
        BookkeeperOutput {
            memories_written: self.written,
            memories_revised: self.revised,
            skipped,
            iterations,
            residual_risk_accepted: false,
        }
    }
}

/// The next call after the settled decisions: every decision passed over declines, and nothing else
/// changes.
pub open spec fn skips_to(
    before: MemoryApplication,
    after: MemoryApplication,
    call: Option<MemoryCall>,
    status: Seq<char>,
    touched: Seq<String>,
) -> bool {
    &&& after.well_formed()
    &&& after.all() == before.all()
    &&& after.made() == before.made()
    &&& after.rewritten() == before.rewritten()
    &&& before.settled() <= after.settled()
    &&& forall|i: int|
        before.settled() <= i < after.settled() ==> declines(#[trigger] before.all()[i]) is Some
    &&& match call {
        Some(call) => {
            &&& after.settled() < after.all().len()
            &&& declines(after.all()[after.settled()]) is None
            &&& calls(call, after.all()[after.settled()], status, touched)
        },
        None => after.settled() == after.all().len(),
    }
}

/// What the bookkeeper did, once every decision is settled. A skip is reported exactly when nothing
/// was recorded.
pub open spec fn finished(
    out: BookkeeperOutput,
    application: MemoryApplication,
    iterations: u32,
) -> bool {
    &&& out.memories_written@ == application.made()
    &&& out.memories_revised@ == application.rewritten()
    &&& text::opt(out.skipped) == skipped_because(
        application.made().len() + application.rewritten().len(),
        declined_among(application.all()),
    )
    &&& out.iterations == iterations
    &&& !out.residual_risk_accepted
    &&& out.skipped is Some <==> out.memories_written@.len() == 0 && out.memories_revised@.len() == 0
}

/// How an answer settles a call: a failure leaves everything as it was and is handed on; otherwise
/// one more decision is settled, the memory it made or rewrote is recorded, and the decisions that
/// are left stay as they are.
pub open spec fn settles(
    before: MemoryApplication,
    after: MemoryApplication,
    call: MemoryCall,
    reply: Result<ToolReply, String>,
    r: Result<(), NodeError>,
) -> bool {
    match call {
        MemoryCall::Update(revision) => exists|said: Result<String, NodeError>|
            #[trigger] answered(MEMORY_UPDATE@, reply, said) && match said {
                Ok(_) => {
                    &&& r is Ok
                    &&& after.well_formed()
                    &&& after.all() == before.all()
                    &&& after.settled() == before.settled() + 1
                    &&& after.made() == before.made()
                    &&& after.rewritten() == before.rewritten().push(revision.entry)
                },
                Err(error) => after == before && r == Err::<(), NodeError>(error),
            },
        MemoryCall::Create(creation) => exists|said: Result<String, NodeError>|
            #[trigger] answered(MEMORY_CREATE@, reply, said) && match said {
                Ok(body) => exists|id: Result<String, NodeError>|
                    #[trigger] identifies(
                        body@,
                        json::json_at(text::trimmed(body@), "/memory/memory_id"@),
                        json::json_at(text::trimmed(body@), "/memory_id"@),
                        id,
                    ) && match id {
                        Ok(id) => {
                            &&& r is Ok
                            &&& after.well_formed()
                            &&& after.all() == before.all()
                            &&& after.settled() == before.settled() + 1
                            &&& after.rewritten() == before.rewritten()
                            &&& created(before.made(), after.made(), creation, id)
                        },
                        Err(error) => after == before && r == Err::<(), NodeError>(error),
                    },
                Err(error) => after == before && r == Err::<(), NodeError>(error),
            },
    }
}

/// What a created memory is recorded as.
fn written(creation: Creation, id: String) -> (r: MemoryWritten)
    ensures
        records(r, creation, id),
{
    let anchor = match creation.bind {
        Binding::Path(path) => path,
        Binding::Root => {
            proof {
                reveal_strlit("");
            }
            "".to_owned()
        },
    };
    MemoryWritten { kind: creation.kind, anchor, memory_id: id, summary: Some(creation.title) }
}

/// What a created memory is recorded as.
pub open spec fn records(entry: MemoryWritten, creation: Creation, id: String) -> bool {
    &&& entry.kind == creation.kind
    &&& match creation.bind {
        Binding::Path(path) => entry.anchor == path,
        Binding::Root => entry.anchor@.len() == 0,
    }
    &&& entry.memory_id == id
    &&& entry.summary == Some(creation.title)
}

/// A memory the index created, added to those it had created before.
pub open spec fn created(
    before: Seq<MemoryWritten>,
    after: Seq<MemoryWritten>,
    creation: Creation,
    id: String,
) -> bool {
    &&& after.len() == before.len() + 1
    &&& after.drop_last() == before
    &&& records(after.last(), creation, id)
}

/// Every decision comes to exactly one thing: a call of the index, or a reason there is none. Those
/// that decline and those that call add up to all of them.
pub proof fn every_decision_is_accounted_for(decisions: Seq<MemoryDecision>)
    ensures
        declined_among(decisions).len() + calls_among(decisions) == decisions.len(),
    decreases decisions.len(),
{
    if decisions.len() > 0 {
        every_decision_is_accounted_for(decisions.drop_last());
    }
}

/// What bookkeeping does next.
#[derive(Debug)]
pub enum BookkeepingStep {
    /// Run the composing turn, with no more than this.
    Compose(StageResources),
    /// Make this call of the index.
    Call(MemoryCall),
    /// Checkpoint this, and bookkeeping is done.
    Record(BookkeeperOutput),
}

/// The bookkeeping of one run, from what it composes from to what it wrote.
#[derive(Clone, Debug)]
pub struct Bookkeeping {
    input: BookkeeperInput,
    application: Option<MemoryApplication>,
}

/// What follows once the settled decisions are settled: the next call, or the whole result.
pub open spec fn goes_on(
    input: BookkeeperInput,
    before: MemoryApplication,
    after: Option<MemoryApplication>,
    step: BookkeepingStep,
) -> bool {
    match step {
        BookkeepingStep::Compose(_) => false,
        BookkeepingStep::Call(call) => after matches Some(now) && skips_to(
            before,
            now,
            Some(call),
            input.status@,
            input.implementer.touched_files@,
        ),
        BookkeepingStep::Record(out) => after is None && exists|end: MemoryApplication|
            skips_to(before, end, None, input.status@, input.implementer.touched_files@)
                && #[trigger] finished(out, end, input.iterations),
    }
}

/// The failure of bookkeeping, as the run's error.
pub open spec fn bookkeeping_failed(error: PlanError, source: NodeError) -> bool {
    error matches PlanError::Node { node, source: inner } && node@ == "bookkeeper"@ && inner == source
}

/// Bookkeeping that ends with an answer has dealt with every decision there was: each one that asks
/// for a call is recorded as a memory made or rewritten, those recorded before the answer are still
/// there, and nothing is reported as skipped.
pub proof fn an_answer_loses_no_decision(
    input: BookkeeperInput,
    before: MemoryApplication,
    now: MemoryApplication,
    call: MemoryCall,
    reply: Result<ToolReply, String>,
    out: BookkeeperOutput,
)
    requires
        settles(before, now, call, reply, Ok(())),
        goes_on(input, now, None, BookkeepingStep::Record(out)),
    ensures
        out.memories_written@.len() + out.memories_revised@.len() == calls_among(before.all()),
        before.made().is_prefix_of(out.memories_written@),
        before.rewritten().is_prefix_of(out.memories_revised@),
        out.skipped is None,
{
    let end = choose|end: MemoryApplication|
        skips_to(now, end, None, input.status@, input.implementer.touched_files@)
            && #[trigger] finished(out, end, input.iterations);
    assert(end.all().take(end.settled()) =~= end.all());
    assert(before.made() =~= out.memories_written@.take(before.made().len() as int));
    assert(before.rewritten() =~= out.memories_revised@.take(before.rewritten().len() as int));
}

/// What the composing turn may use: it reads, and asks.
pub open spec fn compose_access(resources: StageResources, repo_root: Seq<char>) -> bool {
    &&& resources.resource_root@ == repo_root
    &&& resources.capability_ceiling == Capability::Read
    &&& resources.rag_rat_worktree is None
    &&& resources.shell is None
    &&& resources.guidance is None
}

impl Bookkeeping {
    /// What it composes from.
    pub closed spec fn about(self) -> BookkeeperInput {
        self.input
    }

    /// The decisions being applied, once there are any and until they are all settled.
    pub closed spec fn applying(self) -> Option<MemoryApplication> {
        self.application
    }

    /// Whether an answer to a call is awaited.
    pub open spec fn awaiting(self) -> bool {
        self.applying() matches Some(application) && application.well_formed()
            && application.settled() < application.all().len() && declines(
            application.all()[application.settled()],
        ) is None
    }

    /// Begins the bookkeeping of a run. No turn is spent where there is nowhere to write or nothing
    /// to learn.
    pub fn begin(input: BookkeeperInput, has_memory_index: bool, repo_root: &str) -> (r: (
        Bookkeeping,
        BookkeepingStep,
    ))
        ensures
            r.0.about() == input,
            r.0.applying() is None,
            if !has_memory_index {
                r.1 matches BookkeepingStep::Record(out) && records_nothing(
                    out,
                    input.iterations,
                    "this repository keeps no memory index"@,
                )
            } else if input.uneventful() {
                r.1 matches BookkeepingStep::Record(out) && records_nothing(
                    out,
                    input.iterations,
                    "the run changed nothing and hit nothing"@,
                )
            } else {
                r.1 matches BookkeepingStep::Compose(resources) && compose_access(
                    resources,
                    repo_root@,
                )
            },
    {
        let step = match skipped_before_compose(&input, has_memory_index) {
            Some(out) => BookkeepingStep::Record(out),
            None => BookkeepingStep::Compose(
                StageResources {
                    resource_root: repo_root.to_owned(),
                    capability_ceiling: Capability::Read,
                    rag_rat_worktree: None,
                    shell: None,
                    guidance: None,
                },
            ),
        };
        (Bookkeeping { input, application: None }, step)
    }

    fn go_on(&mut self, application: MemoryApplication) -> (r: BookkeepingStep)
        requires
            application.well_formed(),
        ensures
            final(self).about() == old(self).about(),
            goes_on(old(self).about(), application, final(self).applying(), r),
            r is Call ==> final(self).awaiting(),
    {
        let mut application = application;
        let ghost before = application;
        let call = application.next(
            self.input.status.as_str(),
            self.input.implementer.touched_files.as_slice(),
        );
        match call {
            Some(call) => {
                self.application = Some(application);
                BookkeepingStep::Call(call)
            },
            None => {
                let ghost end = application;
                let out = application.finish(self.input.iterations);
                self.application = None;
                assert(finished(out, end, self.input.iterations));
                BookkeepingStep::Record(out)
            },
        }
    }

    /// Takes what the composing turn came to: the decisions its answer was read as. The outer failure
    /// is that of the turn, the inner that of reading its answer.
    pub fn composed(&mut self, turn: Result<Result<MemoryDecisions, String>, String>) -> (r: Result<
        BookkeepingStep,
        PlanError,
    >)
        ensures
            final(self).about() == old(self).about(),
            match turn {
                Ok(Ok(made)) => exists|fresh: MemoryApplication|
                    #[trigger] starts(fresh, made.decisions@) && (r matches Ok(step) && goes_on(
                        old(self).about(),
                        fresh,
                        final(self).applying(),
                        step,
                    ) && (step is Call ==> final(self).awaiting())),
                Ok(Err(error)) => r matches Err(PlanError::Node { node, source: NodeError::Failed(why) })
                    && node@ == "bookkeeper"@ && why@
                    == "bookkeeper decisions could not be reconstructed: "@ + error@,
                Err(error) => r matches Err(PlanError::Node { node, source: NodeError::Failed(why) })
                    && node@ == "bookkeeper"@ && why@ == "bookkeeper compose failed: "@ + error@,
            },
            r is Err ==> final(self).applying() == old(self).applying(),
    {
        match turn {
            Ok(Ok(made)) => {
                let fresh = MemoryApplication::new(made.decisions);
                assert(starts(fresh, made.decisions@));
                Ok(self.go_on(fresh))
            },
            Ok(Err(error)) => Err(decisions_unreadable(error.as_str())),
            Err(error) => Err(compose_failed(error.as_str())),
        }
    }

    /// Takes the index's answer to the call last asked for.
    pub fn replied(&mut self, call: MemoryCall, reply: Result<ToolReply, String>) -> (r: Result<
        BookkeepingStep,
        PlanError,
    >)
        requires
            old(self).awaiting(),
        ensures
            final(self).about() == old(self).about(),
            exists|now: MemoryApplication, settled: Result<(), NodeError>|
                #[trigger] settles(old(self).applying()->0, now, call, reply, settled) && match settled {
                    Ok(_) => r matches Ok(step) && goes_on(
                        old(self).about(),
                        now,
                        final(self).applying(),
                        step,
                    ) && (step is Call ==> final(self).awaiting()),
                    Err(source) => r matches Err(error) && bookkeeping_failed(error, source),
                },
            r is Err ==> final(self).applying() is None,
    {
        let mut application = self.application.take().unwrap();
        let settled = application.settle(call, reply);
        assert(settles(old(self).applying()->0, application, call, reply, settled));
        match settled {
            Ok(_) => Ok(self.go_on(application)),
            Err(source) => Err(PlanError::Node { node: "bookkeeper", source }),
        }
    }
}

/// Decisions of which none is settled.
pub open spec fn starts(application: MemoryApplication, decisions: Seq<MemoryDecision>) -> bool {
    &&& application.well_formed()
    &&& application.all() == decisions
    &&& application.settled() == 0
    &&& application.made().len() == 0
    &&& application.rewritten().len() == 0
}

/// The failure of a compose turn.
pub fn compose_failed(error: &str) -> (r: PlanError)
    ensures
        r matches PlanError::Node { node, source: NodeError::Failed(why) } && node@ == "bookkeeper"@
            && why@ == "bookkeeper compose failed: "@ + error@,
{
    let mut m = "bookkeeper compose failed: ".to_owned();
    m.append(error);
    PlanError::Node { node: "bookkeeper", source: NodeError::Failed(m) }
}

/// The failure of decisions that could not be read back.
pub fn decisions_unreadable(error: &str) -> (r: PlanError)
    ensures
        r matches PlanError::Node { node, source: NodeError::Failed(why) } && node@ == "bookkeeper"@
            && why@ == "bookkeeper decisions could not be reconstructed: "@ + error@,
{
    let mut m = "bookkeeper decisions could not be reconstructed: ".to_owned();
    m.append(error);
    PlanError::Node { node: "bookkeeper", source: NodeError::Failed(m) }
}

/// What a replay composes from: the run's own checkpoints, with its analyst's and implementer's
/// outputs as they were read back. A run with no recorded status ended at its iteration limit.
pub fn replay_input(
    checkpoints: &[Checkpoint],
    analyst: AnalystOutput,
    implementer: ImplementerOutput,
    status: Option<String>,
    unchecked: Vec<String>,
) -> (r: BookkeeperInput)
    ensures
        r.issue@ == checkpoint::run_issue(checkpoints@),
        r.analyst == analyst,
        r.implementer == implementer,
        r.iterations == checkpoint::of(checkpoints@, "implementer"@).len() % 0x1_0000_0000,
        r.status@ == match status {
            Some(status) => status@,
            None => MAX_ITERATIONS_REACHED@,
        },
        r.unchecked == unchecked,
        text::views(r.friction.diagnostics@) == diagnostics_in(checkpoints@),
        r.friction.errors@ == errors_in(checkpoints@),
        r.friction.effort@ == effort_in(checkpoints@),
{
    let passes: usize = checkpoint::count(checkpoints, "implementer");
    let iterations: u64 = passes as u64 % 0x1_0000_0000;
    BookkeeperInput {
        issue: checkpoint::issue(checkpoints),
        analyst,
        implementer,
        iterations: iterations as u32,
        status: match status {
            Some(status) => status,
            None => MAX_ITERATIONS_REACHED.to_owned(),
        },
        unchecked,
        friction: RunFriction::from_checkpoints(checkpoints),
    }
}

/// The status of a run that ended at its iteration limit.
pub const MAX_ITERATIONS_REACHED: &'static str = "max_iterations_reached";

/// The diagnostics of a run are what every implementer pass after the first was given, in order: those of
/// all of them that recorded an input, and of no other node.
pub proof fn every_later_pass_tells_its_diagnostic(list: Seq<Checkpoint>)
    ensures
        lists::gathered(diagnostics_in(list), list, |c: Checkpoint| c.node_name@ == "implementer"@ && c.iteration is Some && c.iteration->0 > 1 && c.input_json is Some, |c: Checkpoint| match json::json_string(c.input_json->0@) { Some(inner) => inner, None => c.input_json->0@ }),
{
    let gives = |c: Checkpoint| c.node_name@ == "implementer"@ && c.iteration is Some && c.iteration->0 > 1 && c.input_json is Some;
    let what = |c: Checkpoint| match json::json_string(c.input_json->0@) { Some(inner) => inner, None => c.input_json->0@ };
    diagnostics_in_is_gathered(list, gives, what);
    lists::going_through_gathers(list, gives, what);
}

proof fn diagnostics_in_is_gathered(
    list: Seq<Checkpoint>,
    gives: spec_fn(Checkpoint) -> bool,
    what: spec_fn(Checkpoint) -> Seq<char>,
)
    requires
        gives == (|c: Checkpoint| c.node_name@ == "implementer"@ && c.iteration is Some && c.iteration->0 > 1 && c.input_json is Some),
        what == (|c: Checkpoint| match json::json_string(c.input_json->0@) { Some(inner) => inner, None => c.input_json->0@ }),
    ensures
        diagnostics_in(list) == lists::gather(list, gives, what),
    decreases list.len(),
{
    if list.len() > 0 {
        diagnostics_in_is_gathered(list.drop_last(), gives, what);
    }
}

/// The failures of a run are those of every checkpoint that reports one, in order, with the node it is of.
pub proof fn every_failed_node_is_told(list: Seq<Checkpoint>)
    ensures
        lists::gathered(errors_in(list), list, |c: Checkpoint| c.telemetry.error is Some, |c: Checkpoint| NodeFailure { node: c.node_name, error: c.telemetry.error->0 }),
{
    let gives = |c: Checkpoint| c.telemetry.error is Some;
    let what = |c: Checkpoint| NodeFailure { node: c.node_name, error: c.telemetry.error->0 };
    errors_in_is_gathered(list, gives, what);
    lists::going_through_gathers(list, gives, what);
}

proof fn errors_in_is_gathered(
    list: Seq<Checkpoint>,
    gives: spec_fn(Checkpoint) -> bool,
    what: spec_fn(Checkpoint) -> NodeFailure,
)
    requires
        gives == (|c: Checkpoint| c.telemetry.error is Some),
        what == (|c: Checkpoint| NodeFailure { node: c.node_name, error: c.telemetry.error->0 }),
    ensures
        errors_in(list) == lists::gather(list, gives, what),
    decreases list.len(),
{
    if list.len() > 0 {
        errors_in_is_gathered(list.drop_last(), gives, what);
    }
}

/// The effort of a run is that of every checkpoint with both its turns and its time, in order, the time
/// in whole seconds.
pub proof fn every_measured_turn_is_told(list: Seq<Checkpoint>)
    ensures
        lists::gathered(effort_in(list), list, |c: Checkpoint| c.telemetry.turns is Some && c.telemetry.duration_ms is Some, |c: Checkpoint| NodeEffort { node: c.node_name, turns: c.telemetry.turns->0, seconds: c.telemetry.duration_ms->0 / 1000 }),
{
    let gives = |c: Checkpoint| c.telemetry.turns is Some && c.telemetry.duration_ms is Some;
    let what = |c: Checkpoint| NodeEffort { node: c.node_name, turns: c.telemetry.turns->0, seconds: c.telemetry.duration_ms->0 / 1000 };
    effort_in_is_gathered(list, gives, what);
    lists::going_through_gathers(list, gives, what);
}

proof fn effort_in_is_gathered(
    list: Seq<Checkpoint>,
    gives: spec_fn(Checkpoint) -> bool,
    what: spec_fn(Checkpoint) -> NodeEffort,
)
    requires
        gives == (|c: Checkpoint| c.telemetry.turns is Some && c.telemetry.duration_ms is Some),
        what == (|c: Checkpoint| NodeEffort { node: c.node_name, turns: c.telemetry.turns->0, seconds: c.telemetry.duration_ms->0 / 1000 }),
    ensures
        effort_in(list) == lists::gather(list, gives, what),
    decreases list.len(),
{
    if list.len() > 0 {
        effort_in_is_gathered(list.drop_last(), gives, what);
    }
}

/// Friction is a diagnostic or a failure: a run with any of either is not quiet, and effort alone is
/// none.
pub proof fn effort_alone_is_no_friction(friction: RunFriction)
    ensures
        friction.quiet() <==> friction.diagnostics@.len() == 0 && friction.errors@.len() == 0,
{
}

/// The kinds of memory there are: these thirteen.
pub proof fn these_kinds_are_known(kind: Seq<char>)
    ensures
        kinds().contains(kind) <==> kind == "Invariant"@ || kind == "Decision"@ || kind
            == "RejectedAlternative"@ || kind == "Risk"@ || kind == "BugPattern"@ || kind
            == "TestExpectation"@ || kind == "PerformanceNote"@ || kind == "SecurityNote"@ || kind
            == "FFIBoundary"@ || kind == "PlatformQuirk"@ || kind == "FollowUp"@ || kind
            == "OpenQuestion"@ || kind == "Concept"@,
{
    let all = kinds();
    assert(all[0] == "Invariant"@ && all[1] == "Decision"@ && all[2] == "RejectedAlternative"@);
    assert(all[3] == "Risk"@ && all[4] == "BugPattern"@ && all[5] == "TestExpectation"@);
    assert(all[6] == "PerformanceNote"@ && all[7] == "SecurityNote"@ && all[8] == "FFIBoundary"@);
    assert(all[9] == "PlatformQuirk"@ && all[10] == "FollowUp"@ && all[11] == "OpenQuestion"@);
    assert(all[12] == "Concept"@);
}

/// A word names a kind exactly when it is that kind but for case and the space around it, and the
/// first such kind is what it comes to; a word that names none comes to a decision.
pub proof fn a_word_names_the_kind_it_spells(kind: Seq<char>)
    ensures
        forall|i: int|
            0 <= i < kinds().len() && text::lowered(#[trigger] kinds()[i]) == text::lowered(
                text::trimmed(kind),
            ) && (forall|j: int|
                0 <= j < i ==> text::lowered(#[trigger] kinds()[j]) != text::lowered(
                    text::trimmed(kind),
                )) ==> normalized(kind) == kinds()[i],
        (forall|i: int|
            0 <= i < kinds().len() ==> text::lowered(#[trigger] kinds()[i]) != text::lowered(
                text::trimmed(kind),
            )) ==> normalized(kind) == "Decision"@,
{
    let all = kinds();
    let named = text::trimmed(kind);
    assert forall|i: int|
        0 <= i < all.len() && text::lowered(#[trigger] all[i]) == text::lowered(named) && (forall|
            j: int,
        |
            0 <= j < i ==> text::lowered(#[trigger] all[j]) != text::lowered(named)) implies normalized(
        kind) == all[i] by {
        the_first_kind_named(all, named, i);
    }
    if forall|i: int| 0 <= i < all.len() ==> text::lowered(#[trigger] all[i]) != text::lowered(named) {
        the_first_kind_named(all, named, all.len() as int);
    }
}

proof fn the_first_kind_named(list: Seq<Seq<char>>, named: Seq<char>, i: int)
    requires
        0 <= i <= list.len(),
        i < list.len() ==> text::lowered(list[i]) == text::lowered(named),
        forall|j: int| 0 <= j < i ==> text::lowered(#[trigger] list[j]) != text::lowered(named),
    ensures
        kind_among(list, named) == (if i < list.len() {
            list[i]
        } else {
            "Decision"@
        }),
    decreases list.len(),
{
    if i > 0 {
        let rest = list.drop_first();
        assert(text::lowered(list[0]) != text::lowered(named));
        assert forall|j: int| 0 <= j < i - 1 implies text::lowered(#[trigger] rest[j])
            != text::lowered(named) by {
            assert(rest[j] == list[j + 1]);
        }
        if i < list.len() {
            assert(rest[i - 1] == list[i]);
        }
        the_first_kind_named(rest, named, i - 1);
    }
}

/// Why nothing was recorded is said exactly where nothing was, and says every decline there was.
pub proof fn a_skip_says_every_decline(recorded: nat, declined: Seq<Seq<char>>)
    ensures
        skipped_because(recorded, declined) is Some <==> recorded == 0,
        recorded == 0 && declined.len() > 0 ==> skipped_because(recorded, declined) == Some(
            text::joined(declined, "; "@),
        ),
        recorded == 0 && declined.len() == 0 ==> skipped_because(recorded, declined) == Some(
            "the bookkeeper decided nothing"@,
        ),
{
}

/// Whether a decision asks to rewrite a memory it names, with something to say.
pub open spec fn aims(decision: MemoryDecision) -> bool {
    &&& text::lowered(text::trimmed(decision.action@)) == "revise"@
    &&& decision.memory_id is Some && decision.memory_id->0@.len() > 0
    &&& !text::blank(decision.body@)
}

/// Whether a decision asks for a new memory, with a title and something to say.
pub open spec fn composes(decision: MemoryDecision) -> bool {
    &&& text::lowered(text::trimmed(decision.action@)) == "create"@
    &&& !text::blank(decision.title@)
    &&& !text::blank(decision.body@)
}

/// What a decision comes to. It rewrites exactly where it asks to, names a memory and has something to
/// say; it creates exactly where it asks to and has a title and something to say; and otherwise it
/// declines. What is written is what was decided, and nothing of it is left out.
pub proof fn a_decision_is_carried_out_as_it_was_made(
    decision: MemoryDecision,
    status: Seq<char>,
    touched: Seq<String>,
    act: Act,
)
    requires
        decides(decision, status, touched, act),
    ensures
        act is Revise <==> aims(decision),
        act is Create <==> composes(decision),
        act is Decline <==> declines(decision) is Some,
        act is Decline ==> act->Decline_0@ == declines(decision)->0,
        declines(decision) is None <==> aims(decision) || composes(decision),
        act is Revise ==> {
            let revision = act->Revise_0;
            &&& revision.memory_id@ == decision.memory_id->0@
            &&& revision.body@ == decision.body@
            &&& revision.title is Some <==> !text::blank(decision.title@)
            &&& revision.title is Some ==> revision.title->0@ == decision.title@
            &&& revision.entry.kind@ == normalized(decision.kind@)
            &&& revision.entry.memory_id@ == decision.memory_id->0@
            &&& revision.entry.anchor@.len() == 0
            &&& revision.entry.summary is Some
            &&& revision.entry.summary->0@ == (if text::blank(decision.title@) {
                decision.reason@
            } else {
                decision.title@
            })
        },
        act is Create ==> {
            let creation = act->Create_0;
            let own = decision.anchor is Some && !text::blank(decision.anchor->0@);
            &&& creation.kind@ == normalized(decision.kind@)
            &&& creation.title@ == decision.title@
            &&& creation.body@ == decision.body@
            &&& creation.bind is Root <==> !own && touched.len() == 0
            &&& own ==> creation.bind is Path && creation.bind->Path_0@ == text::trimmed(
                decision.anchor->0@,
            )
            &&& !own && touched.len() > 0 ==> creation.bind is Path && creation.bind->Path_0@
                == touched[0]@
            &&& creation.tags@.len() == (if status == "converged"@ {
                2nat
            } else {
                3nat
            })
            &&& creation.tags@[0]@ == "ratatoskr"@ && creation.tags@[1]@ == "bookkeeper"@
            &&& status != "converged"@ ==> creation.tags@[2]@ == (if status == "unreviewed"@ {
                "unreviewed"@
            } else {
                "unresolved"@
            })
        },
{
    reveal_strlit("revise");
    reveal_strlit("create");
    assert("revise"@[0] != "create"@[0]);
    if act is Create {
        let tags = text::views(act->Create_0.tags@);
        assert(tags.len() == act->Create_0.tags@.len());
        assert(tags[0] == act->Create_0.tags@[0]@ && tags[1] == act->Create_0.tags@[1]@);
        if status != "converged"@ {
            assert(tags[2] == act->Create_0.tags@[2]@);
        }
    }
}

/// The decisions that ask for a call are counted, each of them; and what every other one says is kept,
/// in order.
pub proof fn every_decision_calls_or_declines(decisions: Seq<MemoryDecision>)
    ensures
        lists::gathered(
            declined_among(decisions),
            decisions,
            |d: MemoryDecision| declines(d) is Some,
            |d: MemoryDecision| declines(d)->0,
        ),
        lists::amount(
            calls_among(decisions) as int,
            decisions.len() as int,
            lists::each(decisions, |d: MemoryDecision| aims(d) || composes(d)),
        ),
{
    let gives = |d: MemoryDecision| declines(d) is Some;
    let what = |d: MemoryDecision| declines(d)->0;
    declined_among_is_gathered(decisions, gives, what);
    lists::going_through_gathers(decisions, gives, what);
    let asks = |d: MemoryDecision| aims(d) || composes(d);
    let at = calls_have_places(decisions, asks);
    assert(lists::places(at, decisions.len() as int, lists::each(decisions, asks)));
}

proof fn declined_among_is_gathered(
    decisions: Seq<MemoryDecision>,
    gives: spec_fn(MemoryDecision) -> bool,
    what: spec_fn(MemoryDecision) -> Seq<char>,
)
    requires
        gives == (|d: MemoryDecision| declines(d) is Some),
        what == (|d: MemoryDecision| declines(d)->0),
    ensures
        declined_among(decisions) == lists::gather(decisions, gives, what),
    decreases decisions.len(),
{
    if decisions.len() > 0 {
        declined_among_is_gathered(decisions.drop_last(), gives, what);
    }
}

proof fn calls_have_places(
    decisions: Seq<MemoryDecision>,
    asks: spec_fn(MemoryDecision) -> bool,
) -> (at: Seq<int>)
    requires
        asks == (|d: MemoryDecision| aims(d) || composes(d)),
    ensures
        lists::places(at, decisions.len() as int, lists::each(decisions, asks)),
        at.len() == calls_among(decisions),
    decreases decisions.len(),
{
    if decisions.len() == 0 {
        Seq::empty()
    } else {
        let front = decisions.drop_last();
        let n = front.len() as int;
        let before = calls_have_places(front, asks);
        lists::places_grow(before, n, lists::each(front, asks), lists::each(decisions, asks));
        reveal_strlit("revise");
        reveal_strlit("create");
        assert("revise"@[0] != "create"@[0]);
        assert(asks(decisions.last()) <==> declines(decisions.last()) is None);
        lists::grown(before, n, lists::each(decisions, asks)(n))
    }
}

/// A call came to something exactly where it was made and the index did not call it an error, and then
/// to all the parts of what the index said, in order.
pub proof fn a_call_comes_to_what_the_index_said(
    tool: Seq<char>,
    reply: Result<ToolReply, String>,
    result: Result<String, NodeError>,
)
    requires
        answered(tool, reply, result),
    ensures
        result is Ok <==> reply is Ok && reply->Ok_0.is_error != Some(true),
        result is Ok ==> result->Ok_0@ == text::joined(text::views(reply->Ok_0.texts@), ""@),
        result is Err ==> result->Err_0 is Failed,
{
}

/// A creation's answer identifies a memory by the string under `memory`; only where nothing at all
/// stands there, by the one at the top; and otherwise by none.
pub proof fn an_id_is_looked_for_in_two_places(
    said: Seq<char>,
    nested: Result<Option<Option<Seq<char>>>, Seq<char>>,
    top: Result<Option<Option<Seq<char>>>, Seq<char>>,
    result: Result<String, NodeError>,
)
    requires
        identifies(said, nested, top, result),
    ensures
        ({
            let there = nested is Ok && nested->Ok_0 is Some;
            let own = there && nested->Ok_0->0 is Some;
            let above = nested is Ok && nested->Ok_0 is None && top is Ok && top->Ok_0 is Some
                && top->Ok_0->0 is Some;
            &&& result is Ok <==> own || above
            &&& own ==> result->Ok_0@ == nested->Ok_0->0->0
            &&& above ==> result->Ok_0@ == top->Ok_0->0->0
            &&& result is Err ==> result->Err_0 is Failed
            &&& nested is Err ==> result->Err_0->Failed_0@ == "memory_create response not JSON ("@
                + nested->Err_0 + "); is rag-rat on --json?"@
            &&& nested is Ok && result is Err ==> result->Err_0->Failed_0@
                == "no memory_id in memory_create response: "@ + said
        }),
{
}

/// What bookkeeping records is everything that was made and everything that was rewritten, the run's
/// own count of passes, and a reason for recording nothing exactly where nothing was recorded.
pub proof fn a_record_says_what_was_done(
    out: BookkeeperOutput,
    application: MemoryApplication,
    iterations: u32,
)
    requires
        finished(out, application, iterations),
    ensures
        out.memories_written@ == application.made(),
        out.memories_revised@ == application.rewritten(),
        out.iterations == iterations,
        !out.residual_risk_accepted,
        out.skipped is Some <==> application.made().len() == 0 && application.rewritten().len() == 0,
        out.skipped is Some && declined_among(application.all()).len() > 0 ==> out.skipped->0@
            == text::joined(declined_among(application.all()), "; "@),
{
}

/// A run teaches nothing exactly when it came to a quiet end, touched nothing, has a blank diff, and
/// met no friction.
pub proof fn only_a_quiet_run_teaches_nothing(input: BookkeeperInput)
    ensures
        input.uneventful() <==> {
            &&& input.status@ == "converged"@ || input.status@ == "no_change_produced"@
            &&& input.implementer.touched_files@.len() == 0
            &&& text::blank(input.implementer.diff_summary@)
            &&& input.friction.diagnostics@.len() == 0
            &&& input.friction.errors@.len() == 0
        },
{
}

/// An output that records nothing holds no memory of either kind and says the reason it was given.
pub proof fn an_empty_record_says_its_reason(
    out: BookkeeperOutput,
    iterations: u32,
    reason: Seq<char>,
)
    requires
        records_nothing(out, iterations, reason),
    ensures
        out.memories_written@.len() == 0,
        out.memories_revised@.len() == 0,
        out.skipped is Some && out.skipped->0@ == reason,
        out.iterations == iterations,
        !out.residual_risk_accepted,
{
}

/// What a call hands the index. A rewriting hands over which memory it is and what it says now, and a
/// title exactly where it has one; a creation hands over its kind, title, body and tags, that an agent
/// made it with middling confidence, and where it is bound: its file, or the root.
pub proof fn a_call_hands_over_everything(call: MemoryCall)
    ensures
        call is Update ==> {
            let revision = call->Update_0;
            let given = arguments_of(call);
            &&& tool_of(call) == "memory_update"@
            &&& given.contains(("memory_id"@, ArgumentView::Text(revision.memory_id@)))
            &&& given.contains(("body"@, ArgumentView::Text(revision.body@)))
            &&& revision.title is Some ==> given.len() == 3 && given.contains(
                ("title"@, ArgumentView::Text(revision.title->0@)),
            )
            &&& revision.title is None ==> given.len() == 2
        },
        call is Create ==> {
            let creation = call->Create_0;
            let given = arguments_of(call);
            &&& tool_of(call) == "memory_create"@
            &&& given.len() == 7
            &&& given.contains(("kind"@, ArgumentView::Text(creation.kind@)))
            &&& given.contains(("title"@, ArgumentView::Text(creation.title@)))
            &&& given.contains(("body"@, ArgumentView::Text(creation.body@)))
            &&& given.contains(("confidence"@, ArgumentView::Text("medium"@)))
            &&& given.contains(("source"@, ArgumentView::Text("agent"@)))
            &&& given.contains(("tags"@, ArgumentView::List(text::views(creation.tags@))))
            &&& creation.bind is Path ==> given.contains(
                ("bind"@, ArgumentView::Field("path"@, creation.bind->Path_0@)),
            )
            &&& creation.bind is Root ==> given.contains(
                ("bind"@, ArgumentView::Field("dir"@, ""@)),
            )
        },
{
    let given = arguments_of(call);
    match call {
        MemoryCall::Update(revision) => {
            assert(given[0] == ("memory_id"@, ArgumentView::Text(revision.memory_id@)));
            assert(given[1] == ("body"@, ArgumentView::Text(revision.body@)));
            if revision.title is Some {
                assert(given[2] == ("title"@, ArgumentView::Text(revision.title->0@)));
            }
        },
        MemoryCall::Create(creation) => {
            assert(given[0] == ("kind"@, ArgumentView::Text(creation.kind@)));
            assert(given[1] == ("title"@, ArgumentView::Text(creation.title@)));
            assert(given[2] == ("body"@, ArgumentView::Text(creation.body@)));
            assert(given[3] == ("confidence"@, ArgumentView::Text("medium"@)));
            assert(given[4] == ("source"@, ArgumentView::Text("agent"@)));
            assert(given[5] == ("tags"@, ArgumentView::List(text::views(creation.tags@))));
            assert(given[6].0 == "bind"@);
            assert(given.contains(given[6]));
        },
    }
}

/// An answer settles exactly one decision, keeps all the others and everything recorded before, and adds
/// exactly the memory that was rewritten, as it was decided, or made, under the id the index gave it. An
/// answer that is a failure changes nothing at all.
pub proof fn an_answer_settles_one_decision(
    before: MemoryApplication,
    after: MemoryApplication,
    call: MemoryCall,
    reply: Result<ToolReply, String>,
    r: Result<(), NodeError>,
)
    requires
        settles(before, after, call, reply, r),
    ensures
        r is Err ==> after == before,
        r is Ok ==> reply is Ok && reply->Ok_0.is_error != Some(true),
        r is Ok ==> {
            &&& after.settled() == before.settled() + 1
            &&& after.all() == before.all()
            &&& after.well_formed()
        },
        r is Ok && call is Update ==> {
            &&& after.made() == before.made()
            &&& after.rewritten() == before.rewritten().push(call->Update_0.entry)
        },
        r is Ok && call is Create ==> {
            &&& after.rewritten() == before.rewritten()
            &&& after.made().len() == before.made().len() + 1
            &&& after.made().drop_last() == before.made()
            &&& after.made().last().kind@ == call->Create_0.kind@
            &&& exists|said: Result<String, NodeError>, id: Result<String, NodeError>|
                #![trigger answered("memory_create"@, reply, said), identifies(
                    said->Ok_0@,
                    json::json_at(text::trimmed(said->Ok_0@), "/memory/memory_id"@),
                    json::json_at(text::trimmed(said->Ok_0@), "/memory_id"@),
                    id,
                )]
                {
                    &&& answered("memory_create"@, reply, said)
                    &&& said is Ok
                    &&& identifies(
                        said->Ok_0@,
                        json::json_at(text::trimmed(said->Ok_0@), "/memory/memory_id"@),
                        json::json_at(text::trimmed(said->Ok_0@), "/memory_id"@),
                        id,
                    )
                    &&& id is Ok
                    &&& after.made().last().memory_id == id->Ok_0
                }
            &&& after.made().last().summary is Some
            &&& after.made().last().summary->0@ == call->Create_0.title@
            &&& call->Create_0.bind is Path ==> after.made().last().anchor@
                == call->Create_0.bind->Path_0@
            &&& call->Create_0.bind is Root ==> after.made().last().anchor@.len() == 0
        },
{
}

/// Going on passes over nothing but decisions that decline, changes nothing that was recorded, and stops
/// at the first decision that asks for a call, or after the last.
pub proof fn going_on_passes_over_declines_alone(
    before: MemoryApplication,
    after: MemoryApplication,
    call: Option<MemoryCall>,
    status: Seq<char>,
    touched: Seq<String>,
)
    requires
        skips_to(before, after, call, status, touched),
    ensures
        after.all() == before.all(),
        after.made() == before.made(),
        after.rewritten() == before.rewritten(),
        before.settled() <= after.settled() <= after.all().len(),
        forall|i: int|
            before.settled() <= i < after.settled() ==> !aims(#[trigger] before.all()[i]) && !composes(
                before.all()[i],
            ),
        call is None <==> after.settled() == after.all().len(),
        call is Some ==> {
            let decision = after.all()[after.settled()];
            &&& aims(decision) || composes(decision)
            &&& call->0 is Update ==> aims(decision) && call->0->Update_0.memory_id@
                == decision.memory_id->0@ && call->0->Update_0.body@ == decision.body@
            &&& call->0 is Create ==> composes(decision) && call->0->Create_0.title@
                == decision.title@ && call->0->Create_0.body@ == decision.body@
        },
{
    reveal_strlit("revise");
    reveal_strlit("create");
    assert("revise"@[0] != "create"@[0]);
    assert forall|i: int| before.settled() <= i < after.settled() implies !aims(
        #[trigger] before.all()[i],
    ) && !composes(before.all()[i]) by {
        assert(declines(before.all()[i]) is Some);
    }
}

/// Bookkeeping begins with every decision that was made, none of them settled and nothing recorded.
pub proof fn bookkeeping_begins_with_every_decision(
    application: MemoryApplication,
    decisions: Seq<MemoryDecision>,
)
    requires
        starts(application, decisions),
    ensures
        application.all() == decisions,
        application.settled() == 0,
        application.made().len() == 0,
        application.rewritten().len() == 0,
        application.well_formed(),
{
}

/// Of the decisions that are settled, each came to a memory that was made or rewritten or was
/// declined, and none came to two of them.
pub proof fn what_is_settled_was_recorded_or_declined(application: MemoryApplication)
    requires
        application.well_formed(),
    ensures
        0 <= application.settled() <= application.all().len(),
        application.made().len() + application.rewritten().len() + application.refusals().len()
            == application.settled(),
        forall|i: int|
            0 <= i < application.settled() && declines(#[trigger] application.all()[i]) is Some
                ==> application.refusals().contains(declines(application.all()[i])->0),
{
    let settled = application.all().take(application.settled());
    every_decision_is_accounted_for(settled);
    assert forall|i: int|
        0 <= i < application.settled() && declines(
            #[trigger] application.all()[i],
        ) is Some implies application.refusals().contains(declines(application.all()[i])->0) by {
        assert(settled[i] == application.all()[i]);
        a_decline_is_among_them(settled, i);
    }
}

proof fn a_decline_is_among_them(decisions: Seq<MemoryDecision>, i: int)
    requires
        0 <= i < decisions.len(),
        declines(decisions[i]) is Some,
    ensures
        declined_among(decisions).contains(declines(decisions[i])->0),
    decreases decisions.len(),
{
    let front = decisions.drop_last();
    let all = declined_among(decisions);
    let before = declined_among(front);
    let why = declines(decisions[i])->0;
    if i < front.len() {
        assert(front[i] == decisions[i]);
        a_decline_is_among_them(front, i);
        let k = choose|k: int| 0 <= k < before.len() && before[k] == why;
        assert(all[k] == why);
    } else {
        assert(all.last() == why);
    }
}

/// The composing turn reads within the repository, and may neither write, nor run a command, nor look at
/// another tree.
pub proof fn composing_only_reads(resources: StageResources, repo_root: Seq<char>)
    requires
        compose_access(resources, repo_root),
    ensures
        resources.resource_root@ == repo_root,
        resources.capability_ceiling == Capability::Read,
        resources.rag_rat_worktree is None,
        resources.shell is None,
        resources.guidance is None,
{
}

/// A text that reads as one JSON string is the string it holds, and any other stays as it is.
pub proof fn only_a_quoted_text_is_unquoted(raw: Seq<char>, read: Option<Seq<char>>)
    ensures
        read is Some ==> unquoted(raw, read) == read->0,
        read is None ==> unquoted(raw, read) == raw,
{
}

/// Bookkeeping goes on with a call, or ends with what it recorded, and never composes twice. With a
/// call there is still a decision to settle; at the end every decision is settled, and what is recorded
/// is every memory made and every one rewritten.
pub proof fn bookkeeping_goes_on_until_all_is_settled(
    input: BookkeeperInput,
    before: MemoryApplication,
    after: Option<MemoryApplication>,
    step: BookkeepingStep,
)
    requires
        goes_on(input, before, after, step),
    ensures
        !(step is Compose),
        step is Call <==> after is Some,
        step is Call ==> after->0.settled() < after->0.all().len() && after->0.all() == before.all(),
        step is Record ==> {
            let out = step->Record_0;
            &&& out.memories_written@ == before.made()
            &&& out.memories_revised@ == before.rewritten()
            &&& out.iterations == input.iterations
            &&& forall|i: int|
                before.settled() <= i < before.all().len() ==> declines(
                    #[trigger] before.all()[i],
                ) is Some
        },
{
}

/// A failure of bookkeeping is the bookkeeper's, with the reason it was given.
pub proof fn a_failure_is_the_bookkeepers(error: PlanError, source: NodeError)
    requires
        bookkeeping_failed(error, source),
    ensures
        error is Node && error->node@ == "bookkeeper"@ && error->source == source,
{
}

impl Bookkeeping {
    /// An answer is awaited exactly where the next decision to settle is one that asks for a call.
    pub proof fn an_answer_is_awaited_for_a_call(self)
        requires
            self.applying() is Some,
            self.applying()->0.well_formed(),
        ensures
            self.awaiting() <==> {
                let application = self.applying()->0;
                &&& application.settled() < application.all().len()
                &&& aims(application.all()[application.settled()]) || composes(
                    application.all()[application.settled()],
                )
            },
    {
        reveal_strlit("revise");
        reveal_strlit("create");
        assert("revise"@[0] != "create"@[0]);
    }
}

} // verus!
