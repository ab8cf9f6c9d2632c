//! Analyst: given the issue, the scout's findings, and repo memories, assess impact and risk.

use vstd::prelude::*;
use vstd::string::StringExecFns;

use crate::context::Constraint;
use crate::context::ContextOutput;
use crate::memory::MemoryOutput;
use crate::memory::MemoryRecord;
use crate::scout::RelatedItem;
use crate::scout::ScoutOutput;
use crate::testrun;
use crate::testrun::AcceptanceStep;
use crate::text;
use crate::review::Finding;

verus! {

broadcast use vstd::string::group_string_axioms;

/// Input to the analyst: the issue plus what was gathered about it.
///
/// The last two fields are what makes this node re-enterable: a run that discovers that the plan was
/// wrong can have it amended rather than re-driving the implementer against it.
#[derive(Clone, Debug)]
pub struct AnalystInput {
    pub issue: String,
    pub scout: ScoutOutput,
    pub memory: MemoryOutput,
    /// What a planner needs to know before starting.
    pub brief: String,
    /// What the task must respect, each traced to the memory it was read from.
    pub constraints: Vec<Constraint>,
    /// The plan being revised, when this is a revision.
    pub previous: Option<Box<AnalystOutput>>,
    /// Why it is being revised: findings judged to be faults in the plan rather than in the code.
    pub findings: Vec<Finding>,
}

impl AnalystInput {
    /// A first plan: no revision history.
    pub open spec fn first(self) -> bool {
        self.previous is None && self.findings@.len() == 0
    }

    /// A first plan, with no revision history and nothing distilled.
    pub fn fresh(issue: String, scout: ScoutOutput, memory: MemoryOutput) -> (r: AnalystInput)
        ensures
            r.issue == issue,
            r.scout == scout,
            r.memory == memory,
            r.first(),
            r.brief@.len() == 0,
            r.constraints@.len() == 0,
    {
        AnalystInput {
            issue,
            scout,
            memory,
            previous: None,
            findings: Vec::new(),
            brief: String::new(),
            constraints: Vec::new(),
        }
    }

    /// A first plan from a context node's output.
    pub fn from_context(issue: String, context: ContextOutput) -> (r: AnalystInput)
        ensures
            r.issue == issue,
            r.scout == context.scout,
            r.memory == context.memory,
            r.brief == context.brief,
            r.constraints == context.constraints,
            r.first(),
    {
        AnalystInput {
            issue,
            scout: context.scout,
            memory: context.memory,
            brief: context.brief,
            constraints: context.constraints,
            previous: None,
            findings: Vec::new(),
        }
    }
}

/// Analyst's structured output: the plan's substance.
#[derive(Clone, Debug)]
pub struct AnalystOutput {
    pub impact_summary: String,
    /// Specific symbols/paths the change touches.
    pub touched: Vec<String>,
    /// Risks, one short line each.
    pub risks: Vec<String>,
    pub requirements: Vec<String>,
    /// What remains uncertain after analysis.
    pub residual_risk: String,
    /// Whether carrying out this plan means editing code in this repository: the one signal that
    /// decides whether the fork runs at all.
    pub changes_code: bool,
    /// What must run and pass for this change to be believed done, as ordered named steps. Frozen
    /// once the fork starts: a change that can move the bar it is judged against is not judged.
    pub acceptance: Vec<AcceptanceStep>,
    /// The surface the change is contracted to have, and what it should do when used.
    pub interface: Vec<InterfaceItem>,
}

/// One piece of surface the change adds or alters, with what it owes its caller.
#[derive(Clone, Debug)]
pub struct InterfaceItem {
    /// What it is, as a caller names it: `path::function`, a CLI flag, an HTTP route, a config key.
    pub name: String,
    /// Its shape after the change.
    pub shape: String,
    /// What it does when used correctly.
    pub happy: Vec<String>,
    /// What it does when misused, or when the world does not cooperate.
    pub sad: Vec<String>,
}

/// Whether two pieces of surface are the same.
pub open spec fn same_item(a: InterfaceItem, b: InterfaceItem) -> bool {
    a.name == b.name && a.shape == b.shape && a.happy@ == b.happy@ && a.sad@ == b.sad@
}

/// Whether two plans are the same.
pub open spec fn same_plan(a: AnalystOutput, b: AnalystOutput) -> bool {
    &&& a.impact_summary == b.impact_summary
    &&& a.touched@ == b.touched@
    &&& a.risks@ == b.risks@
    &&& a.requirements@ == b.requirements@
    &&& a.residual_risk == b.residual_risk
    &&& a.changes_code == b.changes_code
    &&& testrun::same_steps(a.acceptance@, b.acceptance@)
    &&& a.interface@.len() == b.interface@.len()
    &&& forall|i: int| 0 <= i < a.interface@.len() ==> same_item(#[trigger] a.interface@[i], b.interface@[i])
}

impl AnalystOutput {
    /// A copy of the plan.
    pub fn copy(&self) -> (r: AnalystOutput)
        ensures
            same_plan(r, *self),
    {
        let mut interface: Vec<InterfaceItem> = Vec::new();
        let mut i: usize = 0;
        while i < self.interface.len()
            invariant
                i <= self.interface@.len(),
                interface@.len() == i,
                forall|j: int|
                    0 <= j < i ==> same_item(#[trigger] interface@[j], self.interface@[j]),
            decreases self.interface@.len() - i,
        {
            let item = &self.interface[i];
            interface.push(
                InterfaceItem {
                    name: item.name.clone(),
                    shape: item.shape.clone(),
                    happy: text::copies(item.happy.as_slice()),
                    sad: text::copies(item.sad.as_slice()),
                },
            );
            i += 1;
        }
        AnalystOutput {
            impact_summary: self.impact_summary.clone(),
            touched: text::copies(self.touched.as_slice()),
            risks: text::copies(self.risks.as_slice()),
            requirements: text::copies(self.requirements.as_slice()),
            residual_risk: self.residual_risk.clone(),
            changes_code: self.changes_code,
            acceptance: testrun::copy_steps(self.acceptance.as_slice()),
            interface,
        }
    }
}

/// A plan is assumed to involve a code change unless the analyst says otherwise. Wrongly running the
/// fork wastes a sandboxed test run; wrongly skipping it drops the work the run was asked to do.
pub fn changes_code_by_default() -> (r: bool)
    ensures
        r,
{
    true
}

/// One related item, as the analyst is shown it.
pub open spec fn item_line(item: RelatedItem) -> Seq<char> {
    "- ["@ + item.item_key@ + "] "@ + item.title@ + " — "@ + item.relation@ + "\n"@
}

/// Several related items, as the analyst is shown them.
pub open spec fn item_lines(items: Seq<RelatedItem>) -> Seq<char>
    decreases items.len(),
{
    if items.len() == 0 {
        Seq::empty()
    } else {
        item_lines(items.drop_last()) + item_line(items.last())
    }
}

/// One memory, as the analyst is shown it.
pub open spec fn memory_line(memory: MemoryRecord) -> Seq<char> {
    "- ("@ + memory.kind@ + ") "@ + memory.title@ + ": "@ + memory.detail() + "\n"@
}

/// Several memories, as the analyst is shown them.
pub open spec fn memory_lines(memories: Seq<MemoryRecord>) -> Seq<char>
    decreases memories.len(),
{
    if memories.len() == 0 {
        Seq::empty()
    } else {
        memory_lines(memories.drop_last()) + memory_line(memories.last())
    }
}

/// A heading and what is under it, with a blank line after; nothing where nothing is under it.
pub open spec fn block(heading: Seq<char>, lines: Seq<char>, any: bool) -> Seq<char> {
    if any {
        heading + lines + "\n"@
    } else {
        Seq::empty()
    }
}

/// The question the analyst is asked.
pub open spec fn prompt(input: AnalystInput) -> Seq<char> {
    "ISSUE:\n"@ + input.issue@ + "\n\nSCOUT SUMMARY:\n"@ + input.scout.papertrail_summary@ + "\n\n"@
        + block(
        "RELATED ITEMS:\n"@,
        item_lines(input.scout.related_items@),
        input.scout.related_items@.len() > 0,
    ) + block(
        "REPO MEMORIES:\n"@,
        memory_lines(input.memory.memories@),
        input.memory.memories@.len() > 0,
    )
}

fn print_items(items: &Vec<RelatedItem>) -> (r: String)
    ensures
        r@ == block("RELATED ITEMS:\n"@, item_lines(items@), items@.len() > 0),
{
    if items.len() == 0 {
        return String::new();
    }
    let mut lines = String::new();
    let mut i: usize = 0;
    while i < items.len()
        invariant
            i <= items@.len(),
            lines@ == item_lines(items@.take(i as int)),
        decreases items@.len() - i,
    {
        let item = &items[i];
        let mut line = "- [".to_owned();
        line.append(item.item_key.as_str());
        line.append("] ");
        line.append(item.title.as_str());
        line.append(" — ");
        line.append(item.relation.as_str());
        line.append("\n");
        lines.append(line.as_str());
        i += 1;
        assert(items@.take(i as int).drop_last() =~= items@.take(i - 1));
    }
    assert(items@.take(i as int) =~= items@);
    let mut out = "RELATED ITEMS:\n".to_owned();
    out.append(lines.as_str());
    out.append("\n");
    out
}

fn print_memories(memories: &Vec<MemoryRecord>) -> (r: String)
    ensures
        r@ == block("REPO MEMORIES:\n"@, memory_lines(memories@), memories@.len() > 0),
{
    if memories.len() == 0 {
        return String::new();
    }
    let mut lines = String::new();
    let mut i: usize = 0;
    while i < memories.len()
        invariant
            i <= memories@.len(),
            lines@ == memory_lines(memories@.take(i as int)),
        decreases memories@.len() - i,
    {
        let m = &memories[i];
        let mut line = "- (".to_owned();
        line.append(m.kind.as_str());
        line.append(") ");
        line.append(m.title.as_str());
        line.append(": ");
        line.append(m.text());
        line.append("\n");
        lines.append(line.as_str());
        i += 1;
        assert(memories@.take(i as int).drop_last() =~= memories@.take(i - 1));
    }
    assert(memories@.take(i as int) =~= memories@);
    let mut out = "REPO MEMORIES:\n".to_owned();
    out.append(lines.as_str());
    out.append("\n");
    out
}

/// Renders the question: the issue, the scout's summary, and what was found, where anything was.
pub fn render_prompt(input: &AnalystInput) -> (r: String)
    ensures
        r@ == prompt(*input),
{
    let mut out = "ISSUE:\n".to_owned();
    out.append(input.issue.as_str());
    out.append("\n\nSCOUT SUMMARY:\n");
    out.append(input.scout.papertrail_summary.as_str());
    out.append("\n\n");
    out.append(print_items(&input.scout.related_items).as_str());
    out.append(print_memories(&input.memory.memories).as_str());
    out
}

/// The analyst is shown every related item, in order: its key, its title and how it relates.
pub proof fn every_item_is_shown(a: Seq<RelatedItem>, b: Seq<RelatedItem>, item: RelatedItem)
    ensures
        item_lines(a + b) == item_lines(a) + item_lines(b),
        item_lines(seq![item]) == "- ["@ + item.item_key@ + "] "@ + item.title@ + " — "@ + item.relation@ + "\n"@,
    decreases b.len(),
{
    let one = seq![item];
    assert(one.drop_last() =~= Seq::empty());
    assert(item_lines(one.drop_last()) =~= Seq::empty());
    assert(item_lines(one) =~= "- ["@ + item.item_key@ + "] "@ + item.title@ + " — "@ + item.relation@ + "\n"@);
    if b.len() == 0 {
        assert(a + b =~= a);
        assert(item_lines(a) + item_lines(b) =~= item_lines(a));
    } else {
        assert((a + b).drop_last() =~= a + b.drop_last());
        assert((a + b).last() == b.last());
        every_item_is_shown(a, b.drop_last(), item);
        assert(item_lines(a + b) =~= item_lines(a) + item_lines(b));
    }
}

/// The analyst is shown every memory, in order: its kind, its title and what it says.
pub proof fn every_memory_is_shown(a: Seq<MemoryRecord>, b: Seq<MemoryRecord>, memory: MemoryRecord)
    ensures
        memory_lines(a + b) == memory_lines(a) + memory_lines(b),
        memory_lines(seq![memory]) == "- ("@ + memory.kind@ + ") "@ + memory.title@ + ": "@ + memory.detail() + "\n"@,
    decreases b.len(),
{
    let one = seq![memory];
    assert(one.drop_last() =~= Seq::empty());
    assert(memory_lines(one.drop_last()) =~= Seq::empty());
    assert(memory_lines(one) =~= "- ("@ + memory.kind@ + ") "@ + memory.title@ + ": "@ + memory.detail() + "\n"@);
    if b.len() == 0 {
        assert(a + b =~= a);
        assert(memory_lines(a) + memory_lines(b) =~= memory_lines(a));
    } else {
        assert((a + b).drop_last() =~= a + b.drop_last());
        assert((a + b).last() == b.last());
        every_memory_is_shown(a, b.drop_last(), memory);
        assert(memory_lines(a + b) =~= memory_lines(a) + memory_lines(b));
    }
}

/// What the analyst is asked: the issue and the summary always, and each of the two lists under its
/// heading exactly where it holds anything.
pub proof fn the_analyst_is_asked_with_all_that_was_found(input: AnalystInput)
    ensures
        prompt(input) == "ISSUE:\n"@ + input.issue@ + "\n\nSCOUT SUMMARY:\n"@
            + input.scout.papertrail_summary@ + "\n\n"@ + (if input.scout.related_items@.len() == 0 {
            Seq::empty()
        } else {
            "RELATED ITEMS:\n"@ + item_lines(input.scout.related_items@) + "\n"@
        }) + (if input.memory.memories@.len() == 0 {
            Seq::empty()
        } else {
            "REPO MEMORIES:\n"@ + memory_lines(input.memory.memories@) + "\n"@
        }),
{
}

/// A copy of a plan says everything the plan says.
pub proof fn a_copied_plan_says_the_same(a: AnalystOutput, b: AnalystOutput, i: int)
    requires
        same_plan(a, b),
    ensures
        a.impact_summary@ == b.impact_summary@,
        a.touched@ == b.touched@,
        a.risks@ == b.risks@,
        a.requirements@ == b.requirements@,
        a.residual_risk@ == b.residual_risk@,
        a.changes_code == b.changes_code,
        a.acceptance@.len() == b.acceptance@.len(),
        0 <= i < a.acceptance@.len() ==> a.acceptance@[i].name@ == b.acceptance@[i].name@
            && a.acceptance@[i].command@ == b.acceptance@[i].command@,
        a.interface@.len() == b.interface@.len(),
        0 <= i < a.interface@.len() ==> a.interface@[i].name@ == b.interface@[i].name@
            && a.interface@[i].shape@ == b.interface@[i].shape@ && a.interface@[i].happy@
            == b.interface@[i].happy@ && a.interface@[i].sad@ == b.interface@[i].sad@,
{
    if 0 <= i < a.acceptance@.len() {
        assert(testrun::same_step(a.acceptance@[i], b.acceptance@[i]));
    }
    if 0 <= i < a.interface@.len() {
        assert(same_item(a.interface@[i], b.interface@[i]));
    }
}

/// A first plan is one that revises none and answers no finding.
pub proof fn a_first_plan_revises_nothing(input: AnalystInput)
    ensures
        input.first() <==> input.previous is None && input.findings@.len() == 0,
{
}

} // verus!
