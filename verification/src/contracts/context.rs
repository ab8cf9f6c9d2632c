//! Context: what this repository already knows that bears on the task.
//!
//! The output is in two parts and the split is the design. The distillation is what the analyst
//! reads; the evidence is what it can check the distillation against. A model writes the first and
//! never touches the second.

use vstd::prelude::*;
use vstd::string::StringExecFns;

use crate::error::NodeError;
use crate::memory::MemoryOutput;
use crate::memory::MemoryRecord;
use crate::scout;
use crate::scout::RelatedItem;
use crate::scout::ScoutOutput;
use crate::text;

verus! {

broadcast use vstd::string::group_string_axioms;

/// Tools this node may use. `memory_search` is here so it can look for more than the guaranteed
/// baseline, not so it can decide whether the baseline happens.
pub const CONTEXT_TOOLS: [&'static str; 4] = [
    "papertrail_issue_search",
    "semantic_search",
    "symbol_lookup",
    "memory_search",
];

/// One thing the task has to respect, and where that came from.
#[derive(Clone, Debug)]
pub struct Constraint {
    /// The constraint, in the task's own terms.
    pub says: String,
    /// The `memory_id` it was read from. Empty when it came from the tracker or the code instead.
    pub from_memory_id: String,
}

/// What the model produced. Deliberately not the node's whole output: there is no field here for the
/// memories, so a model cannot write them, reword them, or leave them out.
#[derive(Clone, Debug)]
pub struct Distillation {
    /// What a reader needs to know before planning the task.
    pub brief: String,
    /// What the task must respect, each traced to where it came from.
    pub constraints: Vec<Constraint>,
    /// Tracker issues and PRs that bear on the task.
    pub prior_art: Vec<RelatedItem>,
    /// Free-text summary of the papertrail.
    pub papertrail_summary: String,
}

/// Deterministic evidence prepared before the model distils repository context.
#[derive(Clone, Debug)]
pub struct ContextDistillationInput {
    pub issue: String,
    pub memory: MemoryOutput,
    pub searchable: bool,
}

/// The node's output: the distillation, plus the evidence it was drawn from, unmodified.
#[derive(Clone, Debug)]
pub struct ContextOutput {
    pub brief: String,
    pub constraints: Vec<Constraint>,
    /// What the scout half found.
    pub scout: ScoutOutput,
    /// The ranked memories, as they were returned. Never routed through the model: a recorded
    /// invariant that reaches the analyst reworded is worse than one that never arrives.
    pub memory: MemoryOutput,
}

/// The evidence a distillation is drawn from.
pub fn distillation_input(issue: &str, memory: MemoryOutput, searchable: bool) -> (r:
    ContextDistillationInput)
    ensures
        r.issue@ == issue@,
        r.memory == memory,
        r.searchable == searchable,
{
    ContextDistillationInput { issue: issue.to_owned(), memory, searchable }
}

/// Puts the evidence beside what the model made of it. The memories are attached as they were found;
/// of what the model wrote, only its empty placeholder items are dropped.
pub fn attach_evidence(distilled: Distillation, memory: MemoryOutput) -> (r: ContextOutput)
    ensures
        r.brief == distilled.brief,
        r.constraints == distilled.constraints,
        r.scout.related_items@ == scout::meaningful_items(distilled.prior_art@),
        r.scout.papertrail_summary == distilled.papertrail_summary,
        r.memory == memory,
{
    ContextOutput {
        brief: distilled.brief,
        constraints: distilled.constraints,
        scout: ScoutOutput {
            related_items: scout::keep_meaningful(distilled.prior_art),
            papertrail_summary: distilled.papertrail_summary,
        },
        memory,
    }
}

/// What introduces the memories.
pub const MEMORIES_HEADER: &'static str =
    "RECORDED MEMORIES — already retrieved for you, ranked. Quote from these when you write a constraint, and cite the id:\n\n";

/// What is said where nothing matched: that is worth searching again for.
pub const NONE_MATCHED: &'static str =
    "RECORDED MEMORIES: none matched this \
     task. Search again yourself with different terms before concluding this repository records nothing about it.\n";

/// What is said where there is no index: telling a node to search would send it after a tool it does
/// not have.
pub const KEEPS_NONE: &'static str =
    "RECORDED MEMORIES: this repository keeps none — there is no memory index here. Work from what you can read.\n";

/// One memory, as the model is shown it.
pub open spec fn shown(memory: MemoryRecord) -> Seq<char> {
    "id: "@ + memory.memory_id@ + "\n["@ + memory.kind@ + " | "@ + memory.confidence@ + "] "@
        + memory.title@ + "\n"@ + memory.detail() + "\n\n"@
}

/// Several memories, as the model is shown them.
pub open spec fn shown_all(memories: Seq<MemoryRecord>) -> Seq<char>
    decreases memories.len(),
{
    if memories.len() == 0 {
        Seq::empty()
    } else {
        shown_all(memories.drop_last()) + shown(memories.last())
    }
}

/// The question the model is asked.
pub open spec fn prompt(issue: Seq<char>, memories: Seq<MemoryRecord>, searchable: bool) -> Seq<
    char,
> {
    "TASK:\n"@ + issue + "\n\n"@ + (if memories.len() == 0 {
        if searchable {
            NONE_MATCHED@
        } else {
            KEEPS_NONE@
        }
    } else {
        MEMORIES_HEADER@ + shown_all(memories)
    })
}

/// Renders the question: the task, then every memory that was retrieved, whole. Where there is none,
/// it says which of the two emptinesses that is.
pub fn render_prompt(issue: &str, memory: &MemoryOutput, searchable: bool) -> (r: String)
    ensures
        r@ == prompt(issue@, memory.memories@, searchable),
{
    let mut out = "TASK:\n".to_owned();
    out.append(issue);
    out.append("\n\n");
    if memory.memories.len() == 0 {
        if searchable {
            out.append(NONE_MATCHED);
        } else {
            out.append(KEEPS_NONE);
        }
        return out;
    }
    let mut list = MEMORIES_HEADER.to_owned();
    let ghost all = memory.memories@;
    let mut i: usize = 0;
    assert(list@ =~= MEMORIES_HEADER@ + shown_all(all.take(0)));
    while i < memory.memories.len()
        invariant
            i <= memory.memories@.len(),
            all == memory.memories@,
            list@ == MEMORIES_HEADER@ + shown_all(all.take(i as int)),
        decreases memory.memories@.len() - i,
    {
        let m = &memory.memories[i];
        let mut part = "id: ".to_owned();
        part.append(m.memory_id.as_str());
        part.append("\n[");
        part.append(m.kind.as_str());
        part.append(" | ");
        part.append(m.confidence.as_str());
        part.append("] ");
        part.append(m.title.as_str());
        part.append("\n");
        part.append(m.text());
        part.append("\n\n");
        list.append(part.as_str());
        i += 1;
        proof {
            assert(all.take(i as int).drop_last() =~= all.take(i - 1));
            assert(all.take(i as int).last() == *m);
            assert(list@ =~= MEMORIES_HEADER@ + shown_all(all.take(i as int)));
        }
    }
    assert(all.take(i as int) =~= all);
    out.append(list.as_str());
    out
}

/// What the model is asked, and the evidence it is asked over.
#[derive(Debug)]
pub struct ContextQuestion {
    pub input: ContextDistillationInput,
    pub question: String,
}

/// Prepares the question. `baseline` is what the retrieval came to, `None` in a repository without
/// an index. The retrieval happens before the model is asked anything, whatever the model does: its
/// failure is the node's.
pub fn context_question(issue: &str, baseline: Option<Result<MemoryOutput, NodeError>>) -> (r: Result<
    ContextQuestion,
    NodeError,
>)
    ensures
        match baseline {
            Some(Err(error)) => r == Err::<ContextQuestion, NodeError>(error),
            Some(Ok(memory)) => r matches Ok(asked) && {
                &&& asked.input.issue@ == issue@
                &&& asked.input.memory == memory
                &&& asked.input.searchable
                &&& asked.question@ == prompt(issue@, memory.memories@, true)
            },
            None => r matches Ok(asked) && {
                &&& asked.input.issue@ == issue@
                &&& asked.input.memory.memories@.len() == 0
                &&& !asked.input.searchable
                &&& asked.question@ == prompt(issue@, Seq::empty(), false)
            },
        },
{
    let searchable = baseline.is_some();
    let memory = match baseline {
        Some(Ok(memory)) => memory,
        Some(Err(error)) => return Err(error),
        None => {
            let empty = MemoryOutput { memories: Vec::new() };
            assert(empty.memories@ =~= Seq::empty());
            empty
        },
    };
    let question = render_prompt(issue, &memory, searchable);
    Ok(ContextQuestion { input: distillation_input(issue, memory, searchable), question })
}

/// Takes the model's answer: a turn that failed, an answer that is no distillation, or a
/// distillation, beside which the evidence is put as it was found.
pub fn context_answer(
    turn: Result<Result<Distillation, NodeError>, String>,
    memory: MemoryOutput,
) -> (r: Result<ContextOutput, NodeError>)
    ensures
        match turn {
            Err(error) => r matches Err(NodeError::Failed(why)) && why@ == "context agent failed: "@
                + error@,
            Ok(Err(invalid)) => r == Err::<ContextOutput, NodeError>(invalid),
            Ok(Ok(distilled)) => r matches Ok(out) && {
                &&& out.brief == distilled.brief
                &&& out.constraints == distilled.constraints
                &&& out.scout.related_items@ == scout::meaningful_items(distilled.prior_art@)
                &&& out.scout.papertrail_summary == distilled.papertrail_summary
                &&& out.memory == memory
            },
        },
{
    match turn {
        Err(error) => {
            let mut m = "context agent failed: ".to_owned();
            m.append(error.as_str());
            Err(NodeError::Failed(m))
        },
        Ok(Err(invalid)) => Err(invalid),
        Ok(Ok(distilled)) => Ok(attach_evidence(distilled, memory)),
    }
}

/// The model is shown every memory that was retrieved, in order and whole.
pub proof fn every_memory_is_shown(a: Seq<MemoryRecord>, b: Seq<MemoryRecord>, memory: MemoryRecord)
    ensures
        shown_all(a + b) == shown_all(a) + shown_all(b),
        shown_all(seq![memory]) == "id: "@ + memory.memory_id@ + "\n["@ + memory.kind@ + " | "@ + memory.confidence@ + "] "@ + memory.title@ + "\n"@ + memory.detail() + "\n\n"@,
    decreases b.len(),
{
    let one = seq![memory];
    assert(one.drop_last() =~= Seq::empty());
    assert(shown_all(one.drop_last()) =~= Seq::empty());
    assert(shown_all(one) =~= "id: "@ + memory.memory_id@ + "\n["@ + memory.kind@ + " | "@ + memory.confidence@ + "] "@ + memory.title@ + "\n"@ + memory.detail() + "\n\n"@);
    if b.len() == 0 {
        assert(a + b =~= a);
        assert(shown_all(a) + shown_all(b) =~= shown_all(a));
    } else {
        assert((a + b).drop_last() =~= a + b.drop_last());
        assert((a + b).last() == b.last());
        every_memory_is_shown(a, b.drop_last(), memory);
        assert(shown_all(a + b) =~= shown_all(a) + shown_all(b));
    }
}

/// What the model is asked: the task, and then every memory where there is any; and where there is
/// none, which of the two emptinesses that is.
pub proof fn the_model_is_asked_over_every_memory(
    issue: Seq<char>,
    memories: Seq<MemoryRecord>,
    searchable: bool,
)
    ensures
        memories.len() > 0 ==> prompt(issue, memories, searchable) == "TASK:\n"@ + issue + "\n\n"@ + (
        MEMORIES_HEADER@ + shown_all(memories)),
        memories.len() == 0 && searchable ==> prompt(issue, memories, searchable) == "TASK:\n"@ + issue
            + "\n\n"@ + NONE_MATCHED@,
        memories.len() == 0 && !searchable ==> prompt(issue, memories, searchable) == "TASK:\n"@
            + issue + "\n\n"@ + KEEPS_NONE@,
{
}

} // verus!
