//! Overseer: pick which workflow runs a task.
//!
//! It runs once, before anything else, and it executes nothing. A bad choice commits the whole run
//! to the wrong shape, and every node downstream then does competent work on the wrong question, so
//! the choice and its reasoning land on a checkpoint like any node's output.
//!
//! Opt-in on having a route, like the verifier and the characterizer. Without one, a repository with
//! several workflows is asked to name one rather than having a choice made for it silently.

use vstd::prelude::*;

verus! {

/// Tools the overseer may use. It reads the task, not the repository, but a task that names an issue
/// is worth resolving before deciding what kind of work it is.
pub const OVERSEER_TOOLS: [&'static str; 2] = ["papertrail_issue_search", "semantic_search"];

/// One workflow, as the overseer is shown it.
#[derive(Clone, Debug)]
pub struct Choice {
    pub name: String,
    pub purpose: String,
    pub when_to_use: Vec<String>,
}

/// What a [`Choice`] says.
pub struct ChoiceView {
    pub name: Seq<char>,
    pub purpose: Seq<char>,
    pub when_to_use: Seq<String>,
}

impl View for Choice {
    type V = ChoiceView;

    open spec fn view(&self) -> ChoiceView {
        ChoiceView {
            name: self.name@,
            purpose: self.purpose@,
            when_to_use: self.when_to_use@,
        }
    }
}

/// The task and complete workflow registry presented for one routing decision.
#[derive(Clone, Debug)]
pub struct OverseerInput {
    pub issue: String,
    pub choices: Vec<Choice>,
}

/// What the overseer decided.
#[derive(Clone, Debug)]
pub struct OverseerOutput {
    /// The chosen workflow's name. A model naming something that is not there must not select it.
    pub workflow: String,
    /// Why the task fits that workflow.
    pub reasoning: String,
}

} // verus!
