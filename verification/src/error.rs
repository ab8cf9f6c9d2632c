//! How a node, and a run, can fail.

use vstd::prelude::*;
use vstd::string::StringExecFns;

verus! {

broadcast use vstd::string::group_string_axioms;

/// Why one node did not produce its output.
#[derive(Clone, Debug)]
pub enum NodeError {
    /// The node could not do its work; the text says why.
    Failed(String),
    /// The node answered, and the answer is not what its contract asks for.
    InvalidOutput(String),
}

impl NodeError {
    /// What the error says.
    pub open spec fn says(self) -> Seq<char> {
        match self {
            NodeError::Failed(why) => why@,
            NodeError::InvalidOutput(why) => "output failed schema validation: "@ + why@,
        }
    }

    /// The error as a line of text.
    pub fn message(&self) -> (r: String)
        ensures
            r@ == self.says(),
    {
        match self {
            NodeError::Failed(why) => why.clone(),
            NodeError::InvalidOutput(why) => {
                let mut m = "output failed schema validation: ".to_owned();
                m.append(why.as_str());
                m
            },
        }
    }
}

/// A failure that says what was being done, and then why it failed.
pub fn failed_doing(doing: &str, error: &str) -> (r: NodeError)
    ensures
        r matches NodeError::Failed(why) && why@ == doing@ + ": "@ + error@,
{
    let mut why = doing.to_owned();
    why.append(": ");
    why.append(error);
    NodeError::Failed(why)
}

/// Errors from a run. A `Node` error means that node failed or produced invalid output.
#[derive(Clone, Debug)]
pub enum PlanError {
    Node { node: &'static str, source: NodeError },
    Store(String),
    Serialize(String),
    Configuration(String),
    MissingRoute(String),
    MissingCheckpoint(String, &'static str),
}

impl PlanError {
    /// What the error says.
    pub open spec fn says(self) -> Seq<char> {
        match self {
            PlanError::Node { node, source } => "node `"@ + node@ + "` failed: "@ + source.says(),
            PlanError::Store(why) => "store error: "@ + why@,
            PlanError::Serialize(why) => "serialization error: "@ + why@,
            PlanError::Configuration(why) => "configuration error: "@ + why@,
            PlanError::MissingRoute(name) => "no model route `"@ + name@
                + "` in config — add a [models."@ + name@ + "] entry"@,
            PlanError::MissingCheckpoint(run, node) => "run "@ + run@ + " has no `"@ + node@
                + "` checkpoint — not a converged run?"@,
        }
    }

    /// The error as a line of text.
    pub fn message(&self) -> (r: String)
        ensures
            r@ == self.says(),
    {
        match self {
            PlanError::Node { node, source } => {
                let mut m = "node `".to_owned();
                m.append(node);
                m.append("` failed: ");
                m.append(source.message().as_str());
                m
            },
            PlanError::Store(why) => {
                let mut m = "store error: ".to_owned();
                m.append(why.as_str());
                m
            },
            PlanError::Serialize(why) => {
                let mut m = "serialization error: ".to_owned();
                m.append(why.as_str());
                m
            },
            PlanError::Configuration(why) => {
                let mut m = "configuration error: ".to_owned();
                m.append(why.as_str());
                m
            },
            PlanError::MissingRoute(name) => {
                let mut m = "no model route `".to_owned();
                m.append(name.as_str());
                m.append("` in config — add a [models.");
                m.append(name.as_str());
                m.append("] entry");
                m
            },
            PlanError::MissingCheckpoint(run, node) => {
                let mut m = "run ".to_owned();
                m.append(run.as_str());
                m.append(" has no `");
                m.append(node);
                m.append("` checkpoint — not a converged run?");
                m
            },
        }
    }

    /// The failure of a node, for the reason given.
    pub(crate) fn node(node: &'static str, source: NodeError) -> (r: PlanError)
        ensures
            r == (PlanError::Node { node, source }),
    {
        PlanError::Node { node, source }
    }
}

/// The result a check that may refuse comes to: accepted where there is no refusal, and otherwise a
/// configuration error that says the refusal and nothing else.
pub open spec fn refused(result: Result<(), PlanError>, refusal: Option<Seq<char>>) -> bool {
    match refusal {
        None => result is Ok,
        Some(why) => match result {
            Err(PlanError::Configuration(said)) => said@ == why,
            _ => false,
        },
    }
}

/// Whether a result is the failure of `node` saying `why`.
pub open spec fn failed<T>(result: Result<T, PlanError>, node: Seq<char>, why: Seq<char>) -> bool {
    match result {
        Err(PlanError::Node { node: named, source: NodeError::Failed(said) }) => named@ == node && said@ == why,
        _ => false,
    }
}

/// The first refusal among `n` checks, in order.
pub open spec fn first_refusal(n: int, check: spec_fn(int) -> Option<Seq<char>>) -> Option<Seq<char>>
    decreases n,
{
    if n <= 0 {
        None
    } else {
        match first_refusal(n - 1, check) {
            Some(why) => Some(why),
            None => check(n - 1),
        }
    }
}

/// The first of several checks that refuses decides, however many follow it.
pub proof fn the_first_refusal_decides(n: int, check: spec_fn(int) -> Option<Seq<char>>, i: int)
    requires
        0 <= i < n,
        first_refusal(i, check) is None,
        check(i) is Some,
    ensures
        first_refusal(n, check) == check(i),
    decreases n,
{
    if i < n - 1 {
        the_first_refusal_decides(n - 1, check, i);
    }
}

/// Nothing refuses exactly when every check passes.
pub proof fn accepted_when_every_check_passes(n: int, check: spec_fn(int) -> Option<Seq<char>>)
    ensures
        first_refusal(n, check) is None <==> (forall|i: int| 0 <= i < n ==> #[trigger] check(i) is None),
    decreases n,
{
    if n > 0 {
        accepted_when_every_check_passes(n - 1, check);
        assert(first_refusal(n, check) is None ==> check(n - 1) is None);
        if forall|i: int| 0 <= i < n ==> #[trigger] check(i) is None {
            assert(check(n - 1) is None);
            assert forall|i: int| 0 <= i < n - 1 implies #[trigger] check(i) is None by {}
        }
    }
}

/// A check that refuses is a configuration error that says why, and one that does not is no error.
pub proof fn a_refusal_is_told(result: Result<(), PlanError>, refusal: Option<Seq<char>>)
    requires
        refused(result, refusal),
    ensures
        result is Ok <==> refusal is None,
        refusal is Some ==> result->Err_0 is Configuration && result->Err_0->Configuration_0@
            == refusal->0,
{
}

/// An error says where it is from and why, and nothing of either is left out.
pub proof fn an_error_says_where_and_why(error: PlanError)
    ensures
        error is Node ==> error.says() == "node `"@ + error->node@ + "` failed: "@
            + error->source.says(),
        error is Store ==> error.says() == "store error: "@ + error->Store_0@,
        error is Serialize ==> error.says() == "serialization error: "@ + error->Serialize_0@,
        error is Configuration ==> error.says() == "configuration error: "@
            + error->Configuration_0@,
{
}

/// A node's error says why, and says so of an answer that is not what its contract asks for.
pub proof fn a_node_error_says_why(error: NodeError)
    ensures
        error is Failed ==> error.says() == error->Failed_0@,
        error is InvalidOutput ==> error.says() == "output failed schema validation: "@
            + error->InvalidOutput_0@,
{
}

/// A node that failed is an error that names it and says why.
pub proof fn a_failure_names_its_node<T>(result: Result<T, PlanError>, node: Seq<char>, why: Seq<char>)
    requires
        failed(result, node, why),
    ensures
        result is Err,
        result->Err_0 is Node,
        result->Err_0->node@ == node,
        result->Err_0->source is Failed,
        result->Err_0->source->Failed_0@ == why,
{
}

} // verus!
