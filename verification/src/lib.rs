//! The nodes of a coding pipeline: what each stage is given, what it may produce, and the rules
//! that decide what a run does with it.

use vstd::prelude::*;

pub mod bookkeeper;
pub mod checkpoint;
pub mod child;
pub mod clarify;
pub mod commit;
pub mod config;
pub mod contracts;
pub mod control;
pub mod converge;
pub mod error;
pub mod fingerprint;
pub mod implementer;
pub mod issue;
pub mod json;
pub mod lists;
pub mod memory;
pub mod names;
pub mod plugins;
pub mod policy;
pub mod preamble;
pub mod publisher;
pub mod redteam;
pub mod referee;
pub mod review;
pub mod routes;
pub mod run;
pub mod skills;
pub mod stage;
pub mod testrun;
pub mod text;
pub mod tools;
pub mod validate;
pub mod workflow;

pub use contracts::{analyst, context, overseer, scout};

pub use analyst::AnalystOutput;
pub use bookkeeper::{BookkeeperInput, BookkeeperOutput, MemoryWritten};
pub use child::ChildTask;
pub use context::{Constraint, ContextOutput};
pub use error::{NodeError, PlanError};
pub use implementer::{ImplementerNode, ImplementerOutput};
pub use memory::{MemoryOutput, MemoryRecord};
pub use overseer::OverseerOutput;
pub use plugins::{NodeAgentConfig, NodePlugins, PluginContext};
pub use publisher::PublisherOutput;
pub use redteam::RedTeamOutput;
pub use referee::{RefereeNode, RefereeOutput, Violation};
pub use review::{Finding, FindingKind, Severity, VerifierOutput};
pub use routes::referee_route;
pub use run::{PlanOutcome, RunOutcome};
pub use scout::{RelatedItem, ScoutOutput};
pub use stage::{agent_profiles, built_in_agents, AgentProfile, Delegation, Stage};
pub use validate::validate;
pub use workflow::{registry, select, Workflow};

verus! {

} // verus!
