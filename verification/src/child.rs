//! Ephemeral, bounded delegation support.

use vstd::prelude::*;
use vstd::string::StringExecFns;

use crate::config;
use crate::config::Capability;
use crate::error::PlanError;
use crate::json;
use crate::stage::AgentProfile;
use crate::stage::ProfileView;
use crate::stage::Stage;
use crate::stage::StageView;
use crate::text;

verus! {

broadcast use vstd::string::group_string_axioms;

/// A child invocation carries projected input and evidence only. It deliberately has no run or
/// checkpoint identifier, so callers cannot persist it as an independent graph stage.
#[derive(Debug)]
pub struct ChildTask {
    pub parent: String,
    pub target: String,
    pub input: serde_json::Value,
    pub evidence_contract: String,
    pub capabilities: Option<Capability>,
}

/// Why a parent may not spawn a child of an input of `bytes` bytes; `None` where it may.
pub open spec fn spawn_refusal(
    parent: StageView,
    parent_profile: ProfileView,
    target: StageView,
    target_profile: ProfileView,
    bytes: nat,
) -> Option<Seq<char>> {
    match parent.delegation {
        None => Some("stage `"@ + parent.id + "` is not eligible to delegate"@),
        Some(delegation) => if delegation.target@ != target.id {
            Some("stage `"@ + parent.id + "` may not delegate to `"@ + target.id + "`"@)
        } else if bytes > delegation.input_limit {
            Some(
                "stage `"@ + parent.id + "` projected "@ + text::decimal(bytes)
                    + " bytes for child `"@ + target.id + "`, above its "@ + text::decimal(
                    delegation.input_limit as nat,
                ) + " byte limit"@,
            )
        } else if config::wider(
            target.effective_ceiling(target_profile),
            parent.effective_ceiling(parent_profile),
        ) {
            Some(
                "stage `"@ + parent.id + "` delegates to more privileged target `"@ + target.id
                    + "`"@,
            )
        } else {
            None
        },
    }
}

/// A task as it is spawned: the input as it was given, and no more than the target may do.
pub open spec fn spawned(
    task: ChildTask,
    parent: StageView,
    target: StageView,
    target_profile: ProfileView,
    input: serde_json::Value,
) -> bool {
    &&& task.parent@ == parent.id
    &&& task.target@ == target.id
    &&& task.input == input
    &&& parent.delegation matches Some(delegation) && task.evidence_contract
        == delegation.evidence_contract
    &&& task.capabilities == target.effective_ceiling(target_profile)
}

/// What spawning comes to, given how many bytes the input takes.
pub open spec fn spawns(
    parent: StageView,
    parent_profile: ProfileView,
    target: StageView,
    target_profile: ProfileView,
    input: serde_json::Value,
    bytes: nat,
    result: Result<ChildTask, PlanError>,
) -> bool {
    match spawn_refusal(parent, parent_profile, target, target_profile, bytes) {
        Some(refusal) => result matches Err(PlanError::Configuration(why)) && why@ == refusal,
        None => result matches Ok(task) && spawned(task, parent, target, target_profile, input),
    }
}

impl ChildTask {
    /// Spawn a child whose input takes `bytes` bytes of JSON.
    pub fn spawn_measured(
        parent: &Stage,
        parent_profile: &AgentProfile,
        target: &Stage,
        target_profile: &AgentProfile,
        input: serde_json::Value,
        bytes: usize,
    ) -> (r: Result<ChildTask, PlanError>)
        ensures
            spawns(
                parent@,
                parent_profile@,
                target@,
                target_profile@,
                input,
                bytes as nat,
                r,
            ),
    {
        let mut m = "stage `".to_owned();
        m.append(parent.id.as_str());
        let delegation = match &parent.delegation {
            Some(delegation) => delegation,
            None => {
                m.append("` is not eligible to delegate");
                return Err(PlanError::Configuration(m));
            },
        };
        if !text::same(delegation.target.as_str(), target.id.as_str()) {
            m.append("` may not delegate to `");
            m.append(target.id.as_str());
            m.append("`");
            return Err(PlanError::Configuration(m));
        }
        if bytes > delegation.input_limit {
            m.append("` projected ");
            m.append(text::number(bytes as u64).as_str());
            m.append(" bytes for child `");
            m.append(target.id.as_str());
            m.append("`, above its ");
            m.append(text::number(delegation.input_limit as u64).as_str());
            m.append(" byte limit");
            return Err(PlanError::Configuration(m));
        }
        let parent_ceiling = parent.effective_ceiling(parent_profile);
        let target_ceiling = target.effective_ceiling(target_profile);
        if config::is_wider(target_ceiling, parent_ceiling) {
            m.append("` delegates to more privileged target `");
            m.append(target.id.as_str());
            m.append("`");
            return Err(PlanError::Configuration(m));
        }
        Ok(
            ChildTask {
                parent: parent.id.clone(),
                target: target.id.clone(),
                input,
                evidence_contract: delegation.evidence_contract.clone(),
                capabilities: target_ceiling,
            },
        )
    }

    /// Spawn a child task: only to the target the parent declared, only with as much input as it
    /// declared, and never with more authority than the parent has.
    pub fn spawn(
        parent: &Stage,
        parent_profile: &AgentProfile,
        target: &Stage,
        target_profile: &AgentProfile,
        input: serde_json::Value,
    ) -> (r: Result<ChildTask, PlanError>)
        ensures
            spawns(
                parent@,
                parent_profile@,
                target@,
                target_profile@,
                input,
                json::json_bytes(input).len(),
                r,
            ),
    {
        match json::written(&input) {
            Ok(bytes) => ChildTask::spawn_measured(
                parent,
                parent_profile,
                target,
                target_profile,
                input,
                bytes.len(),
            ),
            Err(error) => Err(PlanError::Serialize(error)),
        }
    }

    /// Takes the child's output, as it was read at its parent's boundary, without narrowing it. A
    /// declared contract can validly produce an array or scalar as well as an object, and the parent
    /// must preserve that evidence exactly.
    pub fn evidence<T>(&self, read: Result<T, String>) -> (r: Result<T, PlanError>)
        ensures
            match read {
                Ok(output) => r == Ok::<T, PlanError>(output),
                Err(error) => r matches Err(PlanError::Configuration(why)) && why@
                    == "child task `"@ + self.target@ + "` returned invalid `"@
                    + self.evidence_contract@ + "` evidence for `"@ + self.parent@ + "`: "@ + error@,
            },
    {
        match read {
            Ok(output) => Ok(output),
            Err(error) => {
                let mut m = "child task `".to_owned();
                m.append(self.target.as_str());
                m.append("` returned invalid `");
                m.append(self.evidence_contract.as_str());
                m.append("` evidence for `");
                m.append(self.parent.as_str());
                m.append("`: ");
                m.append(error.as_str());
                Err(PlanError::Configuration(m))
            },
        }
    }
}

/// A child never holds more authority than its parent, nor more than its own stage allows; and what
/// it was given is within the limit its parent declared.
pub proof fn a_child_never_widens_its_parent(
    parent: StageView,
    parent_profile: ProfileView,
    target: StageView,
    target_profile: ProfileView,
    input: serde_json::Value,
    bytes: nat,
    task: ChildTask,
)
    requires
        spawns(parent, parent_profile, target, target_profile, input, bytes, Ok(task)),
    ensures
        !config::wider(task.capabilities, parent.effective_ceiling(parent_profile)),
        !config::wider(task.capabilities, target.effective_ceiling(target_profile)),
        parent.delegation matches Some(delegation) && bytes <= delegation.input_limit
            && delegation.target@ == target.id,
{
}

/// A child is spawned exactly where its parent delegates, to that very target, with no more input than
/// the parent declared, and with no more authority than the parent has.
pub proof fn a_child_is_spawned_exactly_as_its_parent_declared(
    parent: StageView,
    parent_profile: ProfileView,
    target: StageView,
    target_profile: ProfileView,
    input: serde_json::Value,
    bytes: nat,
    result: Result<ChildTask, PlanError>,
)
    requires
        spawns(parent, parent_profile, target, target_profile, input, bytes, result),
    ensures
        result is Ok <==> {
            &&& parent.delegation is Some
            &&& parent.delegation->0.target@ == target.id
            &&& bytes <= parent.delegation->0.input_limit
            &&& !config::wider(
                target.effective_ceiling(target_profile),
                parent.effective_ceiling(parent_profile),
            )
        },
        result is Ok ==> {
            let task = result->Ok_0;
            &&& task.parent@ == parent.id
            &&& task.target@ == target.id
            &&& task.input == input
            &&& task.evidence_contract@ == parent.delegation->0.evidence_contract@
            &&& task.capabilities == target.effective_ceiling(target_profile)
        },
        result is Err ==> {
            let why = result->Err_0->Configuration_0@;
            let asked = parent.delegation->0;
            &&& result->Err_0 is Configuration
            &&& parent.delegation is None ==> why == "stage `"@ + parent.id
                + "` is not eligible to delegate"@
            &&& parent.delegation is Some && asked.target@ != target.id ==> why == "stage `"@
                + parent.id + "` may not delegate to `"@ + target.id + "`"@
            &&& parent.delegation is Some && asked.target@ == target.id && bytes > asked.input_limit
                ==> why == "stage `"@ + parent.id + "` projected "@ + text::decimal(bytes)
                + " bytes for child `"@ + target.id + "`, above its "@ + text::decimal(
                asked.input_limit as nat,
            ) + " byte limit"@
            &&& parent.delegation is Some && asked.target@ == target.id && bytes <= asked.input_limit
                ==> why == "stage `"@ + parent.id + "` delegates to more privileged target `"@
                + target.id + "`"@
        },
{
}

} // verus!
