//! Bounded delegation: who may be asked, with how much, and with what authority.

use ratatoskr_nodes::child::ChildTask;
use ratatoskr_nodes::config::Capability;
use ratatoskr_nodes::error::PlanError;
use ratatoskr_nodes::stage::{stage_fixture, AgentProfile, Delegation, Stage};
use serde_json::Value;

fn task() -> ChildTask {
    ChildTask {
        parent: "parent".to_string(),
        target: "child".to_string(),
        input: Value::Null,
        evidence_contract: "Evidence".to_string(),
        capabilities: None,
    }
}

fn read(output: Value) -> Result<Value, String> {
    serde_json::from_value(output).map_err(|error| error.to_string())
}

#[test]
fn evidence_preserves_contract_valid_non_object_json() {
    for evidence in [
        Value::from(vec!["one", "two"]),
        Value::from("a scalar"),
        Value::from(42),
    ] {
        let preserved: Value = task().evidence(read(evidence.clone())).unwrap();
        assert_eq!(preserved, evidence);
    }
}

#[test]
fn evidence_that_cannot_be_read_names_the_child_and_its_contract() {
    let error = task()
        .evidence::<u8>(Err("invalid type".to_string()))
        .unwrap_err();
    assert_eq!(
        error.message(),
        "configuration error: child task `child` returned invalid `Evidence` evidence for `parent`: invalid type"
    );
}

fn profile(capabilities: &[Capability]) -> AgentProfile {
    AgentProfile {
        id: "reason".into(),
        model: None,
        base_prompt: String::new(),
        capabilities: capabilities.to_vec(),
        tool_policy: None,
        max_turns: None,
    }
}

fn delegating(limit: usize) -> Stage {
    let mut parent = stage_fixture("parent", "reason");
    parent.delegation = Some(Delegation {
        target: "child".into(),
        evidence_contract: "Evidence".into(),
        input_limit: limit,
    });
    parent
}

fn why(result: Result<ChildTask, PlanError>) -> String {
    result.unwrap_err().message()
}

#[test]
fn a_child_is_spawned_only_as_its_parent_declared() {
    let child = stage_fixture("child", "reason");
    let read = profile(&[Capability::Read]);
    let write = profile(&[Capability::Write]);
    let input = Value::from(vec!["one", "two"]);

    let task = ChildTask::spawn(&delegating(13), &write, &child, &read, input.clone()).unwrap();
    assert_eq!(task.parent, "parent");
    assert_eq!(task.target, "child");
    assert_eq!(task.evidence_contract, "Evidence");
    assert_eq!(task.capabilities, Some(Capability::Read));
    assert_eq!(task.input, input);

    assert_eq!(
        why(ChildTask::spawn(
            &stage_fixture("parent", "reason"),
            &write,
            &child,
            &read,
            input.clone()
        )),
        "configuration error: stage `parent` is not eligible to delegate"
    );
    assert_eq!(
        why(ChildTask::spawn(
            &delegating(100),
            &write,
            &stage_fixture("other", "reason"),
            &read,
            input.clone()
        )),
        "configuration error: stage `parent` may not delegate to `other`"
    );
    // The compact text of the input is what counts: `["one","two"]` is thirteen bytes.
    assert_eq!(
        why(ChildTask::spawn(
            &delegating(12),
            &write,
            &child,
            &read,
            input.clone()
        )),
        "configuration error: stage `parent` projected 13 bytes for child `child`, above its 12 byte limit"
    );
    assert_eq!(
        why(ChildTask::spawn(
            &delegating(100),
            &read,
            &child,
            &write,
            input.clone()
        )),
        "configuration error: stage `parent` delegates to more privileged target `child`"
    );
    assert!(ChildTask::spawn_measured(&delegating(5), &write, &child, &read, input, 5).is_ok());
}
