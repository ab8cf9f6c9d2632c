//! What a registry of stages, a set of declarations and a layout are held to.

use ratatoskr_nodes::policy::{folded_as_evidence, required_contract, standard_identifiers};
use ratatoskr_nodes::stage::{built_in_agents, stage_fixture, Delegation, OutputSchema, Stage};
use ratatoskr_nodes::validate::{
    machine_name, validate, validate_declarations, validate_declared_contracts, validate_layout,
};
use ratatoskr_nodes::workflow::{operation_hosts, WorkflowLayoutColumn};

fn schema(text: &str) -> Option<OutputSchema> {
    Some(OutputSchema {
        text: text.into(),
        report: None,
    })
}

/// The governance identities a registry offers: every stage's id and the identity it runs
/// under. What `governable_from` derives from the real standard stages, over the stages a case
/// declares.
fn permitted_for(stages: &[Stage]) -> Vec<String> {
    stages
        .iter()
        .flat_map(|stage| [stage.id.clone(), stage.governance_id().to_string()])
        .collect()
}

#[test]
fn declared_contracts_require_a_valid_schema() {
    let mut stage = stage_fixture("publisher", "publish");
    stage.id = "security_evidence".to_string();
    stage.output_contract = "SecurityEvidence".to_string();
    assert!(validate_declared_contracts(&[stage.clone()]).is_err());

    stage.output_schema = Some(OutputSchema {
        text: "{\"type\":\"object\",\"required\":[\"finding\"],\"properties\":{\"finding\":{\"type\":\"string\"}}}".into(),
        report: Some("output failed schema validation: \"finding\" is a required property".into()),
    });
    assert!(validate_declared_contracts(&[stage]).is_ok());
}

#[test]
fn declared_stages_are_a_registry_not_an_execution_sequence() {
    let template = stage_fixture("analyst", "reason");
    let mut plan = template.clone();
    plan.id = "plan".to_string();
    plan.input_contract = "Issue".to_string();
    plan.output_contract = "Plan".to_string();
    plan.output_schema = schema("{\"type\":\"object\"}");

    let mut review = template;
    review.id = "review".to_string();
    review.input_contract = "ReviewInput".to_string();
    review.output_contract = "Review".to_string();
    review.output_schema = schema("{\"type\":\"array\"}");

    let stages = [plan, review];
    // The workflow script calls hosts explicitly, so metadata order cannot create a dataflow
    // edge or make two independently useful stages incompatible.
    assert!(validate_declared_contracts(&stages).is_ok());
    assert!(validate(&stages, &built_in_agents(), &permitted_for(&stages)).is_ok());
}

#[test]
fn the_order_of_the_stages_decides_nothing() {
    let mut parent = stage_fixture("parent", "reason");
    parent.delegation = Some(Delegation {
        target: "child".into(),
        evidence_contract: String::new(),
        input_limit: 10,
    });
    let child = stage_fixture("child", "reason");
    let other = stage_fixture("other", "reason");
    let accepted = |stages: &[Stage]| {
        validate(stages, &built_in_agents(), &permitted_for(stages)).is_ok()
    };
    assert!(accepted(&[parent.clone(), child.clone(), other.clone()]));
    assert!(accepted(&[other.clone(), child.clone(), parent.clone()]));
    assert!(!accepted(&[parent.clone(), other.clone()]));
    assert!(!accepted(&[other, parent]));
}

#[test]
fn a_stage_may_not_take_the_name_of_a_record_the_run_writes_itself() {
    // `issue` and `clarification` are written by the run, and readers identify them by name
    // alone — so a declared stage under either name would put its own output where a reader
    // expects the run's, and the shape API would report its `from` field as a node caller.
    for reserved in ["issue", "clarification"] {
        let mut stage = stage_fixture("analyst", "reason");
        stage.id = reserved.to_string();
        stage.governed_by = None;

        let err = validate(&[stage], &built_in_agents(), &[])
            .expect_err("a reserved record name must not be accepted as a stage");
        assert!(
            err.message().contains("a checkpoint the run writes itself"),
            "`{reserved}` was rejected for the wrong reason: {}",
                err.message()
        );
    }
}

#[test]
fn omitted_governance_keeps_the_stage_identifier_fallback() {
    let mut stage = stage_fixture("analyst", "reason");
    stage.id = "custom_plan".to_string();
    stage.governed_by = None;

    assert!(validate(&[stage], &built_in_agents(), &[]).is_ok());
}

#[test]
fn explicit_builtin_governance_is_permitted() {
    let mut stage = stage_fixture("analyst", "reason");
    stage.id = "test_author".to_string();
    stage.governed_by = Some("redteam".to_string());

    // `redteam` is what the standard red-team stages are governed by, so it is in the set
    // `governable_from` derives from them.
    assert!(
        validate(
            &[stage],
            &built_in_agents(),
            &["redteam".to_string()],
        )
        .is_ok()
    );
}

#[test]
fn explicit_workflow_governance_is_permitted() {
    let mut stage = stage_fixture("analyst", "reason");
    stage.id = "custom_plan".to_string();
    stage.governed_by = Some("shared_policy".to_string());

    assert!(
        validate(
            &[stage],
            &built_in_agents(),
            &["shared_policy".to_string()],
        )
        .is_ok()
    );
}

#[test]
fn explicit_governance_may_name_another_declared_stage() {
    let template = stage_fixture("analyst", "reason");
    let mut policy = template.clone();
    policy.id = "shared_policy".to_string();
    let mut plan = template;
    plan.id = "custom_plan".to_string();
    plan.governed_by = Some(policy.id.clone());
    let stages = [policy, plan];

    assert!(validate(&stages, &built_in_agents(), &permitted_for(&stages),).is_ok());
}

#[test]
fn explicit_unknown_governance_is_rejected_before_execution() {
    let mut stage = stage_fixture("analyst", "reason");
    stage.id = "custom_plan".to_string();
    stage.governed_by = Some("verifer".to_string());
    let permitted = ["verifier".to_string(), "redteam".to_string()];

    let error = validate(&[stage], &built_in_agents(), &permitted)
        .unwrap_err()
        .message();

    assert!(error.contains("unknown governedBy `verifer`"), "{error}");
    assert!(error.contains("verifier"), "{error}");
}

#[test]
fn declared_stages_cannot_shadow_a_workflow_operation_host() {
    // Reserved from the host table itself, so a host added there cannot pick up a validation
    // gap. `context` is the case that used to slip through: it is an operation the bundled
    // `plan` and `full` both call, and a declaration of it failed only once the run was already
    // writing checkpoints.
    let template = stage_fixture("analyst", "reason");

    for name in operation_hosts() {
        let mut stage = template.clone();
        stage.id = name.to_string();
        let error = validate_declarations(&[stage], "repo-workflow")
            .unwrap_err()
            .message();
        assert!(
            error.contains("Rust-owned workflow operation"),
            "`{name}` must be reserved: {error}"
        );
        assert!(error.contains(&name), "{error}");
    }
}

#[test]
fn declared_stages_cannot_take_a_terminal_adapter_name() {
    let template = stage_fixture("analyst", "reason");

    for terminal in ["bookkeeper", "publisher"] {
        let mut stage = template.clone();
        stage.id = terminal.to_string();
        let error = validate_declarations(&[stage], "repo-workflow")
            .unwrap_err()
            .message();
        assert!(error.contains("terminal adapter"), "{error}");
        assert!(error.contains(terminal), "{error}");
    }
}

#[test]
fn a_standard_stage_may_still_be_overridden() {
    let mut stage = stage_fixture("analyst", "reason");
    stage.id = "implementer_attempt".to_string();
    stage.output_contract = "Report".to_string();

    assert!(validate_declarations(&[stage], "repo-workflow").is_ok());
}

#[test]
fn declared_stages_cannot_take_a_lifecycle_checkpoint_identity() {
    // The run counts `implementer` checkpoints for the iteration ordinal and the ceiling gate,
    // and deserializes `implementer`, `red_team` and `memory` into concrete types. A stage
    // checkpointing its own output under one of those names inflates the count, spends the
    // ceiling recovery early, or fails deserialization in the middle of a run.
    let template = stage_fixture("analyst", "reason");

    for reserved in ["implementer", "red_team", "memory"] {
        let mut stage = template.clone();
        stage.id = reserved.to_string();
        let error = validate_declarations(&[stage], "repo-workflow")
            .unwrap_err()
            .message();
        assert!(
            error.contains("lifecycle checkpoint identity"),
            "`{reserved}` must be reserved: {error}"
        );
        assert!(error.contains(reserved), "{error}");
    }
}

#[test]
fn a_declared_stage_cannot_shadow_the_red_teams_governance_identity() {
    // Stage resolution matches an exact id before falling back to `governedBy`, so a stage
    // named `redteam` answers the lookups made for `redteam_classifier` and `redteam_author`:
    // it decides whether the red team is enabled, and on whose profile. Enabling it that way
    // then leaves route resolution with a `redteam` that has no stage to resolve, and the run
    // dies on the name the workflow just introduced. `implementer` and `context`, the sibling
    // identities, are covered by reservations of their own.
    let template = stage_fixture("analyst", "reason");

    let mut stage = template.clone();
    stage.id = "redteam".to_string();
    let error = validate_declarations(&[stage], "repo-workflow")
        .unwrap_err()
        .message();
    assert!(error.contains("stage `redteam`"), "{error}");
    assert!(error.contains("governance identity"), "{error}");

    // The stages it governs keep their own declarable ids.
    for declarable in ["redteam_classifier", "redteam_author"] {
        let mut stage = template.clone();
        stage.id = declarable.to_string();
        stage.output_contract = required_contract(declarable).unwrap().to_string();
        stage.governed_by = Some("redteam".to_string());
        assert!(
            validate_declarations(&[stage], "repo-workflow").is_ok(),
            "`{declarable}` must stay declarable"
        );
    }
}

#[test]
fn an_override_may_not_change_a_contract_the_run_deserializes() {
    // `redTeam()` reads the `analyst` checkpoint back as `AnalystOutput` and `implement()`
    // takes one as its argument. An override that checkpoints another shape passes every other
    // gate and fails when the adapter reads it — after the stage has already run.
    let mut template = stage_fixture("analyst", "reason");
    template.output_contract = "AnalystOutput".to_string();

    let mut changed = template.clone();
    changed.output_contract = "SecurityPlan".to_string();
    let error = validate_declarations(&[changed], "repo-workflow")
        .unwrap_err()
        .message();
    assert!(error.contains("stage `analyst`"), "{error}");
    assert!(error.contains("`AnalystOutput`"), "{error}");
    assert!(error.contains("`SecurityPlan`"), "{error}");

    // Everything else about the stage is still the workflow's to change.
    let mut kept = template;
    kept.agent = "explore".to_string();
    kept.instructions = "read the diff first".to_string();
    assert!(validate_declarations(&[kept], "repo-workflow").is_ok());
}

#[test]
fn governance_may_not_name_a_turn_the_workflow_never_makes() {
    // A stage's model turn runs under its `governedBy` identity: that ruleset, that
    // `[models.*]` route, those plugin bindings, that telemetry attribution and that
    // conversation key. Selection runs before a workflow is chosen and delivery after its
    // outcome is accepted, so neither is an identity a workflow stage can run as.
    let template = stage_fixture("analyst", "reason");

    for reserved in ["publisher", "bookkeeper", "overseer"] {
        let mut stage = template.clone();
        stage.id = "custom_plan".to_string();
        stage.governed_by = Some(reserved.to_string());
        let error = validate_declarations(&[stage], "repo-workflow")
            .unwrap_err()
            .message();
        assert!(
            error.contains(&format!("governedBy `{reserved}`")),
            "{error}"
        );
    }

    // The operations a workflow does drive keep their governance identity: the bundled
    // definitions declare `implementer_attempt` as governedBy `implementer` and
    // `context_distillation` as governedBy `context`.
    for permitted in ["implementer", "context", "redteam"] {
        let mut stage = template.clone();
        stage.id = "custom_plan".to_string();
        stage.governed_by = Some(permitted.to_string());
        assert!(
            validate_declarations(&[stage], "repo-workflow").is_ok(),
            "`{permitted}` must remain a governance identity"
        );
    }
}

#[test]
fn a_delegated_renderer_is_refused_before_execution() {
    let template = stage_fixture("analyst", "reason");
    let mut parent = template.clone();
    parent.id = "parent".to_string();
    parent.delegation = Some(Delegation {
        target: "child".to_string(),
        evidence_contract: "Evidence".to_string(),
        input_limit: 1_000,
    });
    let mut child = template;
    child.id = "child".to_string();
    child.output_contract = "Evidence".to_string();
    child.output_schema = schema("{\"type\":\"object\"}");
    child.question_renderer = Some("input => JSON.stringify(input)".to_string());

    let stages = [parent, child];
    let error = validate(&stages, &built_in_agents(), &permitted_for(&stages))
        .unwrap_err()
        .message();

    assert!(
        error.contains("requires an explicit workflow host call"),
        "{error}"
    );
}

#[test]
fn a_delegation_target_that_itself_delegates_is_refused_at_load() {
    // The executor invokes a delegated child at the evidence disposition, and a stage with a
    // delegation of its own is refused there — so a chain that loads is a registry guaranteed
    // to fail the moment its parent runs. Folding evidence recursively is the alternative, and
    // it buys a depth of model turns nothing bounds for a shape no workflow here wants.
    //
    // Self-delegation is the same declaration pointing at itself: an infinite regress if it
    // were honoured, and the same refusal covers it.
    let template = stage_fixture("analyst", "reason");
    let delegating = |id: &str, target: &str| {
        let mut stage = template.clone();
        stage.id = id.to_string();
        stage.output_contract = "Evidence".to_string();
        stage.output_schema = schema("{\"type\":\"object\"}");
        stage.delegation = Some(Delegation {
            target: target.to_string(),
            evidence_contract: "Evidence".to_string(),
            input_limit: 1_000,
        });
        stage
    };
    let mut leaf = template.clone();
    leaf.id = "leaf".to_string();
    leaf.output_contract = "Evidence".to_string();
    leaf.output_schema = schema("{\"type\":\"object\"}");

    let chain = [
        delegating("first", "second"),
        delegating("second", "leaf"),
        leaf,
    ];
    let error = validate(&chain, &built_in_agents(), &permitted_for(&chain))
        .expect_err("a delegation target that delegates must be refused")
        .message();
    assert!(error.contains("first"), "{error}");
    assert!(error.contains("second"), "{error}");
    assert!(error.contains("delegates onwards"), "{error}");

    let itself = [delegating("loop", "loop")];
    let error = validate(&itself, &built_in_agents(), &permitted_for(&itself))
        .expect_err("a stage that delegates to itself must be refused")
        .message();
    assert!(error.contains("loop"), "{error}");
}

#[test]
fn a_stage_the_run_folds_as_evidence_may_not_delegate() {
    // The bolt between the policy table and this gate. Delegation only runs on the way to a
    // checkpoint, so a standard stage whose output an adapter folds into another record takes
    // the declaration and drops it — silently, on every invocation. Adding one at that
    // disposition without classifying it here is what this refuses to let happen quietly.
    let template = stage_fixture("analyst", "reason");
    let mut child = template.clone();
    child.id = "child".to_string();
    child.output_contract = "Evidence".to_string();
    child.output_schema = schema("{\"type\":\"object\"}");
    let delegating = |id: &str| {
        let mut parent = template.clone();
        parent.id = id.to_string();
        parent.delegation = Some(Delegation {
            target: "child".to_string(),
            evidence_contract: "Evidence".to_string(),
            input_limit: 1_000,
        });
        parent
    };

    let folded: Vec<&str> = standard_identifiers()
        .iter()
        .map(|(id, _)| *id)
        .filter(|id| folded_as_evidence(id))
        .collect();
    assert!(
        !folded.is_empty(),
        "the table classifies no stage as evidence"
    );
    for id in folded {
        let stages = [delegating(id), child.clone()];
        let error = validate(&stages, &built_in_agents(), &permitted_for(&stages))
            .expect_err("a stage the run folds as evidence must not take a delegation")
            .message();
        assert!(error.contains(id), "{error}");
        assert!(error.contains("rather than checkpointed itself"), "{error}");
    }

    // The verifier's adapter checkpoints what it runs, so delegation from it reaches execution.
    let stages = [delegating("verifier"), child];
    assert!(validate(&stages, &built_in_agents(), &permitted_for(&stages)).is_ok());
}

fn column(node: &str) -> [WorkflowLayoutColumn; 1] {
    [WorkflowLayoutColumn {
        nodes: vec![node.to_string()],
        optional: false,
    }]
}

#[test]
fn a_stage_governed_under_another_identity_is_not_drawable_under_either_name() {
    let mut second_reader = stage_fixture("second_reader", "reason");
    second_reader.governed_by = Some("analyst".to_string());
    let analyst = stage_fixture("analyst", "reason");
    let stages = [second_reader, analyst];

    // A run records the second reader's model events under `analyst` and its checkpoint under
    // `second_reader`, so a column under either name draws half of it. The one it does not already
    // own is refused outright...
    let error = validate_layout(&column("second_reader"), &stages, "ours")
        .expect_err("a split identity cannot be drawn as one box")
        .message();
    assert!(error.contains("governedBy `analyst`"), "{error}");
    assert!(error.contains("neither name draws it whole"), "{error}");

    // ...and `analyst` stays drawable, because the analyst stage governs as itself: that box is
    // the analyst's own record. The second reader's turns joining it is what separating execution
    // identity from governance identity fixes, not something the layout can express.
    assert!(validate_layout(&column("analyst"), &stages, "ours").is_ok());
}

#[test]
fn the_identities_a_run_checkpoints_under_are_drawable_without_a_stage_of_that_name() {
    // No stage is called any of these; the run writes them itself and the model turn behind
    // each one is recorded under the same name, so a column names the whole node.
    let stages = [stage_fixture("analyst", "reason")];
    for identity in ["context", "implementer", "red_team", "memory"] {
        assert!(
            validate_layout(&column(identity), &stages, "ours").is_ok(),
            "`{identity}` is a name a run records under"
        );
    }
}

#[test]
fn a_schema_that_does_not_compile_is_refused_with_what_was_reported() {
    let mut stage = stage_fixture("review", "reason");
    stage.output_contract = "Review".to_string();
    stage.output_schema = Some(OutputSchema {
        text: "{\"type\":7}".into(),
        report: Some("output failed schema validation: could not compile: 7 is no type".into()),
    });
    assert_eq!(
        validate_declared_contracts(&[stage]).unwrap_err().message(),
        "configuration error: stage `review` has invalid outputSchema: output failed schema \
         validation: could not compile: 7 is no type"
    );
    let mut bare = stage_fixture("review", "reason");
    bare.output_contract = "Review".to_string();
    assert_eq!(
        validate_declared_contracts(&[bare]).unwrap_err().message(),
        "configuration error: stage `review` declares output contract `Review` without outputSchema"
    );
}

#[test]
fn an_accepted_layout_fills_every_column_and_places_each_name_once() {
    let stages = [
        stage_fixture("analyst", "reason"),
        stage_fixture("review", "reason"),
    ];
    let columns = |names: &[&[&str]]| -> Vec<WorkflowLayoutColumn> {
        names
            .iter()
            .map(|nodes| WorkflowLayoutColumn {
                nodes: nodes.iter().map(|n| n.to_string()).collect(),
                optional: false,
            })
            .collect()
    };
    assert!(validate_layout(&columns(&[&["context"], &["analyst", "review"]]), &stages, "ours").is_ok());
    assert!(validate_layout(&[], &stages, "ours").is_ok());
    let empty = validate_layout(&columns(&[&["context"], &[]]), &stages, "ours").unwrap_err();
    assert!(
        empty.message().contains("lays out an empty column at position 1;"),
        "{}",
        empty.message()
    );
    let twice = validate_layout(&columns(&[&["review"], &["analyst", "review"]]), &stages, "ours")
        .unwrap_err();
    assert!(twice.message().contains("more than once"), "{}", twice.message());
    let unknown = validate_layout(&columns(&[&["nowhere"]]), &stages, "ours").unwrap_err();
    assert!(
        unknown.message().contains("which nothing it runs records under"),
        "{}",
        unknown.message()
    );
}

#[test]
fn a_machine_name_is_lower_case_digits_and_underscores() {
    assert!(machine_name("security_review2"));
    assert!(!machine_name(""));
    assert!(!machine_name("Review"));
    assert!(!machine_name("a-b"));
}
