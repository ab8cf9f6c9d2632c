//! Which workflows a repository has, which one a run executes, and what a run records of it.

use ratatoskr_nodes::analyst::AnalystOutput;
use ratatoskr_nodes::config::{
    ImplementerConfig, PluginsConfig, PublishConfig, RatatoskrConfig,
};
use ratatoskr_nodes::issue::Fetched;
use ratatoskr_nodes::overseer::OverseerOutput;
use ratatoskr_nodes::run::{
    fork_is_needed, launch, prepare, registry_recorded, run_provenance, shape_provenance, Prepared,
};
use ratatoskr_nodes::stage::{stage_fixture, Stage};
use ratatoskr_nodes::validate::validate_layout;
use ratatoskr_nodes::workflow::{
    choice_to_make, choose_workflow, defined_in, governable_from, overseer_decides,
    overseer_question, registry, select, should_consult_overseer,
    validate_configured_stage_registry, Chosen, Workflow, WorkflowLayoutColumn, WorkflowMeta,
    BUILT_IN, SCRIPTED_REVIEW_WARNING,
};

fn config() -> RatatoskrConfig {
    RatatoskrConfig {
        models: Vec::new(),
        agents: Vec::new(),
        implementer: ImplementerConfig {
            always_fork: false,
            verify_threshold: "P2".into(),
        },
        publish: PublishConfig {
            enabled: false,
            committer_name: "ratatoskr".into(),
            committer_email: "ratatoskr@localhost".into(),
        },
        plugins: PluginsConfig {
            skills_deny: Vec::new(),
        },
    }
}

fn meta(name: &str) -> WorkflowMeta {
    WorkflowMeta {
        name: name.into(),
        purpose: format!("{name}ing"),
        when_to_use: vec![format!("when {name} is wanted")],
        nodes: Vec::new(),
        stages: Vec::new(),
        layout: Vec::new(),
    }
}

/// The registry a repo defining `named` would have: the built-in plus those.
fn registry_of(named: &[&str]) -> Vec<Workflow> {
    registry(named.iter().map(|name| meta(name)).collect())
}

fn governed(id: &str, agent: &str, by: &str) -> Stage {
    let mut stage = stage_fixture(id, agent);
    stage.governed_by = Some(by.to_string());
    stage
}

/// A registry with the standard stages' identities.
fn standard() -> Vec<Stage> {
    let contract = |mut stage: Stage, contract: &str| {
        stage.output_contract = contract.into();
        stage
    };
    vec![
        stage_fixture("overseer", "reason"),
        contract(
            governed("context_distillation", "explore", "context"),
            "Distillation",
        ),
        contract(stage_fixture("analyst", "reason"), "AnalystOutput"),
        governed("redteam_classifier", "reason", "redteam"),
        governed("redteam_author", "build", "redteam"),
        governed("implementer_attempt", "build", "implementer"),
        stage_fixture("verifier", "reason"),
        stage_fixture("characterizer", "reason"),
        stage_fixture("bookkeeper", "reason"),
        stage_fixture("publisher", "publish"),
    ]
}

fn declaring(name: &str, stages: Vec<Stage>) -> WorkflowMeta {
    WorkflowMeta {
        stages,
        ..meta(name)
    }
}

fn laying_out(name: &str, columns: &[&[&str]]) -> WorkflowMeta {
    WorkflowMeta {
        layout: columns
            .iter()
            .map(|nodes| WorkflowLayoutColumn {
                nodes: nodes.iter().map(|n| n.to_string()).collect(),
                optional: false,
            })
            .collect(),
        ..meta(name)
    }
}

fn refused(found: &[WorkflowMeta]) -> String {
    validate_configured_stage_registry(&config(), found, &standard())
        .expect_err("refused")
        .message()
}

fn name_of(picked: Workflow) -> String {
    picked.name().to_string()
}

#[test]
fn naming_a_workflow_that_is_not_there_fails_and_says_what_is() {
    let err = select(registry_of(&["research", "fix"]), Some("migrate"))
        .expect_err("an unknown workflow name must fail")
        .message();
    assert!(err.contains("no workflow named `migrate`"), "{err}");
    assert!(err.contains("fix") && err.contains("research"), "{err}");
    // The built-in is listed too.
    assert!(err.contains(BUILT_IN), "{err}");
}

#[test]
fn choosing_between_several_is_not_done_by_accident() {
    let err = select(registry_of(&["research", "fix"]), None)
        .expect_err("several defined workflows with no name must not silently pick one")
        .message();
    assert!(err.contains("--workflow"), "{err}");
    let picked = select(registry_of(&["research", "fix"]), Some("fix")).unwrap();
    assert_eq!(picked.name(), "fix");
}

#[test]
fn the_built_in_is_the_fallback_and_can_also_be_asked_for_by_name() {
    assert_eq!(
        name_of(select(vec![Workflow::BuiltIn], None).unwrap()),
        BUILT_IN
    );
    // One defined workflow is used without being named.
    assert_eq!(name_of(select(registry_of(&["only"]), None).unwrap()), "only");
    // And the built-in can be demanded even when scripts exist.
    let picked = select(registry_of(&["only"]), Some(BUILT_IN)).unwrap();
    assert!(matches!(picked, Workflow::BuiltIn));
}

#[test]
fn the_default_standard_stage_registry_has_unique_identifiers() {
    validate_configured_stage_registry(&config(), &[], &standard())
        .expect("the standard declarations name each stage once");
}

#[test]
fn configured_registry_allows_governance_by_another_declared_stage() {
    let template = stage_fixture("analyst", "reason");
    let mut policy = template.clone();
    policy.id = "shared_policy".to_string();
    let mut consumer = template;
    consumer.id = "custom_plan".to_string();
    consumer.governed_by = Some(policy.id.clone());

    validate_configured_stage_registry(&config(), &[], &[policy, consumer])
        .expect("resolved declared stage IDs are permitted governance identities");
}

#[test]
fn a_workflow_can_add_to_the_nodes_a_ruleset_may_govern() {
    // The built-in adds none: it governs exactly the standard set.
    assert!(Workflow::BuiltIn.nodes().is_empty());
    let set = governable_from(&standard(), &[]);
    assert!(!set.contains(&"referee".to_string()));
    let mut deep = meta("deep");
    deep.nodes = vec!["second_look".into(), "triager".into()];
    let declared = Workflow::Scripted(deep.clone());
    assert_eq!(declared.nodes(), ["second_look", "triager"]);
    assert!(governable_from(&standard(), &[deep]).contains(&"triager".to_string()));
    assert!(set.contains(&"verifier".to_string()));
    assert!(!set.contains(&"memory".to_string()));
    assert!(set.contains(&"implementer".to_string()));
}

#[test]
fn a_repository_may_govern_two_stages_under_one_name_as_the_built_ins_do() {
    let found = [declaring(
        "review",
        vec![
            governed("style_review", "reason", "critic"),
            governed("logic_review", "reason", "critic"),
            stage_fixture("triage", "reason"),
        ],
    )];
    let governable = governable_from(&standard(), &found);
    assert!(governable.contains(&"critic".to_string()), "{governable:?}");
    assert!(governable.contains(&"triage".to_string()), "{governable:?}");
    // The two halves' own ids are not governance identities.
    assert!(
        !governable.contains(&"style_review".to_string()),
        "{governable:?}"
    );
    validate_configured_stage_registry(&config(), &found, &standard())
        .expect("a repository may share one governance identity across its stages");
}

#[test]
fn the_overseer_is_consulted_only_when_there_is_a_real_choice() {
    // A caller that named a workflow said which shape it wanted.
    assert!(!should_consult_overseer(3, true, true));
    // One or none resolves without a model call.
    assert!(!should_consult_overseer(1, false, true));
    assert!(!should_consult_overseer(0, false, true));
    // Unconfigured, the run refuses to guess rather than picking for itself.
    assert!(!should_consult_overseer(3, false, false));
    // The only case worth a call.
    assert!(should_consult_overseer(2, false, true));
}

#[test]
fn a_choice_naming_something_absent_is_refused_rather_than_run() {
    let err = overseer_decides(
        registry_of(&["research"]),
        OverseerOutput {
            workflow: "invented".to_string(),
            reasoning: "the model invented a route".to_string(),
        },
    )
    .expect_err("a name that is not in the registry must not select anything")
    .message();
    assert!(err.contains("no workflow named `invented`"), "{err}");
    assert!(err.contains("research"), "{err}");

    let routed = overseer_decides(
        registry_of(&["research"]),
        OverseerOutput {
            workflow: "research".to_string(),
            reasoning: "a question".to_string(),
        },
    )
    .unwrap();
    assert_eq!(routed.workflow.name(), "research");
    assert_eq!(routed.record.reasoning, "a question");
}

#[test]
fn the_first_workflow_of_a_repeated_name_is_the_one_that_runs() {
    let mut later = meta("research");
    later.purpose = "researching again".into();
    let found = registry(vec![meta("research"), later]);
    let decided = OverseerOutput {
        workflow: "research".to_string(),
        reasoning: "a question".to_string(),
    };
    let routed = overseer_decides(found, decided).unwrap();
    assert_eq!(routed.workflow.purpose(), "researching");
}

#[test]
fn the_built_in_is_chosen_by_nothing_else_matching() {
    assert!(Workflow::BuiltIn.when_to_use().is_empty());
    assert!(!Workflow::BuiltIn.purpose().is_empty());
}

#[test]
fn a_real_choice_is_put_to_the_overseer_with_everything_there_is() {
    let found = registry_of(&["research", "fix"]);
    assert!(choice_to_make(&found, None));
    assert!(!choice_to_make(&found, Some("fix")));
    let question = overseer_question(&found, "which?");
    let names: Vec<&str> = question.choices.iter().map(|c| c.name.as_str()).collect();
    assert_eq!(names, [BUILT_IN, "research", "fix"]);
    assert_eq!(question.choices[2].purpose, "fixing");
    assert_eq!(question.choices[2].when_to_use, ["when fix is wanted"]);
    assert!(matches!(
        choose_workflow(found, None, true, "which?"),
        Chosen::Ask { .. }
    ));
    assert!(matches!(
        choose_workflow(registry_of(&["research", "fix"]), None, false, "which?"),
        Chosen::Settled(Err(_))
    ));
}

#[test]
fn referee_is_no_longer_a_governable_node() {
    let set = governable_from(&standard(), &[]);
    assert!(!set.contains(&"referee".to_string()));
    for name in [
        "overseer",
        "publisher",
        "context",
        "analyst",
        "implementer",
        "bookkeeper",
        "redteam",
        "verifier",
        "characterizer",
    ] {
        assert!(set.contains(&name.to_string()), "{name} must stay governable");
    }
    assert!(!set.contains(&"scout".to_string()));
}

#[test]
fn workflow_declaration_cannot_re_enter_internal_referee() {
    let mut deep = meta("deep");
    deep.nodes = vec!["referee".into()];
    assert!(
        !governable_from(&standard(), &[deep]).contains(&"referee".to_string()),
        "a workflow declaration cannot make the internal judge governable"
    );
}

#[test]
fn a_repository_workflow_cannot_take_the_bundled_workflows_name() {
    let error = defined_in(vec![meta(BUILT_IN)], None).unwrap_err().message();
    assert!(error.contains(BUILT_IN), "{error}");
    // The single-file workflow joins the directory's, unless its name is taken.
    let both = defined_in(vec![meta("fix")], Some(meta("workflow"))).unwrap();
    assert_eq!(both.len(), 2);
    let one = defined_in(vec![meta("fix")], Some(meta("fix"))).unwrap();
    assert_eq!(one.len(), 1);
}

#[test]
fn renaming_a_standard_stage_in_typescript_renames_what_governs_and_what_is_drawn() {
    let mut stages = standard();
    stages[2] = stage_fixture("strategist", "reason");
    let governable = governable_from(&stages, &[]);
    assert!(governable.contains(&"strategist".to_string()), "{governable:?}");
    assert!(!governable.contains(&"analyst".to_string()), "{governable:?}");
    let layout = laying_out("renamed", &[&["strategist"]]).layout;
    validate_layout(&layout, &stages, "renamed").unwrap();
    assert!(validate_layout(&laying_out("r", &[&["analyst"]]).layout, &stages, "r").is_err());
}

#[test]
fn a_layout_naming_a_node_no_stage_provides_is_refused_at_load() {
    let error = refused(&[laying_out("ours", &[&["analyst"], &["analsyt"]])]);
    assert!(error.contains("ours"), "{error}");
    assert!(error.contains("analsyt"), "{error}");
}

#[test]
fn a_layout_naming_a_stage_the_run_folds_as_evidence_is_refused() {
    let error = refused(&[laying_out("ours", &[&["analyst"], &["implementer_attempt"]])]);
    assert!(error.contains("ours"), "{error}");
    assert!(error.contains("implementer_attempt"), "{error}");
}

#[test]
fn a_layout_column_with_no_nodes_is_refused() {
    let error = refused(&[laying_out("ours", &[&[], &["analyst"]])]);
    assert!(error.contains("ours"), "{error}");
    assert!(error.contains("empty column"), "{error}");
}

#[test]
fn a_layout_naming_one_node_twice_is_refused() {
    let error = refused(&[laying_out("ours", &[&["analyst"], &["verifier", "analyst"]])]);
    assert!(error.contains("ours"), "{error}");
    assert!(error.contains("analyst"), "{error}");
}

#[test]
fn a_workflow_may_lay_out_a_stage_it_declares_itself() {
    let mut ours = laying_out("ours", &[&["security_review"]]);
    ours.stages = vec![stage_fixture("security_review", "reason")];
    validate_configured_stage_registry(&config(), &[ours], &standard())
        .expect("a workflow may place the stages it declares");
}

fn overriding(name: &str, instructions: &str) -> WorkflowMeta {
    let mut analyst = standard().remove(2);
    analyst.instructions = instructions.into();
    analyst.output_schema = Some(ratatoskr_nodes::stage::OutputSchema {
        text: "{\"type\":\"object\"}".into(),
        report: None,
    });
    declaring(name, vec![analyst])
}

#[test]
fn an_overridden_standard_stage_passes_startup_validation() {
    validate_configured_stage_registry(&config(), &[overriding("ours", "ours")], &standard())
        .expect("a workflow overriding `analyst` is a valid configuration");
}

#[test]
fn two_workflows_may_each_override_the_same_standard_stage() {
    validate_configured_stage_registry(
        &config(),
        &[overriding("first", "one"), overriding("second", "two")],
        &standard(),
    )
    .expect("two workflows may each override `analyst`");
}

#[test]
fn a_new_stage_id_validates_and_a_repeated_one_within_a_workflow_does_not() {
    validate_configured_stage_registry(
        &config(),
        &[declaring("ours", vec![stage_fixture("critic", "reason")])],
        &standard(),
    )
    .expect("a genuinely new stage id is still added");

    let error = refused(&[declaring(
        "ours",
        vec![
            stage_fixture("critic", "reason"),
            stage_fixture("critic", "reason"),
        ],
    )]);
    assert!(
        error.contains("declares stage `critic` more than once"),
        "unexpected error: {error}"
    );
}

#[test]
fn a_reserved_name_is_refused_by_the_startup_gate() {
    for (declared, expected) in [
        ("context", "Rust-owned workflow operation"),
        ("bookkeeper", "terminal adapter"),
        ("publisher", "terminal adapter"),
        ("overseer", "the selection between workflows"),
    ] {
        let error = refused(&[declaring("ours", vec![stage_fixture(declared, "reason")])]);
        assert!(error.contains(expected), "unexpected error: {error}");
        assert!(
            error.contains(declared),
            "the error must name the stage: {error}"
        );
    }
}

fn analyst_saying(changes_code: bool) -> AnalystOutput {
    AnalystOutput {
        impact_summary: "impact".into(),
        touched: vec!["a.rs".into()],
        risks: Vec::new(),
        requirements: Vec::new(),
        residual_risk: String::new(),
        changes_code,
        acceptance: Vec::new(),
        interface: Vec::new(),
    }
}

#[test]
fn the_fork_runs_when_the_plan_changes_code_and_when_a_human_insists() {
    let mut config = config();
    assert!(fork_is_needed(&analyst_saying(true), &config));
    assert!(!fork_is_needed(&analyst_saying(false), &config));

    // The override only ever adds work.
    config.implementer.always_fork = true;
    assert!(fork_is_needed(&analyst_saying(false), &config));
    assert!(fork_is_needed(&analyst_saying(true), &config));
}

#[test]
fn a_run_is_prepared_on_the_task_as_it_was_filled_in() {
    let fetched = || {
        Some(Fetched {
            title: "Move it".into(),
            body: "Two paragraphs.".into(),
        })
    };
    match prepare(
        true,
        "Issue #7",
        Some("7"),
        fetched(),
        registry_of(&["only"]),
        None,
        true,
    )
    .unwrap()
    {
        Prepared::Ready(launch) => {
            assert!(launch.issue.ends_with("Move it\n\nTwo paragraphs."));
            assert_eq!(launch.workflow.name(), "only");
            assert_eq!(launch.warning, Some(SCRIPTED_REVIEW_WARNING));
        }
        other => panic!("{other:?}"),
    }
    match prepare(
        true,
        "Issue #7",
        Some("7"),
        fetched(),
        registry_of(&["a", "b"]),
        None,
        true,
    )
    .unwrap()
    {
        Prepared::Ask {
            issue,
            question,
            found,
        } => {
            assert_eq!(issue, question.issue);
            assert_eq!(found.len(), 3);
            assert_eq!(question.choices.len(), 3);
        }
        other => panic!("{other:?}"),
    }
    assert!(prepare(false, "i", None, None, registry_of(&["a", "b"]), None, false).is_err());
    // Only a full run of a repository's own workflow is warned of.
    let scripted = || Workflow::Scripted(meta("only"));
    assert_eq!(launch(false, "i".into(), scripted()).warning, None);
    assert_eq!(launch(true, "i".into(), Workflow::BuiltIn).warning, None);
}

#[test]
fn a_run_whose_stage_registry_does_not_land_does_not_start() {
    assert!(registry_recorded(Ok(())).is_ok());
    assert_eq!(
        registry_recorded(Err("no such run".into()))
            .unwrap_err()
            .message(),
        "node `workflow` failed: the run's stage registry did not record: no such run"
    );
    let shape = shape_provenance("{}".into());
    assert_eq!(shape.shape_json.as_deref(), Some("{}"));
    assert!(shape.config_json.is_none() && shape.graph_fingerprint.is_none());
    let rest = run_provenance(None, "00ff".into(), Some("abc".into()));
    assert_eq!(rest.graph_fingerprint.as_deref(), Some("00ff"));
    assert_eq!(rest.repo_sha.as_deref(), Some("abc"));
    assert!(rest.shape_json.is_none());
}
