//! Stages, the profiles that run them, and the shape a run of them records.

use ratatoskr_nodes::config::{
    AgentProfileConfig, Capability, ImplementerConfig, ModelRoute, NamedAgent, PluginsConfig,
    PublishConfig, RatatoskrConfig, SessionScope,
};
use ratatoskr_nodes::stage::{
    agent_profiles, built_in_agents, for_node, members, overlay, profile_for, shape_from_workflow,
    stage_fixture, stages_from_workflow, AgentProfile, OutputSchema, Stage,
};
use ratatoskr_nodes::workflow::{WorkflowLayoutColumn, WorkflowMeta};

fn meta(stages: Vec<Stage>, layout: Vec<WorkflowLayoutColumn>) -> WorkflowMeta {
    WorkflowMeta {
        name: "custom".to_string(),
        purpose: String::new(),
        when_to_use: Vec::new(),
        nodes: Vec::new(),
        stages,
        layout,
    }
}

fn governed(id: &str, agent: &str, by: &str) -> Stage {
    let mut stage = stage_fixture(id, agent);
    stage.governed_by = Some(by.to_string());
    stage
}

#[test]
fn a_declared_session_overrides_a_route_and_an_undeclared_one_preserves_it() {
    let workflow = meta(
        vec![Stage {
            id: "review".to_string(),
            agent: "reason".to_string(),
            governed_by: None,
            input_contract: "ReviewInput".to_string(),
            output_contract: "ReviewOutput".to_string(),
            output_schema: Some(OutputSchema {
                text: "{\"type\":\"object\"}".into(),
                report: None,
            }),
            instructions: String::new(),
            context: String::new(),
            capabilities: vec![Capability::Read],
            tools: Vec::new(),
            session: Some(SessionScope::Compacted),
            question_renderer: None,
            array_normalization: Vec::new(),
            delegation: None,
            append_repository_guidance: true,
        }],
        Vec::new(),
    );

    let stages = stages_from_workflow(&workflow);
    assert_eq!(
        stages[0].session_scope(SessionScope::Fresh),
        SessionScope::Compacted
    );
    assert_eq!(stages[0].governance_id(), "review");
    // A stage that declares no session keeps whatever its route chose.
    assert_eq!(
        stage_fixture("review", "reason").session_scope(SessionScope::Reuse),
        SessionScope::Reuse
    );
}

fn column(nodes: &[&str], optional: bool) -> WorkflowLayoutColumn {
    WorkflowLayoutColumn {
        nodes: nodes.iter().map(|n| n.to_string()).collect(),
        optional,
    }
}

#[test]
fn the_standard_workflow_declares_the_layout_a_run_of_it_records() {
    let stages = vec![
        stage_fixture("overseer", "reason"),
        governed("context_distillation", "explore", "context"),
        stage_fixture("analyst", "reason"),
        governed("redteam_classifier", "reason", "redteam"),
        governed("redteam_author", "build", "redteam"),
        governed("implementer_attempt", "build", "implementer"),
        stage_fixture("verifier", "reason"),
    ];
    let workflow = meta(
        stages.clone(),
        vec![
            column(&["overseer"], true),
            column(&["context"], false),
            column(&["analyst"], false),
            column(&["redteam", "implementer"], false),
            column(&["verifier"], true),
        ],
    );
    let shape = shape_from_workflow(&workflow);
    let at = |name: &str| {
        shape
            .iter()
            .find(|node| node.name == name)
            .unwrap_or_else(|| panic!("the layout places `{name}`"))
    };
    assert_eq!(at("redteam").stage, at("implementer").stage, "one column");
    assert_ne!(at("redteam").lane, at("implementer").lane, "two lanes");
    assert!(at("context").stage < at("analyst").stage);
    assert!(at("overseer").optional);
    assert!(at("verifier").optional);
    assert!(!at("context").optional);

    // Each box says which stages do its work: one of its own name, or the several that compose it.
    assert_eq!(members(&stages, "analyst"), ["analyst"]);
    assert_eq!(
        members(&stages, "redteam"),
        ["redteam_classifier", "redteam_author"]
    );
    assert_eq!(members(&stages, "implementer"), ["implementer_attempt"]);
    assert_eq!(members(&stages, "context"), ["context_distillation"]);
    assert!(shape_from_workflow(&meta(Vec::new(), Vec::new())).is_empty());
}

#[test]
fn a_declaration_takes_the_place_of_the_stage_it_overrides() {
    let mut registry = vec![
        stage_fixture("analyst", "reason"),
        stage_fixture("verifier", "reason"),
    ];
    overlay(
        &mut registry,
        &[
            stage_fixture("analyst", "explore"),
            stage_fixture("security_review", "reason"),
        ],
    );
    let ids: Vec<&str> = registry.iter().map(|s| s.id.as_str()).collect();
    assert_eq!(ids, ["analyst", "verifier", "security_review"]);
    assert_eq!(registry[0].agent, "explore");

    // Declared again, the last declaration is the one that stands.
    overlay(
        &mut registry,
        &[
            stage_fixture("analyst", "build"),
            stage_fixture("analyst", "reason"),
        ],
    );
    assert_eq!(registry.len(), 3);
    assert_eq!(registry[0].agent, "reason");
    assert_eq!(registry[1].agent, "reason");
}

#[test]
fn a_stage_is_found_by_its_id_before_what_it_is_governed_by() {
    let stages = [
        governed("first", "reason", "redteam"),
        stage_fixture("redteam", "build"),
    ];
    assert_eq!(for_node(&stages, "redteam").unwrap().agent, "build");
    assert_eq!(for_node(&stages[..1], "redteam").unwrap().id, "first");
    assert!(for_node(&stages, "nobody").is_none());
}

fn config(agents: Vec<NamedAgent>) -> RatatoskrConfig {
    RatatoskrConfig {
        models: Vec::new(),
        agents,
        implementer: ImplementerConfig {
            always_fork: false,
            verify_threshold: "P2".into(),
        },
        publish: PublishConfig {
            enabled: false,
            committer_name: "ratatoskr".into(),
            committer_email: "ratatoskr@localhost".into(),
        },
        plugins: PluginsConfig {
            skills_deny: Vec::new(),
        },
    }
}

fn agent(name: &str, capabilities: &[Capability]) -> NamedAgent {
    NamedAgent {
        name: name.into(),
        agent: AgentProfileConfig {
            model: Some(ModelRoute::named("openai", "gpt-5")),
            base_prompt: "be careful".into(),
            capabilities: capabilities.to_vec(),
            tool_policy: None,
            max_turns: Some(7),
        },
    }
}

#[test]
fn a_configured_agent_replaces_the_built_in_of_its_name() {
    let built_in = built_in_agents();
    let config = config(vec![
        agent("build", &[Capability::Read]),
        agent("ours", &[Capability::Write]),
    ]);
    let profiles = agent_profiles(&config);
    assert_eq!(profiles.len(), built_in.len() + 1);
    let build = profiles.iter().find(|p| p.id == "build").unwrap();
    assert_eq!(build.ceiling(), Some(Capability::Read));
    assert_eq!(build.max_turns, Some(7));
    assert_eq!(
        profile_for(&config, &[stage_fixture("attempt", "build")], "attempt")
            .unwrap()
            .base_prompt,
        "be careful"
    );
    assert!(profile_for(&config, &[stage_fixture("attempt", "ghost")], "attempt").is_none());
}

#[test]
fn a_stage_only_ever_narrows_what_its_profile_allows() {
    let profile = AgentProfile::from_config(
        "build",
        &agent("build", &[Capability::Write]).agent,
    );
    let mut stage = stage_fixture("s", "build");
    assert_eq!(stage.effective_ceiling(&profile), Some(Capability::Write));
    stage.capabilities = vec![Capability::Read];
    assert_eq!(stage.effective_ceiling(&profile), Some(Capability::Read));
    stage.capabilities = vec![Capability::Publish];
    assert_eq!(stage.effective_ceiling(&profile), Some(Capability::Write));
    let mut nothing = profile.copy();
    nothing.capabilities.clear();
    assert_eq!(stage.effective_ceiling(&nothing), None);
}

#[test]
fn a_stages_prompt_is_its_parts_in_order() {
    let profile = AgentProfile::from_config("p", &agent("p", &[Capability::Read]).agent);
    let mut stage = stage_fixture("s", "p");
    stage.instructions = "do this".into();
    stage.context = "knowing that".into();
    stage.append_repository_guidance = true;
    let whole = stage.prompt("invariants", &profile, "house rules");
    let at = |part: &str| whole.find(part).unwrap_or_else(|| panic!("{part}: {whole}"));
    assert!(at("be careful") < at("do this"));
    assert!(at("do this") < at("house rules"));
    stage.append_repository_guidance = false;
    assert!(!stage.prompt("invariants", &profile, "house rules").contains("house rules"));
}
