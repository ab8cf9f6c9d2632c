//! Where each node runs, and what its turn may use.

use ratatoskr_nodes::config::{
    AgentProfileConfig, Capability, ImplementerConfig, ModelRoute, NamedAgent, NamedRoute,
    PluginsConfig, PublishConfig, RatatoskrConfig,
};
use ratatoskr_nodes::error::PlanError;
use ratatoskr_nodes::plugins::{
    declared_stage_agent_config, redteam_author_agent_config, stage_agent_config, CallPolicy,
    NodePlugins,
};
use ratatoskr_nodes::routes::{
    characterizer_enabled, node_route, overseer_enabled, red_team_half_enabled, referee_route,
    route, verifier_enabled, Ruleset, RulesetConfig, RulesetModel, RulesetTools, ScriptEngine,
};
use ratatoskr_nodes::stage::{stage_fixture, Stage};
use ratatoskr_nodes::tools::ToolSet;

fn config() -> RatatoskrConfig {
    RatatoskrConfig {
        models: Vec::new(),
        agents: Vec::new(),
        implementer: ImplementerConfig {
            always_fork: false,
            verify_threshold: "P2".into(),
        },
        publish: PublishConfig {
            enabled: false,
            committer_name: "ratatoskr".into(),
            committer_email: "ratatoskr@localhost".into(),
        },
        plugins: PluginsConfig {
            skills_deny: Vec::new(),
        },
    }
}

fn routed(routes: &[(&str, &str, &str)]) -> RatatoskrConfig {
    let mut config = config();
    for (name, provider, model) in routes {
        config.models.push(NamedRoute {
            name: name.to_string(),
            route: ModelRoute::named(provider, model),
        });
    }
    config
}

fn rules() -> RulesetConfig {
    RulesetConfig {
        model: None,
        tools: None,
        max_turns: None,
        system_prompt: None,
        has_on_tool_call: false,
    }
}

fn engine(rulesets: Vec<(&str, RulesetConfig)>) -> ScriptEngine {
    ScriptEngine {
        rulesets: rulesets
            .into_iter()
            .map(|(node, config)| Ruleset {
                node: node.into(),
                config,
            })
            .collect(),
    }
}

fn modelled(provider: &str, model: &str) -> RulesetConfig {
    RulesetConfig {
        model: Some(RulesetModel {
            provider: provider.into(),
            model: model.into(),
        }),
        ..rules()
    }
}

fn governed(id: &str, agent: &str, by: &str) -> Stage {
    let mut stage = stage_fixture(id, agent);
    stage.governed_by = Some(by.to_string());
    stage
}

fn red_team() -> Vec<Stage> {
    vec![
        governed("redteam_classifier", "reason", "redteam"),
        governed("redteam_author", "build", "redteam"),
    ]
}

fn with_agent(mut config: RatatoskrConfig, name: &str, agent: AgentProfileConfig) -> RatatoskrConfig {
    config.agents.push(NamedAgent {
        name: name.into(),
        agent,
    });
    config
}

fn agent(model: Option<ModelRoute>, capabilities: &[Capability]) -> AgentProfileConfig {
    AgentProfileConfig {
        model,
        base_prompt: String::new(),
        capabilities: capabilities.to_vec(),
        tool_policy: None,
        max_turns: None,
    }
}

#[test]
fn ruleset_model_replaces_the_toml_route() {
    let mut ruled = modelled("openai", "gpt-5");
    ruled.system_prompt = Some("Be brief.".into());
    let (cfg, _) = declared_stage_agent_config(
        &engine(vec![("characterizer", ruled)]),
        &config(),
        ToolSet::new(),
        &stage_fixture("characterizer", "reason"),
        &[],
        &NodePlugins::default(),
        Capability::Publish,
        None,
    )
    .unwrap();
    assert_eq!(cfg.route.provider, "openai");
    assert_eq!(cfg.route.model, "gpt-5");
    assert_eq!(cfg.system_prompt.as_deref(), Some("Be brief."));
}

#[test]
fn a_node_that_declares_no_tools_is_not_handed_the_file_tools() {
    let config = routed(&[
        ("characterizer", "anthropic", "haiku"),
        ("analyst", "anthropic", "sonnet"),
    ]);
    let engine = engine(Vec::new());
    let (none, _) = declared_stage_agent_config(
        &engine,
        &config,
        ToolSet::new(),
        &stage_fixture("characterizer", "reason"),
        &[],
        &NodePlugins::default(),
        Capability::Publish,
        Some("/repo".into()),
    )
    .unwrap();
    assert!(none.tools.names().is_empty(), "{:?}", none.tools.names());
    // The root is still set, and that is not a capability.
    assert!(none.files.is_some(), "the root is not the capability");

    let (some, _) = declared_stage_agent_config(
        &engine,
        &config,
        ToolSet::new(),
        &stage_fixture("analyst", "reason"),
        &["impact_surface", "symbol_lookup", "semantic_search"],
        &NodePlugins::default(),
        Capability::Publish,
        Some("/repo".into()),
    )
    .unwrap();
    assert!(some.files.is_some());
    assert!(some.tools.names().iter().any(|n| n == "Read"));
}

#[test]
fn a_ruleset_without_a_model_still_falls_back_to_toml() {
    let mut ruled = rules();
    ruled.max_turns = Some(3);
    let (cfg, _) = declared_stage_agent_config(
        &engine(vec![("bookkeeper", ruled)]),
        &routed(&[("bookkeeper", "anthropic", "haiku")]),
        ToolSet::new(),
        &stage_fixture("bookkeeper", "reason"),
        &[],
        &NodePlugins::default(),
        Capability::Publish,
        None,
    )
    .unwrap();
    assert_eq!(cfg.route.provider, "anthropic");
    assert_eq!(cfg.route.model, "haiku");
    assert!(cfg.system_prompt.is_none());
    assert_eq!(cfg.max_turns, Some(3));
}

#[test]
fn the_build_profile_caps_the_implementer_turn_unless_its_ruleset_overrides_it() {
    let mut build = agent(None, &[Capability::Write]);
    build.max_turns = Some(250);
    let config = with_agent(routed(&[("implementer", "openai", "gpt-5")]), "build", build);
    let attempt = governed("implementer_attempt", "build", "implementer");
    let resolve = |engine: &ScriptEngine| {
        declared_stage_agent_config(
            engine,
            &config,
            ToolSet::new(),
            &attempt,
            &[],
            &NodePlugins::default(),
            Capability::Publish,
            None,
        )
        .unwrap()
        .0
        .max_turns
    };
    assert_eq!(resolve(&engine(Vec::new())), Some(250));
    let mut ruled = rules();
    ruled.max_turns = Some(7);
    assert_eq!(resolve(&engine(vec![("implementer", ruled)])), Some(7));
}

#[test]
fn no_ruleset_and_no_toml_route_is_still_an_error() {
    let resolved = declared_stage_agent_config(
        &engine(Vec::new()),
        &config(),
        ToolSet::new(),
        &stage_fixture("analyst", "reason"),
        &[],
        &NodePlugins::default(),
        Capability::Publish,
        None,
    );
    assert!(matches!(resolved, Err(PlanError::MissingRoute(n)) if n == "analyst"));
    assert!(matches!(route(&config(), "ask"), Err(PlanError::MissingRoute(n)) if n == "ask"));
    let unknown = declared_stage_agent_config(
        &engine(Vec::new()),
        &config(),
        ToolSet::new(),
        &stage_fixture("analyst", "ghost"),
        &[],
        &NodePlugins::default(),
        Capability::Publish,
        None,
    );
    assert_eq!(
        unknown.unwrap_err().message(),
        "configuration error: stage `analyst` references unknown agent `ghost`"
    );
}

#[test]
fn a_standard_stage_uses_its_selected_profile() {
    let mut build = agent(Some(ModelRoute::named("test", "profile-model")), &[Capability::Read]);
    build.base_prompt = "profile prompt".into();
    build.max_turns = Some(7);
    let config = with_agent(config(), "build", build);
    let mut attempt = governed("implementer_attempt", "build", "implementer");
    attempt.capabilities = vec![Capability::Write];
    let (cfg, profile) = declared_stage_agent_config(
        &engine(Vec::new()),
        &config,
        ToolSet::new(),
        &attempt,
        &["Read", "Grep", "Glob", "Write", "Edit"],
        &NodePlugins::default(),
        Capability::Publish,
        None,
    )
    .unwrap();
    assert_eq!(cfg.route.model, "profile-model");
    assert_eq!(cfg.system_prompt, None);
    assert_eq!(profile.base_prompt, "profile prompt");
    assert_eq!(cfg.max_turns, Some(7));
    assert_eq!(cfg.tools.names(), ["Read", "Grep", "Glob"]);
    assert_eq!(cfg.capability_ceiling, Some(Capability::Read));
}

#[test]
fn a_read_stage_does_not_widen_an_explicit_write_allow_list() {
    let mut ruled = rules();
    ruled.tools = Some(RulesetTools {
        allow: Some(vec!["Write".into()]),
        deny: Vec::new(),
    });
    let mut tools = ToolSet::new();
    tools.add_local("Write", Capability::Write);
    let mut analyst = stage_fixture("analyst", "reason");
    analyst.capabilities = vec![Capability::Read];
    let (cfg, _) = declared_stage_agent_config(
        &engine(vec![("analyst", ruled)]),
        &routed(&[("analyst", "anthropic", "sonnet")]),
        tools,
        &analyst,
        &["impact_surface", "symbol_lookup", "semantic_search"],
        &NodePlugins::default(),
        Capability::Publish,
        None,
    )
    .unwrap();
    assert!(cfg.tools.is_empty(), "{:?}", cfg.tools.names());
    assert_eq!(cfg.notes.excluded_by_ceiling, ["Write"]);
}

#[test]
fn redteam_classifier_opts_in_on_either_route_source() {
    let engine = engine(Vec::new());
    for half in ["redteam_classifier", "redteam_author"] {
        assert!(!red_team_half_enabled(&engine, &config(), &red_team(), half));
    }
    // Both halves govern as `redteam`, so one route turns both on.
    let config = routed(&[("redteam", "openai", "gpt-5")]);
    for half in ["redteam_classifier", "redteam_author"] {
        assert!(red_team_half_enabled(&engine, &config, &red_team(), half));
    }
}

#[test]
fn each_red_team_half_is_gated_on_its_own_stage() {
    let engine = engine(Vec::new());
    // The classifier alone is re-governed and routed. It runs; the author still has nowhere.
    let mut stages = red_team();
    stages[0].governed_by = Some("review".to_string());
    let config = routed(&[("review", "openai", "gpt-5")]);
    assert!(red_team_half_enabled(&engine, &config, &stages, "redteam_classifier"));
    assert!(!red_team_half_enabled(&engine, &config, &stages, "redteam_author"));

    // The other direction, needing no override: a model on the classifier's profile is somewhere
    // for the classifier to run and nowhere for the author.
    let config = with_agent(
        self::config(),
        "reason",
        agent(Some(ModelRoute::named("openai", "gpt-5")), &[Capability::Read]),
    );
    assert!(red_team_half_enabled(&engine, &config, &red_team(), "redteam_classifier"));
    assert!(!red_team_half_enabled(&engine, &config, &red_team(), "redteam_author"));
}

#[test]
fn a_stage_governed_by_another_identity_is_enabled_by_that_identitys_route() {
    let engine = engine(Vec::new());
    let stages = [governed("verifier", "explore", "review")];
    assert!(verifier_enabled(
        &engine,
        &routed(&[("review", "openai", "gpt-5")]),
        &stages
    ));
    // A route left behind under the stage id is not somewhere to run.
    let left = routed(&[("verifier", "openai", "gpt-5")]);
    assert!(!verifier_enabled(&engine, &left, &stages));
    // A stage that governs itself is unaffected.
    assert!(verifier_enabled(
        &engine,
        &left,
        &[stage_fixture("verifier", "explore")]
    ));
    assert!(characterizer_enabled(
        &engine,
        &routed(&[("characterizer", "openai", "gpt-5")]),
        &[]
    ));
    assert!(overseer_enabled(
        &engine,
        &routed(&[("overseer", "openai", "gpt-5")]),
        &[]
    ));
    assert!(!overseer_enabled(&engine, &config(), &[]));
}

fn review_stage() -> [Stage; 1] {
    [stage_fixture("verifier", "explore")]
}

#[test]
fn the_referee_falls_back_to_the_verifier_route() {
    let route = referee_route(
        &engine(Vec::new()),
        &routed(&[("verifier", "anthropic", "sonnet")]),
        &review_stage(),
    )
    .expect("the verifier route is the fallback");
    assert_eq!(route.provider, "anthropic");
    assert_eq!(route.model, "sonnet");

    // The same fallback through the verifier route's other spelling.
    let route = referee_route(
        &engine(vec![("verifier", modelled("openai", "gpt-5"))]),
        &config(),
        &review_stage(),
    )
    .expect("ruleset verifier is the fallback");
    assert_eq!(route.provider, "openai");
    assert_eq!(route.model, "gpt-5");
}

#[test]
fn the_referees_own_route_wins_over_the_verifiers() {
    let config = routed(&[
        ("verifier", "anthropic", "sonnet"),
        ("referee", "openai", "gpt-5"),
    ]);
    let route = referee_route(&engine(Vec::new()), &config, &review_stage())
        .expect("a referee route is configured");
    assert_eq!(route.model, "gpt-5", "the referee's route beats the verifier's");

    // A ruleset named referee cannot override this internal route.
    let route = referee_route(
        &engine(vec![("referee", modelled("moonshot", "kimi-k2.5"))]),
        &config,
        &review_stage(),
    )
    .expect("the configured referee route still wins");
    assert_eq!(route.provider, "openai");
    assert_eq!(route.model, "gpt-5");
}

#[test]
fn no_referee_and_no_verifier_route_means_no_judgement() {
    assert!(referee_route(&engine(Vec::new()), &config(), &review_stage()).is_none());
}

#[test]
fn a_referee_ruleset_contributes_no_route() {
    assert!(
        referee_route(
            &engine(vec![("referee", modelled("moonshot", "kimi-k2.5"))]),
            &config(),
            &review_stage()
        )
        .is_none(),
        "a referee ruleset is never consulted for a route"
    );
}

#[test]
fn models_referee_is_toml_only_and_still_wins() {
    let resolved = referee_route(
        &engine(vec![
            ("referee", modelled("moonshot", "kimi-k2.5")),
            ("verifier", modelled("openai", "gpt-5")),
        ]),
        &routed(&[
            ("verifier", "anthropic", "sonnet"),
            ("referee", "anthropic", "haiku"),
        ]),
        &review_stage(),
    )
    .expect("a referee route is configured");
    assert_eq!(resolved.provider, "anthropic");
    assert_eq!(resolved.model, "haiku");
    assert_ne!(resolved.model, "kimi-k2.5");
    assert_ne!(resolved.model, "gpt-5");
}

#[test]
fn the_verifier_route_is_still_the_fallback() {
    let resolved = referee_route(
        &engine(vec![("referee", modelled("moonshot", "kimi-k2.5"))]),
        &routed(&[("verifier", "anthropic", "sonnet")]),
        &review_stage(),
    )
    .expect("the verifier route is the fallback");
    assert_eq!(resolved.provider, "anthropic");
    assert_eq!(resolved.model, "sonnet");
}

#[test]
fn a_ruleset_beats_the_agent_and_the_agent_beats_the_table() {
    let config = with_agent(
        routed(&[("analyst", "table", "t")]),
        "reason",
        agent(Some(ModelRoute::named("agent", "a")), &[Capability::Read]),
    );
    let stages = [stage_fixture("analyst", "reason")];
    let from = |engine: &ScriptEngine, config: &RatatoskrConfig| {
        node_route(engine, config, &stages, "analyst").map(|r| r.provider)
    };
    let ruled = engine(vec![("analyst", modelled("rules", "r"))]);
    assert_eq!(from(&ruled, &config).as_deref(), Some("rules"));
    assert_eq!(from(&engine(Vec::new()), &config).as_deref(), Some("agent"));
    let table = routed(&[("analyst", "table", "t")]);
    assert_eq!(from(&engine(Vec::new()), &table).as_deref(), Some("table"));
    assert_eq!(from(&engine(Vec::new()), &self::config()), None);
}

#[test]
fn a_profile_policy_applies_to_every_stage_using_the_profile() {
    let mut reason = agent(None, &[Capability::Read]);
    reason.tool_policy = Some("deny-write".into());
    let config = with_agent(
        routed(&[("analyst", "p", "m"), ("bookkeeper", "p", "m")]),
        "reason",
        reason,
    );
    let stages = [
        stage_fixture("analyst", "reason"),
        stage_fixture("bookkeeper", "reason"),
    ];
    for node in ["analyst", "bookkeeper"] {
        let cfg = stage_agent_config(
            &engine(Vec::new()),
            &config,
            ToolSet::new(),
            &stages,
            node,
            &[],
            &mut NodePlugins::default(),
            None,
        )
        .unwrap();
        assert!(matches!(cfg.policy, Some(CallPolicy::Profile(name)) if name == "deny-write"));
    }
    let mut ruled = rules();
    ruled.has_on_tool_call = true;
    let cfg = stage_agent_config(
        &engine(vec![("analyst", ruled)]),
        &config,
        ToolSet::new(),
        &stages,
        "analyst",
        &[],
        &mut NodePlugins::default(),
        None,
    )
    .unwrap();
    assert!(matches!(cfg.policy, Some(CallPolicy::StageThenProfile(name)) if name == "deny-write"));
}

#[test]
fn redteam_test_author_retains_its_write_tools() {
    let mut tools = ToolSet::new();
    tools.add_local("Write", Capability::Write);
    tools.add_local("Edit", Capability::Write);
    let mut author = governed("redteam_author", "build", "redteam");
    author.capabilities = vec![Capability::Write];
    let cfg = redteam_author_agent_config(
        &engine(Vec::new()),
        &routed(&[("redteam", "p", "m")]),
        tools,
        &[governed("redteam_classifier", "reason", "redteam"), author],
        &["Read", "Write", "Edit"],
        &mut NodePlugins::default(),
        None,
    )
    .unwrap();
    for required in ["Write", "Edit"] {
        assert!(
            cfg.tools.names().iter().any(|name| name == required),
            "the red-team test author needs {required}: {:?}",
            cfg.tools.names()
        );
    }
}
