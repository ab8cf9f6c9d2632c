//! What the plugins of a run contribute, and to which node.

use ratatoskr_nodes::config::Capability;
use ratatoskr_nodes::error::PlanError;
use ratatoskr_nodes::plugins::{
    after_stage, closing_answer, default_allow, is_node_event, servers_to_start, turn_ended,
    Ending, McpServerSpec, NodePlugins, Plugin, PluginContext, PluginServer, StageVerdict,
    ToolDecision,
};
use ratatoskr_nodes::skills::{skill_tool, Skill};
use ratatoskr_nodes::tools::{ServerTools, Tool};

fn names(xs: &[&str]) -> Vec<String> {
    xs.iter().map(|s| s.to_string()).collect()
}

fn bare(name: &str) -> Plugin {
    Plugin {
        name: name.to_string(),
        root: "/nonexistent".to_string(),
        hooks: Vec::new(),
        skills: Vec::new(),
        mcp_servers: Vec::new(),
    }
}

fn plugin_with_server(name: &str, server: &str) -> Plugin {
    Plugin {
        mcp_servers: vec![McpServerSpec {
            name: server.to_string(),
            command: vec!["true".to_string()],
            env: Vec::new(),
        }],
        ..bare(name)
    }
}

fn skill(name: &str) -> Skill {
    Skill {
        name: name.into(),
        description: "d".into(),
        body: "b".into(),
        dir: "/p".into(),
    }
}

fn context(plugins: Vec<Plugin>, skills_deny: &[&str]) -> PluginContext {
    PluginContext::resolve(plugins, &[], &[], names(skills_deny))
        .unwrap()
        .0
}

#[test]
fn a_server_is_started_once_and_never_a_second_rag_rat() {
    let plugins = [
        plugin_with_server("rag-rat", "rag-rat"),
        plugin_with_server("linty", "lint"),
        plugin_with_server("also-linty", "lint"),
        plugin_with_server("fresh", "fresh"),
    ];

    assert_eq!(
        servers_to_start(&plugins)
            .into_iter()
            .map(|(plugin, spec)| (plugin, spec.name.as_str()))
            .collect::<Vec<_>>(),
        [("linty", "lint"), ("fresh", "fresh")]
    );
}

#[test]
fn a_bound_plugins_tools_are_offered_without_being_named() {
    assert_eq!(
        default_allow(&["semantic_search"], vec!["lint".to_string()]),
        ["semantic_search", "lint"]
    );
    // Nothing bound, nothing added.
    assert_eq!(
        default_allow(&["semantic_search"], vec![]),
        ["semantic_search"]
    );
}

#[test]
fn a_context_with_no_engine_composes_nothing() {
    let node = context(Vec::new(), &[]).for_node(&[], None);
    assert_eq!(node.context, None);
    assert!(node.observers.is_empty());
    assert!(node.skills.is_empty());
}

#[test]
fn an_agent_plugin_nobody_installed_still_fails_the_run() {
    let error = PluginContext::resolve(
        vec![bare("ponytail")],
        &names(&["ghost"]),
        &names(&["ghost"]),
        Vec::new(),
    )
    .expect_err("an explicit binding naming an uninstalled plugin must fail");
    let message = match error {
        PlanError::Node {
            node: "plugins",
            source,
        } => source.message(),
        other => panic!("the failure belongs to the `plugins` node, got {other:?}"),
    };
    assert!(
        message.contains("ruleset names plugin(s) that were not found"),
        "{message}"
    );
    assert!(message.contains("ghost"), "{message}");
    assert!(message.contains("ponytail"), "{message}");
}

#[test]
fn a_plugin_named_by_both_defaults_and_an_agent_still_fails_when_undiscovered() {
    let error = PluginContext::resolve(
        vec![bare("ponytail")],
        &names(&["rag-rat"]),
        &names(&["rag-rat", "rag-rat"]),
        Vec::new(),
    )
    .expect_err("an agent-level binding makes the missing plugin required");
    assert!(error.message().contains("rag-rat"), "{}", error.message());
    assert!(error.message().contains("ponytail"), "{}", error.message());
}

#[test]
fn a_default_plugin_nobody_installed_narrows_instead_of_failing() {
    let (context, missing) = PluginContext::resolve(
        vec![bare("ponytail")],
        &[],
        &names(&["rag-rat"]),
        Vec::new(),
    )
    .expect("a missing default narrows the tool pool; it does not fail the run");
    assert_eq!(missing, ["rag-rat"]);
    let bound = context.bound(&names(&["rag-rat"]));
    assert!(bound.is_empty(), "{bound:?}");
}

#[test]
fn a_missing_default_beside_a_discovered_agent_add_resolves_as_before() {
    let (context, missing) = PluginContext::resolve(
        vec![bare("rag-rat"), bare("ponytail")],
        &names(&["ponytail"]),
        &names(&["rag-rat", "ponytail"]),
        Vec::new(),
    )
    .unwrap();
    assert!(missing.is_empty());
    assert_eq!(
        context.bound(&names(&["rag-rat", "ponytail"])),
        ["rag-rat", "ponytail"]
    );
    // Discovering a plugin does not bind it.
    assert_eq!(context.bound(&names(&["rag-rat"])), ["rag-rat"]);
}

#[test]
fn when_everything_declared_is_discovered_resolve_is_unchanged() {
    let (context, missing) = PluginContext::resolve(
        vec![bare("rag-rat"), bare("ponytail")],
        &[],
        &names(&["rag-rat"]),
        Vec::new(),
    )
    .unwrap();
    assert!(missing.is_empty());
    assert_eq!(context.discovered, ["rag-rat", "ponytail"]);
    assert_eq!(context.bound(&names(&["rag-rat"])), ["rag-rat"]);
}

#[test]
fn no_plugins_discovered_at_all_still_runs_when_only_defaults_name_one() {
    let (context, missing) =
        PluginContext::resolve(Vec::new(), &[], &names(&["rag-rat"]), Vec::new()).unwrap();
    assert!(context.discovered.is_empty());
    assert_eq!(missing, ["rag-rat"]);
    assert!(context.bound(&names(&["rag-rat"])).is_empty());
}

#[test]
fn a_node_runs_the_tool_hooks_of_the_plugins_it_binds_and_no_others() {
    let mut hookful = bare("hookful");
    hookful.hooks = names(&["PreToolUse"]);
    let mut sessions = bare("sessions");
    sessions.hooks = names(&["SessionStart"]);
    let context = context(vec![hookful, sessions, bare("quiet")], &[]);
    assert_eq!(
        context
            .for_node(&names(&["hookful", "sessions", "quiet"]), None)
            .observers,
        ["hookful"]
    );
    assert!(context
        .for_node(&names(&["sessions"]), None)
        .observers
        .is_empty());
    assert!(is_node_event("PreToolUse"));
    assert!(!is_node_event("SessionStart"));
}

#[test]
fn a_node_only_carries_the_context_of_the_plugins_it_binds() {
    let mut shared = bare("everywhere");
    shared.skills = vec![skill("one"), skill("two")];
    let mut deep = bare("analyst-only");
    deep.skills = vec![skill("three")];
    let context = context(vec![shared, deep], &["TWO"]);
    let node = context.for_node(
        &names(&["everywhere", "analyst-only"]),
        Some("SHARED\n\nDEEP".into()),
    );
    assert_eq!(node.context.as_deref(), Some("SHARED\n\nDEEP"));
    let offered: Vec<&str> = node.skills.iter().map(|s| s.name.as_str()).collect();
    assert_eq!(offered, ["one", "three"]);
    let scout = context.for_node(&[], None);
    assert!(scout.skills.is_empty());
}

#[test]
fn a_denied_skill_is_offered_to_no_node() {
    let denying = context(Vec::new(), &["init-rag-rat"]);
    assert!(denying.denied("init-rag-rat"));
    // Spelling is forgiven; the rest of the plugin is untouched.
    assert!(denying.denied(" INIT-RAG-RAT "));
    assert!(!denying.denied("using-rag-rat"));
    assert!(!denying.denied("dream-review"));

    // And a repository that denied nothing keeps everything.
    assert!(!context(Vec::new(), &[]).denied("init-rag-rat"));
}

#[test]
fn the_characterizer_is_offered_no_tool_it_cannot_answer() {
    let plugins = NodePlugins {
        skills: vec![skill("review")],
        ..Default::default()
    };
    assert!(
        skill_tool(&plugins.skills).is_some(),
        "a node WITH skills bound is offered the tool"
    );
    let stripped = NodePlugins {
        skills: Vec::new(),
        ..plugins
    };
    assert!(skill_tool(&stripped.skills).is_none());
}

fn offer(server: &str, tools: &[&str]) -> ServerTools {
    ServerTools {
        tools: tools
            .iter()
            .map(|name| Tool {
                name: name.to_string(),
                server: Some(server.to_string()),
                capability: Capability::Read,
            })
            .collect(),
    }
}

#[test]
fn a_nodes_pool_is_the_index_and_the_servers_of_what_it_binds() {
    let mut context = context(vec![bare("linty"), bare("other")], &[]);
    context.servers = vec![
        PluginServer {
            plugin: "linty".into(),
            offer: offer("lint", &["lint", "semantic_search"]),
        },
        PluginServer {
            plugin: "other".into(),
            offer: offer("other", &["other"]),
        },
    ];
    let pool = context.pool_for(
        &names(&["linty"]),
        Some(offer("rag-rat", &["semantic_search"])),
    );
    assert!(pool.offers("lint"));
    assert!(pool.offers("semantic_search"));
    assert!(!pool.offers("other"));
    assert!(pool.has_server("rag-rat"));
    assert!(context.pool_for(&[], None).is_empty());
}

#[test]
fn a_turn_that_ended_says_how_and_what_its_hooks_answered() {
    assert!(matches!(turn_ended(Ok("done")), (Ending::Stop, "done")));
    assert!(matches!(
        turn_ended(Err("boom")),
        (Ending::StopFailure, "boom")
    ));
    assert_eq!(closing_answer(None, None), None);
    assert_eq!(
        closing_answer(Some("a".into()), Some("b".into())).as_deref(),
        Some("a\n\nb")
    );
}

#[test]
fn a_stages_own_policy_is_asked_before_its_profiles() {
    assert!(matches!(
        after_stage(ToolDecision::Deny("no".into()), "{}"),
        StageVerdict::Refused(why) if why == "no"
    ));
    assert!(matches!(
        after_stage(ToolDecision::Rewrite("{\"a\":1}".into()), "{}"),
        StageVerdict::AskProfile(args) if args == "{\"a\":1}"
    ));
    assert!(matches!(
        after_stage(ToolDecision::Allow, "{}"),
        StageVerdict::AskProfile(args) if args == "{}"
    ));
}
