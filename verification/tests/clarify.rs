//! Questions one node asks another.

use ratatoskr_nodes::clarify::{
    answer_after_model, answerer_agent, ask_tool, consult, elide, from_the_user, reply_read,
    resolve_target, user_answered, user_reply, Answerer, Asking, ClarificationAnswer,
    NodeClarifier, UserAnswer, ASK_BUDGET, ASK_TOOL_NAME, CONTEXT_LIMIT,
};
use ratatoskr_nodes::config::{
    AgentProfileConfig, Capability, ImplementerConfig, ModelRoute, NamedAgent, NamedRoute,
    PluginsConfig, PublishConfig, RatatoskrConfig,
};
use ratatoskr_nodes::routes::ScriptEngine;
use ratatoskr_nodes::stage::{stage_fixture, Stage};

fn config() -> RatatoskrConfig {
    RatatoskrConfig {
        models: Vec::new(),
        agents: Vec::new(),
        implementer: ImplementerConfig {
            always_fork: false,
            verify_threshold: "P2".into(),
        },
        publish: PublishConfig {
            enabled: false,
            committer_name: "ratatoskr".into(),
            committer_email: "ratatoskr@localhost".into(),
        },
        plugins: PluginsConfig {
            skills_deny: Vec::new(),
        },
    }
}

fn engine() -> ScriptEngine {
    ScriptEngine {
        rulesets: Vec::new(),
    }
}

fn governed(id: &str, agent: &str, by: &str) -> Stage {
    let mut stage = stage_fixture(id, agent);
    stage.governed_by = Some(by.to_string());
    stage
}

fn told(answer: ClarificationAnswer) -> String {
    match answer {
        ClarificationAnswer::Text(text) => text,
        ClarificationAnswer::Stopped => panic!("stopped"),
    }
}

#[test]
fn resolve_target_maps_names_and_falls_back_to_analyst() {
    assert_eq!(resolve_target("context"), "context");
    // The name it replaced falls through to the analyst like any other unknown.
    assert_eq!(resolve_target("scout"), "analyst");
    assert_eq!(resolve_target("redteam"), "redteam");
    assert_eq!(resolve_target("bookkeeper"), "bookkeeper");
    // user / unknown / empty → analyst fallback.
    assert_eq!(resolve_target("user"), "analyst");
    assert_eq!(resolve_target("implementer"), "analyst");
    assert_eq!(resolve_target(""), "analyst");
    assert_eq!(resolve_target(" redteam\n"), "redteam");
}

#[test]
fn the_clarifier_reaches_the_analyst_the_run_routes() {
    let mut config = config();
    config.models.push(NamedRoute {
        name: "planning".into(),
        route: ModelRoute::named("openai", "gpt-5"),
    });
    let stages = [
        stage_fixture("verifier", "reason"),
        governed("analyst", "reason", "planning"),
    ];
    let answerer = answerer_agent(&engine(), &config, &stages, "analyst")
        .expect("the run's analyst has a route");
    assert_eq!(answerer.route.model, "gpt-5");
}

#[test]
fn the_clarifier_reaches_the_red_team_half_the_run_can_route() {
    let mut config = config();
    config.agents.push(NamedAgent {
        name: "build".into(),
        agent: AgentProfileConfig {
            model: Some(ModelRoute::named("openai", "gpt-5")),
            base_prompt: String::new(),
            capabilities: vec![Capability::Write],
            tool_policy: None,
            max_turns: None,
        },
    });
    let stages = [
        governed("redteam_classifier", "reason", "redteam"),
        governed("redteam_author", "build", "redteam"),
    ];
    let answerer = answerer_agent(&engine(), &config, &stages, "redteam")
        .expect("a routed red-team half answers for `redteam`");
    assert_eq!(answerer.route.model, "gpt-5");
    // With neither half routed there is nobody to ask.
    assert!(answerer_agent(&engine(), &self::config(), &stages, "redteam").is_none());
}

#[test]
fn ask_tool_is_named_and_schema_shaped() {
    let t = ask_tool();
    assert_eq!(t.name, ASK_TOOL_NAME);
    let schema: serde_json::Value = serde_json::from_str(t.input_schema).unwrap();
    assert!(schema.as_object().unwrap().contains_key("properties"));
    assert_eq!(schema["properties"]["to"]["enum"][4], "user");
    assert_eq!(
        schema["required"],
        serde_json::Value::from(vec!["to", "question"])
    );
}

#[test]
fn a_stopped_nested_answer_terminates_the_asker() {
    let answer = answer_after_model(
        "analyst",
        true,
        Err("the operator stopped this node".to_string()),
    );
    assert!(matches!(answer, ClarificationAnswer::Stopped));
}

#[test]
fn an_answer_is_labelled_and_a_failure_is_guidance() {
    assert_eq!(
        told(answer_after_model("redteam", false, Ok("two fail".into()))),
        "Answer from `redteam`:\ntwo fail"
    );
    assert_eq!(
        told(answer_after_model("analyst", false, Err("timeout".into()))),
        "Answer from `analyst`:\ncould not answer (timeout); proceed with your best assumption"
    );
}

#[test]
fn a_long_context_is_cut_between_characters_and_marked() {
    assert_eq!(elide("abc", 3), "abc");
    assert_eq!(elide("abcd", 3), "abc…");
    assert_eq!(elide("éèê", 2), "éè…");
}

fn answerer(system_prompt: Option<&str>, profile_prompt: &str) -> Answerer {
    Answerer {
        route: ModelRoute::named("openai", "gpt-5"),
        system_prompt: system_prompt.map(str::to_string),
        profile_prompt: profile_prompt.into(),
    }
}

#[test]
fn an_answerer_is_asked_from_what_it_last_produced() {
    let asked = consult(
        "make it stick",
        "implementer",
        "redteam",
        "which tests fail?",
        Some("{\"failing\":[]}"),
        Some(answerer(None, "")),
    )
    .unwrap();
    assert!(asked
        .preamble
        .starts_with("You are the redteam in a code-planning pipeline.\n\nA peer node is asking"));
    assert_eq!(
        asked.prompt,
        "A peer node (`implementer`) asks:\nwhich tests fail?\n\nContext:\nISSUE:\nmake it \
         stick\n\nYOUR PRIOR OUTPUT:\n{\"failing\":[]}\n"
    );
    assert_eq!(asked.max_turns, 3);
    let long = "x".repeat(CONTEXT_LIMIT + 1);
    let asked = consult("i", "f", "t", "q", Some(&long), Some(answerer(None, ""))).unwrap();
    assert!(asked.prompt.ends_with("x…\n"));

    let prompted = |system, profile| {
        consult("i", "f", "t", "q", None, Some(answerer(system, profile)))
            .unwrap()
            .preamble
    };
    assert!(prompted(Some("be brief"), "").starts_with("be brief\n\nA peer"));
    assert!(prompted(Some("be brief"), "profile").starts_with("profile\n\nbe brief\n\nA peer"));
    assert!(prompted(None, "profile").starts_with("profile\n\nYou are the analyst in"));
}

#[test]
fn a_target_with_nowhere_to_run_leaves_the_asker_its_assumption() {
    let answer = consult("i", "implementer", "bookkeeper", "q", None, None).unwrap_err();
    assert_eq!(
        told(answer),
        "Could not reach `bookkeeper`: no model route is configured for it. Proceed with your best \
         assumption and flag it as a residual risk."
    );
}

#[test]
fn a_person_is_asked_first_and_a_node_when_nobody_answers() {
    assert_eq!(user_reply(b"{\"answer\":\"yes\"}").as_deref(), Some("yes"));
    assert_eq!(user_reply(b"{\"answer\":null}"), None);
    assert_eq!(user_reply(b"{}"), None);
    assert_eq!(user_reply(b"oops"), None);
    assert_eq!(
        reply_read(Ok(Some(Some("yes".into())))).as_deref(),
        Some("yes")
    );
    assert!(matches!(user_answered(None), UserAnswer::Stopped));
    assert!(matches!(user_answered(Some(None)), UserAnswer::Unavailable));
    let answered = user_answered(Some(Some("yes".into())));
    assert_eq!(
        told(from_the_user(answered).unwrap()),
        "Answer from the user:\nyes"
    );
    assert!(from_the_user(UserAnswer::Unavailable).is_none());
    assert!(matches!(
        from_the_user(UserAnswer::Stopped),
        Some(ClarificationAnswer::Stopped)
    ));
}

#[test]
fn no_more_is_asked_than_the_budget_holds() {
    let mut clarifier = NodeClarifier::new();
    for _ in 0..ASK_BUDGET {
        assert!(matches!(clarifier.begin(" user "), Asking::User));
    }
    match clarifier.begin("analyst") {
        Asking::Spent(answer) => {
            let exchange = clarifier
                .record("scout", "analyst", "why?", &answer)
                .expect("an exhausted exchange is recorded too");
            assert!(exchange.answer.contains("budget for this run is exhausted"));
        }
        other => panic!("{other:?}"),
    }
    assert!(clarifier
        .record("scout", "user", "why?", &ClarificationAnswer::Stopped)
        .is_none());
    let drained = clarifier.drain();
    assert_eq!(drained.len(), 1);
    assert_eq!(drained[0].from, "scout");
    assert_eq!(drained[0].question, "why?");
    assert!(clarifier.drain().is_empty());
    assert!(matches!(NodeClarifier::new().begin("redteam"), Asking::Node));
}
