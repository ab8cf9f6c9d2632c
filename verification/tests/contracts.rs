//! What the planning nodes are handed and hand on.

use std::any::TypeId;

use ratatoskr_nodes::analyst::{self, AnalystInput};
use ratatoskr_nodes::context::{
    attach_evidence, context_answer, context_question, distillation_input, render_prompt,
    Constraint, Distillation,
};
use ratatoskr_nodes::error::NodeError;
use ratatoskr_nodes::memory::{
    search_failed, search_query, search_request, search_result, wrap_memory_result, MemoryOutput, MemoryRecord,
};
use ratatoskr_nodes::scout::{RelatedItem, ScoutOutput};
use ratatoskr_nodes::tools::Argument;

fn record(id: &str, title: &str, body: &str) -> MemoryRecord {
    MemoryRecord {
        memory_id: id.to_string(),
        kind: "Invariant".to_string(),
        title: title.to_string(),
        confidence: "high".to_string(),
        status: "active".to_string(),
        body: body.to_string(),
        summary: None,
    }
}

fn item(key: &str, title: &str) -> RelatedItem {
    RelatedItem {
        item_key: key.to_string(),
        title: title.to_string(),
        url: String::new(),
        relation: String::new(),
        summary: String::new(),
    }
}

#[test]
fn the_model_is_shown_the_memories_it_is_expected_to_cite() {
    let memory = MemoryOutput {
        memories: vec![record(
            "mem_1",
            "Adding a column needs both places",
            "schema.sql and ADDED_COLUMNS; neither alone migrates an existing store.",
        )],
    };
    let prompt = render_prompt("Add a repo_sha column.", &memory, true);
    assert!(prompt.contains("id: mem_1"));
    assert!(prompt.contains("ADDED_COLUMNS"), "the body arrives whole");
    assert!(prompt.contains("cite the id"));
}

#[test]
fn no_matches_is_told_apart_from_nothing_recorded() {
    let prompt = render_prompt("x", &MemoryOutput { memories: vec![] }, true);
    assert!(prompt.contains("none matched"));
    assert!(prompt.contains("Search again"));
    assert!(
        prompt.contains(" task. Search again yourself with different terms"),
        "{prompt}"
    );
}

#[test]
fn a_repository_with_no_memory_index_is_not_told_to_search_again() {
    let prompt = render_prompt("x", &MemoryOutput { memories: vec![] }, false);
    assert!(prompt.contains("keeps none"));
    assert!(!prompt.contains("Search again"));
}

#[test]
fn context_no_rag_rat_prepares_an_empty_non_searchable_baseline() {
    let input = distillation_input("explain the store", MemoryOutput::default(), false);
    assert!(input.memory.memories.is_empty());
    assert!(!input.searchable);
    let prompt = render_prompt(&input.issue, &input.memory, input.searchable);
    assert!(prompt.contains("keeps none"), "{prompt}");
    assert!(!prompt.contains("Search again"), "{prompt}");
}

#[test]
fn context_rust_attaches_the_baseline_verbatim_after_distillation() {
    let memory = MemoryOutput {
        memories: vec![record(
            "mem_exact",
            "Keep this wording",
            "This body must arrive byte-for-byte.",
        )],
    };
    let expected = format!("{memory:?}");
    let output = attach_evidence(
        Distillation {
            brief: "what bears on the task".to_string(),
            constraints: vec![Constraint {
                says: "respect the recorded invariant".to_string(),
                from_memory_id: "mem_exact".to_string(),
            }],
            prior_art: vec![
                RelatedItem::default(),
                RelatedItem {
                    item_key: "#118".to_string(),
                    title: "context evidence".to_string(),
                    ..Default::default()
                },
            ],
            papertrail_summary: "one relevant issue".to_string(),
        },
        memory,
    );
    assert_eq!(format!("{:?}", output.memory), expected);
    assert_eq!(output.scout.related_items.len(), 1);
    assert_eq!(output.scout.related_items[0].item_key, "#118");
}

#[test]
fn a_baseline_that_fails_is_the_nodes_failure_and_none_is_an_empty_one() {
    let failed = context_question("x", Some(Err(NodeError::Failed("locked".into()))));
    assert_eq!(failed.unwrap_err().message(), "locked");
    let asked = context_question("x", None).unwrap();
    assert!(!asked.input.searchable);
    assert!(asked.question.contains("keeps none"));
    let asked = context_question(
        "x",
        Some(Ok(MemoryOutput {
            memories: vec![record("m1", "t", "b")],
        })),
    )
    .unwrap();
    assert!(asked.input.searchable);
    assert!(asked.question.contains("id: m1"));

    let turn = context_answer(Err("no route".into()), MemoryOutput::default());
    assert_eq!(
        turn.unwrap_err().message(),
        "context agent failed: no route"
    );
    let invalid = context_answer(
        Ok(Err(NodeError::InvalidOutput("missing brief".into()))),
        MemoryOutput::default(),
    );
    assert_eq!(
        invalid.unwrap_err().message(),
        "output failed schema validation: missing brief"
    );
}

#[test]
fn legacy_module_paths_reexport_the_contract_types() {
    assert_eq!(
        TypeId::of::<ratatoskr_nodes::analyst::AnalystOutput>(),
        TypeId::of::<ratatoskr_nodes::contracts::analyst::AnalystOutput>()
    );
    assert_eq!(
        TypeId::of::<ratatoskr_nodes::context::ContextOutput>(),
        TypeId::of::<ratatoskr_nodes::contracts::context::ContextOutput>()
    );
    assert_eq!(
        TypeId::of::<ratatoskr_nodes::overseer::OverseerOutput>(),
        TypeId::of::<ratatoskr_nodes::contracts::overseer::OverseerOutput>()
    );
    assert_eq!(
        TypeId::of::<ratatoskr_nodes::scout::ScoutOutput>(),
        TypeId::of::<ratatoskr_nodes::contracts::scout::ScoutOutput>()
    );
}

#[test]
fn empty_related_items_are_dropped() {
    // Empty and whitespace-only placeholders are not meaningful; anything with a key or title is.
    assert!(!item("", "").is_meaningful());
    assert!(!item("  ", "\t").is_meaningful());
    assert!(item("42", "").is_meaningful());
    assert!(item("", "Fix the lock").is_meaningful());

    let mut items = vec![item("", ""), item("42", "Fix"), item("  ", "")];
    items.retain(RelatedItem::is_meaningful);
    assert_eq!(items.len(), 1);
    assert_eq!(items[0].item_key, "42");

    let cleaned = ScoutOutput {
        related_items: vec![item("", ""), item("42", "Fix"), item("  ", "")],
        papertrail_summary: "s".into(),
    }
    .cleaned();
    assert_eq!(cleaned.related_items.len(), 1);
    assert_eq!(cleaned.papertrail_summary, "s");
}

#[test]
fn a_plan_is_taken_to_change_code_unless_it_says_otherwise() {
    assert!(analyst::changes_code_by_default());
}

#[test]
fn the_analyst_is_shown_the_issue_what_was_found_and_what_was_recorded() {
    let input = AnalystInput::fresh(
        "make it stick".into(),
        ScoutOutput {
            related_items: vec![item("#7", "the scrubber")],
            papertrail_summary: "one issue".into(),
        },
        MemoryOutput {
            memories: vec![record("m1", "Keep it", "the body")],
        },
    );
    let prompt = analyst::render_prompt(&input);
    assert!(prompt.contains("make it stick"), "{prompt}");
    assert!(prompt.contains("the scrubber"), "{prompt}");
    assert!(prompt.contains("Keep it"), "{prompt}");
}

#[test]
fn a_search_asks_for_no_more_than_it_may_send() {
    assert_eq!(search_query("issue", "context"), "issue\ncontext");
    let request = search_request("issue", "context");
    assert_eq!(request.tool, "memory_search");
    assert!(matches!(&request.arguments[0],
        ("query", Argument::Text(query)) if query == "issue\ncontext"));
    assert!(matches!(request.arguments[1], ("limit", Argument::Number(10))));
    let long = "é".repeat(1500);
    let query = search_query(&long, "");
    assert_eq!(query.len(), 2000);
    assert!(long.starts_with(&query));
}

#[test]
fn parses_a_canned_memory_array() {
    let raw = r#"[
        {"memory_id":"m1","kind":"Decision","title":"pin rmcp","confidence":"high",
         "status":"active","body":"because...","bindings":[],"tags":["deps"]}
    ]"#;
    let wrapped = wrap_memory_result(raw).unwrap();
    let value: serde_json::Value = serde_json::from_str(&wrapped).unwrap();
    let memories = value["memories"].as_array().unwrap();
    assert_eq!(memories.len(), 1);
    assert_eq!(memories[0]["memory_id"], "m1");
    assert_eq!(memories[0]["kind"], "Decision");
}

#[test]
fn empty_array_is_ok() {
    let wrapped = wrap_memory_result("[]").unwrap();
    assert_eq!(wrapped, "{\"memories\":[]}");
}

#[test]
fn a_search_that_answered_nothing_or_an_error_says_so() {
    assert_eq!(
        wrap_memory_result("  ").unwrap_err().message(),
        "memory_search returned no content (is rag-rat running with `--json`?)"
    );
    assert_eq!(
        search_result(&["no ".to_string(), "index".to_string()], true)
            .unwrap_err()
            .message(),
        "memory_search returned an error: no index"
    );
    assert_eq!(
        search_result(&["[".to_string(), "]".to_string()], false).unwrap(),
        "{\"memories\":[]}"
    );
    assert_eq!(
        search_failed("closed").message(),
        "memory_search call failed: closed"
    );
}
