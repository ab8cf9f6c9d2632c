//! The referee: which hunks it reads, what it may use, and what its judgement comes to.

use ratatoskr_nodes::config::{
    ImplementerConfig, ModelRoute, NamedRoute, PluginsConfig, PublishConfig, RatatoskrConfig,
};
use ratatoskr_nodes::error::{NodeError, PlanError};
use ratatoskr_nodes::referee::{
    correction, hunks_for, judge, judged, non_empty, referee_input, render_prompt, Judgement,
    RefereeInput, RefereeNode, RefereeOutput, Violation, REFEREE_TOOLS,
};
use ratatoskr_nodes::routes::ScriptEngine;
use ratatoskr_nodes::stage::stage_fixture;

fn paths(xs: &[&str]) -> Vec<String> {
    xs.iter().map(|s| s.to_string()).collect()
}

fn no_rules() -> ScriptEngine {
    ScriptEngine {
        rulesets: Vec::new(),
    }
}

fn config(models: &[(&str, &str, &str)]) -> RatatoskrConfig {
    RatatoskrConfig {
        models: models
            .iter()
            .map(|(name, provider, model)| NamedRoute {
                name: name.to_string(),
                route: ModelRoute::named(provider, model),
            })
            .collect(),
        agents: Vec::new(),
        implementer: ImplementerConfig {
            always_fork: false,
            verify_threshold: "P2".into(),
        },
        publish: PublishConfig {
            enabled: false,
            committer_name: "ratatoskr".into(),
            committer_email: "ratatoskr@localhost".into(),
        },
        plugins: PluginsConfig {
            skills_deny: Vec::new(),
        },
    }
}

/// A three-file unified diff. `src/foo.rs.bak` is in it so the exact-match case has something a
/// prefix match would wrongly pick up.
const DIFF: &str = "\
diff --git a/src/a.rs b/src/a.rs
index 1111111..2222222 100644
--- a/src/a.rs
+++ b/src/a.rs
@@ -1,2 +1,2 @@
 fn a() {
-    old();
+    new();
 }
diff --git a/src/b.rs b/src/b.rs
index 3333333..4444444 100644
--- a/src/b.rs
+++ b/src/b.rs
@@ -1,3 +1,2 @@
 keep();
-gone();
 keep_too();
diff --git a/src/foo.rs.bak b/src/foo.rs.bak
index 5555555..6666666 100644
--- a/src/foo.rs.bak
+++ b/src/foo.rs.bak
@@ -1 +1 @@
-backup
+backup2
";

#[test]
fn hunks_for_extracts_exactly_the_named_files_section() {
    let only_b = hunks_for(DIFF, &paths(&["src/b.rs"]));
    // Header and hunks both: the judgement needs the header to know what it is looking at, and the
    // hunks to see what was removed.
    assert!(
        only_b.contains("diff --git a/src/b.rs b/src/b.rs"),
        "{only_b}"
    );
    assert!(only_b.contains("--- a/src/b.rs"), "{only_b}");
    assert!(only_b.contains("+++ b/src/b.rs"), "{only_b}");
    assert!(only_b.contains("-gone();"), "{only_b}");
    // And nothing from any other file — the judgement sees only files with removed lines.
    assert!(!only_b.contains("src/a.rs"), "{only_b}");
    assert!(!only_b.contains("foo.rs.bak"), "{only_b}");
}

#[test]
fn hunks_for_naming_every_file_returns_the_whole_diff() {
    let all = paths(&["src/a.rs", "src/b.rs", "src/foo.rs.bak"]);
    assert_eq!(hunks_for(DIFF, &all), DIFF);
}

#[test]
fn hunks_for_matches_paths_exactly_not_by_prefix() {
    // `src/foo.rs` is not in the diff; `src/foo.rs.bak` is.
    assert!(hunks_for(DIFF, &paths(&["src/foo.rs"])).is_empty());
    // A path absent from the diff contributes nothing.
    assert!(hunks_for(DIFF, &paths(&["src/missing.rs"])).is_empty());
    // And there is nothing to extract from nothing.
    assert!(hunks_for("", &paths(&["src/b.rs"])).is_empty());
}

#[test]
fn hunks_for_matches_either_side_of_a_rename() {
    let renamed = "\
diff --git a/src/old.rs b/src/new.rs
similarity index 80%
rename from src/old.rs
rename to src/new.rs
@@ -1 +1 @@
-old_check();
+new_check();
";
    for path in ["src/old.rs", "src/new.rs"] {
        let hunks = hunks_for(renamed, &paths(&[path]));
        assert!(hunks.contains("-old_check();"), "{path}: {hunks}");
    }
}

#[test]
fn picking_hunks_again_changes_nothing() {
    let named = paths(&["src/b.rs", "src/foo.rs.bak"]);
    let hunks = hunks_for(DIFF, &named);
    assert!(!hunks.is_empty());
    assert_eq!(hunks_for(&hunks, &named), hunks);
    // Neither the order of the names nor a repeated one shows.
    let again = paths(&["src/foo.rs.bak", "src/b.rs", "src/foo.rs.bak"]);
    assert_eq!(hunks_for(DIFF, &again), hunks);
    // What stands before the first section is in no section.
    let led = format!("a note\n{DIFF}");
    assert_eq!(hunks_for(&led, &named), hunks);
}

#[test]
fn the_correction_names_every_file_and_what_it_weakened() {
    let violations = vec![
        Violation {
            file: "crates/ratatoskr-nodes/src/lib.rs".into(),
            reason: "deleted the #[cfg(test)] module that characterised the move".into(),
        },
        Violation {
            file: "tests/api.rs".into(),
            reason: "relaxed the tolerance from exact to within 0.5".into(),
        },
    ];
    let text = correction(&violations);
    // Verbatim, all of them: the implementer is told what it weakened, not just where.
    for v in &violations {
        assert!(text.contains(&v.file), "file missing from: {text}");
        assert!(text.contains(&v.reason), "reason missing from: {text}");
    }
    // Adding a test is allowed and never brings you here.
    let lower = text.to_lowercase();
    assert!(lower.contains("adding"), "{text}");
    assert!(lower.contains("allowed"), "{text}");
    // And the escape hatch is named.
    assert!(text.contains("mayModifyTests"), "{text}");
    assert!(text.contains("defineDefaults"), "{text}");
    assert!(text.starts_with("Your change weakened files that decide whether"), "{text}");
    assert!(text.contains(" task is done. Revert or repair"), "{text}");
}

#[test]
fn fixed_construction_hands_the_judge_exactly_the_read_tools() {
    let node = RefereeNode::fixed(ModelRoute::named("anthropic", "sonnet"), None);
    assert_eq!(node.tools().names(), REFEREE_TOOLS);
    assert_eq!(
        node.tools().names(),
        ["Read", "Grep", "Glob"],
        "the fixed set is the read tools and only the read tools"
    );
}

#[test]
fn fixed_construction_admits_no_ruleset_or_plugin_influence() {
    let node = RefereeNode::fixed(
        ModelRoute::named("openai", "gpt-5"),
        Some("/wt".to_string()),
    );
    let names = node.tools().names();
    for read in REFEREE_TOOLS {
        assert!(
            names.iter().any(|n| n.as_str() == read),
            "the judge lost {read}: {names:?}"
        );
    }
    assert!(
        !names.iter().any(|n| n == "Write" || n == "Bash"),
        "the judge gained a write capability: {names:?}"
    );
    // The inputs the constructor takes are kept.
    assert_eq!(node.route().provider, "openai");
    assert_eq!(node.route().model, "gpt-5");
    assert_eq!(node.files().as_deref(), Some("/wt"));
}

fn asked(candidates: Vec<String>) -> RefereeInput {
    RefereeInput {
        issue: "the work".into(),
        requirements: vec!["keep the characterisation tests intact".into()],
        hunks: String::new(),
        candidates,
    }
}

#[test]
fn nothing_to_judge_spends_no_model_call() {
    let node = RefereeNode::fixed(ModelRoute::named("no-such-provider", "no-such-model"), None);
    assert!(node.question(&asked(Vec::new())).is_none());
}

#[test]
fn a_fixed_node_with_nothing_to_judge_spends_no_model_call() {
    let node = RefereeNode::fixed(ModelRoute::named("no-such-provider", "no-such-model"), None);
    assert!(node.question(&asked(Vec::new())).is_none());
    assert!(node.question(&asked(vec!["src/lib.rs".into()])).is_some());
}

#[test]
fn a_fixed_node_with_candidates_really_calls_the_model() {
    let node = RefereeNode::fixed(ModelRoute::named("no-such-provider", "no-such-model"), None);
    let question = node
        .question(&RefereeInput {
            issue: "the work".into(),
            requirements: Vec::new(),
            hunks: "diff --git a/src/lib.rs b/src/lib.rs\n@@ -1 +1 @@\n-old();\n".into(),
            candidates: vec!["src/lib.rs".to_string()],
        })
        .expect("candidates to judge are put to the model");
    assert!(question.contains("-old();"), "{question}");
}

#[test]
fn no_configured_route_skips_the_judgement_without_an_error() {
    let judgement = judge(
        &no_rules(),
        &config(&[]),
        &[stage_fixture("verifier", "explore")],
        &paths(&["crates/foo/src/lib.rs"]),
        &[],
        "/wt",
    );
    assert!(
        matches!(judgement, Judgement::Unjudged),
        "no route has no judgement to checkpoint"
    );
}

#[test]
fn exempt_rewrites_and_empty_candidate_sets_skip_the_judgement() {
    let config = config(&[("referee", "no-such-provider", "no-such-model")]);
    // Every rewrite sits under the declared exemption: no candidates, no judgement.
    let exempt = judge(
        &no_rules(),
        &config,
        &[stage_fixture("verifier", "explore")],
        &paths(&["crates/foo/tests/api.rs"]),
        &paths(&["crates/foo/tests"]),
        "/wt",
    );
    assert!(matches!(exempt, Judgement::Clear));
    // And the trivial spelling: the implementer rewrote nothing at all.
    let nothing = judge(
        &no_rules(),
        &config,
        &[stage_fixture("verifier", "explore")],
        &[],
        &paths(&["crates/foo/tests"]),
        "/wt",
    );
    assert!(matches!(nothing, Judgement::Clear));
}

#[test]
fn a_failing_judgement_surfaces_an_error_for_checkpointing() {
    let judgement = judge(
        &no_rules(),
        &config(&[("referee", "no-such-provider", "no-such-model")]),
        &[stage_fixture("verifier", "explore")],
        &paths(&["crates/foo/src/lib.rs"]),
        &[],
        "/wt",
    );
    match judgement {
        Judgement::Ask { node, candidates } => {
            assert_eq!(candidates, ["crates/foo/src/lib.rs"]);
            assert_eq!(node.route().provider, "no-such-provider");
        }
        _ => panic!("candidates and a route are a judgement to make"),
    }
    let failed = judged(Err(NodeError::Failed("unreachable".into())));
    match failed {
        Err(PlanError::Node { node, source }) => {
            assert_eq!(node, "referee");
            assert_eq!(source.message(), "unreachable");
        }
        _ => panic!("a failed judgement must reach the caller for failure checkpointing"),
    }
    let clean = judged(Ok(RefereeOutput {
        violations: Vec::new(),
    }));
    assert!(clean.unwrap().is_empty());
}

#[test]
fn a_violation_names_a_file_and_a_reason() {
    assert_eq!(non_empty("a.rs".into()).unwrap(), "a.rs");
    assert_eq!(non_empty(" ".into()).unwrap_err(), "must not be empty");
    assert_eq!(non_empty(String::new()).unwrap_err(), "must not be empty");
}

#[test]
fn the_referee_is_shown_what_has_to_hold_and_what_was_taken_out() {
    let input = referee_input(
        "the work",
        &paths(&["keep it"]),
        paths(&["src/b.rs"]),
        Some(DIFF),
    );
    assert_eq!(
        render_prompt(&input),
        format!(
            "TASK:\nthe work\n\nREQUIREMENTS THE CHANGE MUST SATISFY:\n- keep it\n\nFILES WITH \
             REMOVED OR REPLACED LINES: src/b.rs\n\nDIFF HUNKS TO JUDGE:\n{}\n",
            hunks_for(DIFF, &paths(&["src/b.rs"]))
        )
    );
    // A diff that could not be read judges nothing.
    let blind = referee_input("the work", &[], paths(&["src/b.rs"]), None);
    assert!(blind.hunks.is_empty());
}
