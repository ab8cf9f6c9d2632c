//! The bookkeeper: what a run's memories are made of, and what is written of them.

use ratatoskr_nodes::analyst::AnalystOutput;
use ratatoskr_nodes::bookkeeper::{
    answer_of, decide, friction_of, memory_id_read, normalize_kind, parse_memory_id, replay_input,
    skip_reason, skipped_before_compose, tags, unquote, unquote_read, Act, Binding,
    BookkeeperInput, Bookkeeping, BookkeepingStep, MemoryApplication, MemoryCall, MemoryDecision,
    MemoryDecisions, RunFriction, ToolReply,
};
use ratatoskr_nodes::checkpoint::{Checkpoint, NodeTelemetry};
use ratatoskr_nodes::config::Capability;
use ratatoskr_nodes::implementer::{AcceptanceResult, ImplementerOutput};
use ratatoskr_nodes::tools::Argument;

#[test]
fn normalizes_kinds() {
    assert_eq!(normalize_kind("risk"), "Risk");
    assert_eq!(normalize_kind("Invariant"), "Invariant");
    assert_eq!(normalize_kind("nonsense"), "Decision");
    assert_eq!(normalize_kind(""), "Decision");
    assert_eq!(normalize_kind(" ffiboundary "), "FFIBoundary");
}

#[test]
fn parses_memory_id_from_json() {
    let ok = parse_memory_id(r#"{"memory":{"memory_id":"mem_abc","kind":"Decision"}}"#).unwrap();
    assert_eq!(ok, "mem_abc");
    let flat = parse_memory_id(r#"{"memory_id":"mem_xyz"}"#).unwrap();
    assert_eq!(flat, "mem_xyz");
    assert!(parse_memory_id("not json").is_err());
    assert!(parse_memory_id(r#"{"nope":1}"#).is_err());
}

#[test]
fn an_unreadable_answer_says_what_was_wrong_with_it() {
    let error = parse_memory_id("not json").unwrap_err().message();
    assert!(
        error.starts_with("memory_create response not JSON ("),
        "{error}"
    );
    assert!(error.ends_with("); is rag-rat on --json?"), "{error}");
    assert_eq!(
        parse_memory_id(r#" {"nope":1} "#).unwrap_err().message(),
        r#"no memory_id in memory_create response:  {"nope":1} "#
    );
    // A nested id that is no string is not replaced by one at the top.
    assert!(parse_memory_id(r#"{"memory":{"memory_id":7},"memory_id":"mem_top"}"#).is_err());
    assert_eq!(
        parse_memory_id(r#"{"memory":{},"memory_id":"mem_top"}"#).unwrap(),
        "mem_top"
    );
    assert_eq!(
        memory_id_read("x", Ok(None), Ok(Some(Some("top".into())))).unwrap(),
        "top"
    );
    assert_eq!(
        memory_id_read("x", Err("eof".into()), Ok(None))
            .unwrap_err()
            .message(),
        "memory_create response not JSON (eof); is rag-rat on --json?"
    );
}

fn input(converged: bool, touched: &[&str], diff: &str) -> BookkeeperInput {
    BookkeeperInput {
        issue: "an issue".into(),
        analyst: AnalystOutput {
            impact_summary: "impact".into(),
            touched: Vec::new(),
            risks: Vec::new(),
            requirements: Vec::new(),
            residual_risk: String::new(),
            changes_code: true,
            acceptance: Vec::new(),
            interface: Vec::new(),
        },
        implementer: implementer(touched, diff),
        iterations: 1,
        status: if converged {
            "converged"
        } else {
            "max_iterations_reached"
        }
        .to_string(),
        unchecked: Vec::new(),
        friction: RunFriction::default(),
    }
}

fn implementer(touched: &[&str], diff: &str) -> ImplementerOutput {
    ImplementerOutput {
        branch: "ratatoskr/test".into(),
        worktree_path: "/tmp/wt".into(),
        diff_summary: diff.into(),
        touched_files: touched.iter().map(|s| (*s).to_string()).collect(),
        rewritten_files: Vec::new(),
        acceptance: Some(AcceptanceResult {
            failing_tests: Vec::new(),
            passed_tests: 0,
            exit_code: 0,
        }),
        narrative: None,
        commit_kind: String::new(),
        commit_scope: String::new(),
        commit_subject: String::new(),
    }
}

#[test]
fn a_run_that_changed_nothing_records_nothing() {
    let out = input(true, &[], "").nothing_recorded("the run changed nothing");
    assert!(out.memories_written.is_empty());
    assert!(out.memories_revised.is_empty());
    assert_eq!(out.skipped.as_deref(), Some("the run changed nothing"));
    assert_eq!(out.iterations, 1);
}

#[test]
fn a_run_that_hit_a_wall_without_touching_files_still_has_something_to_say() {
    // Converged-and-untouched is a no-op; walled-and-untouched is a wall worth recording.
    let walled = input(false, &[], "");
    assert!(
        !(walled.status == "converged"
            && walled.implementer.touched_files.is_empty()
            && walled.implementer.diff_summary.trim().is_empty()),
        "the skip must not swallow a run that failed to get started"
    );
    assert!(skipped_before_compose(&walled, true).is_none());
    assert!(skipped_before_compose(&input(true, &["a.rs"], ""), true).is_none());
}

#[test]
fn no_turn_is_spent_where_there_is_nowhere_to_write_or_nothing_to_learn() {
    let out = skipped_before_compose(&input(true, &["a.rs"], "d"), false).unwrap();
    assert_eq!(
        out.skipped.as_deref(),
        Some("this repository keeps no memory index")
    );
    let out = skipped_before_compose(&input(true, &[], " \n"), true).unwrap();
    assert_eq!(
        out.skipped.as_deref(),
        Some("the run changed nothing and hit nothing")
    );
    let mut unchanged = input(true, &[], "");
    unchanged.status = "no_change_produced".into();
    assert!(skipped_before_compose(&unchanged, true).is_some());
    // The same shape after a struggle has something to teach.
    unchanged.friction.diagnostics = vec!["you broke it".into()];
    assert!(skipped_before_compose(&unchanged, true).is_none());
}

fn checkpoint(node: &str, iteration: Option<u32>, input: Option<&str>) -> Checkpoint {
    Checkpoint {
        node_name: node.into(),
        output_json: String::new(),
        input_json: input.map(str::to_string),
        iteration,
        invocation: None,
        telemetry: NodeTelemetry::default(),
    }
}

#[test]
fn friction_is_the_diagnostics_a_rerun_was_given_not_the_original_plan() {
    let cps = [
        checkpoint(
            "implementer",
            Some(1),
            Some(r#"{"requirements":["do the thing"]}"#),
        ),
        checkpoint(
            "implementer",
            Some(2),
            Some(r#""You broke store::migrate. Fix it.""#),
        ),
        checkpoint(
            "implementer",
            Some(3),
            Some(r#""You broke store::migrate again.""#),
        ),
    ];
    let f = RunFriction::from_checkpoints(&cps);

    // Iteration 1 was handed the plan; only what came after it is friction.
    assert_eq!(f.diagnostics.len(), 2);
    // Unquoted, so the model reads the diagnostic rather than a JSON rendering of it.
    assert_eq!(f.diagnostics[0], "You broke store::migrate. Fix it.");
    assert!(!f.is_empty());
}

#[test]
fn a_clean_run_has_no_friction_but_a_failed_node_does() {
    let clean = [checkpoint("implementer", Some(1), Some(r#"{"plan":1}"#))];
    assert!(RunFriction::from_checkpoints(&clean).is_empty());

    let mut failed = checkpoint("analyst", None, None);
    failed.telemetry.error = Some("output failed schema validation".into());
    failed.telemetry.turns = Some(41);
    failed.telemetry.duration_ms = Some(90_000);
    let f = RunFriction::from_checkpoints(&[failed]);

    assert!(!f.is_empty(), "a node that failed is something the run hit");
    assert_eq!(f.errors[0].node, "analyst");
    assert_eq!(f.effort[0].turns, 41);
    assert_eq!(f.effort[0].seconds, 90);
}

#[test]
fn effort_alone_is_not_friction() {
    let mut cp = checkpoint("scout", None, None);
    cp.telemetry.turns = Some(4);
    cp.telemetry.duration_ms = Some(1_000);
    let f = RunFriction::from_checkpoints(&[cp]);
    assert!(!f.effort.is_empty());
    assert!(f.is_empty());
}

#[test]
fn a_read_that_failed_costs_the_friction_and_nothing_else() {
    let read = friction_of(Ok(vec![checkpoint(
        "implementer",
        Some(2),
        Some("\"broke\""),
    )]));
    assert_eq!(read.diagnostics, ["broke"]);
    assert!(friction_of(Err("locked".into())).is_empty());
}

#[test]
fn an_input_that_is_no_string_is_shown_as_it_is() {
    assert_eq!(unquote("\"a \\\"b\\\"\""), "a \"b\"");
    assert_eq!(unquote("{\"plan\":1}"), "{\"plan\":1}");
    assert_eq!(unquote("plain"), "plain");
    assert_eq!(unquote_read("raw", Some("inner".into())), "inner");
}

#[test]
fn a_skip_reason_is_only_reported_when_nothing_was_recorded() {
    let declined = vec!["a composed memory was empty".to_string()];
    assert_eq!(
        skip_reason(0, &declined).as_deref(),
        Some("a composed memory was empty")
    );
    assert_eq!(
        skip_reason(1, &declined),
        None,
        "one memory written and one declined is a run that recorded something"
    );
    // Nothing decided at all still owes an explanation.
    assert!(skip_reason(0, &[]).is_some());
}

fn decision(action: &str) -> MemoryDecision {
    MemoryDecision {
        action: action.into(),
        reason: String::new(),
        memory_id: None,
        kind: String::new(),
        title: String::new(),
        body: String::new(),
        anchor: None,
    }
}

#[test]
fn a_creation_is_bound_to_its_lesson_and_tagged_by_what_happened() {
    let mut d = decision(" Create ");
    d.title = "Retries".into();
    d.body = "must be idempotent".into();
    d.kind = "risk".into();
    match decide(&d, "converged", &["src/a.rs".to_string()]) {
        Act::Create(creation) => {
            assert_eq!(creation.kind, "Risk");
            assert_eq!(creation.tags, ["ratatoskr", "bookkeeper"]);
            assert!(matches!(creation.bind, Binding::Path(path) if path == "src/a.rs"));
        }
        other => panic!("{other:?}"),
    }
    d.anchor = Some(" src/b.rs ".into());
    match decide(&d, "unreviewed", &["src/a.rs".to_string()]) {
        Act::Create(creation) => {
            assert_eq!(creation.tags, ["ratatoskr", "bookkeeper", "unreviewed"]);
            assert!(matches!(creation.bind, Binding::Path(path) if path == "src/b.rs"));
        }
        other => panic!("{other:?}"),
    }
    d.anchor = Some("  ".into());
    match decide(&d, "max_iterations_reached", &[]) {
        Act::Create(creation) => {
            assert_eq!(creation.tags, ["ratatoskr", "bookkeeper", "unresolved"]);
            assert!(matches!(creation.bind, Binding::Root));
        }
        other => panic!("{other:?}"),
    }
    assert_eq!(tags("converged").len(), 2);
}

#[test]
fn a_decision_that_lacks_what_it_needs_writes_nothing_and_says_why() {
    let declined = |d: &MemoryDecision| match decide(d, "converged", &[]) {
        Act::Decline(why) => why,
        other => panic!("{other:?}"),
    };
    let mut revise = decision("revise");
    revise.body = "now true".into();
    assert_eq!(declined(&revise), "a revision named no memory to rewrite");
    revise.memory_id = Some(String::new());
    assert_eq!(declined(&revise), "a revision named no memory to rewrite");
    let mut create = decision("create");
    create.title = "t".into();
    assert_eq!(declined(&create), "a composed memory was empty");
    assert_eq!(declined(&decision("none")), "nothing recorded (none)");
    assert_eq!(declined(&decision(" Forget ")), "nothing recorded (forget)");
    let mut none = decision("none");
    none.reason = " already recorded ".into();
    assert_eq!(declined(&none), "already recorded");
}

fn said(text: &str) -> Result<ToolReply, String> {
    Ok(ToolReply {
        is_error: None,
        texts: vec![text.to_string()],
    })
}

#[test]
fn an_answer_is_what_the_index_said_or_why_it_could_not() {
    assert_eq!(answer_of("memory_update", said("done")).unwrap(), "done");
    assert_eq!(
        answer_of("memory_update", Err("closed".into()))
            .unwrap_err()
            .message(),
        "memory_update call failed: closed"
    );
    let refused = Ok(ToolReply {
        is_error: Some(true),
        texts: vec!["no ".into(), "such id".into()],
    });
    assert_eq!(
        answer_of("memory_update", refused).unwrap_err().message(),
        "memory_update returned an error: no such id"
    );
}

#[test]
fn one_botched_decision_does_not_take_the_others_with_it() {
    let mut revise = decision("revise");
    revise.memory_id = Some("mem_1".into());
    revise.body = "now true".into();
    revise.reason = "the change made it wrong".into();
    let mut create = decision("create");
    create.title = "Retries".into();
    create.body = "must be idempotent".into();
    let mut application = MemoryApplication::new(vec![decision("none"), revise, create]);
    let touched = ["src/a.rs".to_string()];

    let call = application.next("converged", &touched).unwrap();
    match &call {
        MemoryCall::Update(revision) => {
            assert_eq!(revision.memory_id, "mem_1");
            assert_eq!(revision.title, None);
        }
        other => panic!("{other:?}"),
    }
    application.settle(call, said("ok")).unwrap();
    let call = application.next("converged", &touched).unwrap();
    assert!(matches!(call, MemoryCall::Create(_)));
    application
        .settle(call, said("{\"memory_id\":\"mem_2\"}"))
        .unwrap();
    assert!(application.next("converged", &touched).is_none());
    let out = application.finish(3);
    assert_eq!(out.memories_written.len(), 1);
    assert_eq!(out.memories_written[0].memory_id, "mem_2");
    assert_eq!(out.memories_written[0].anchor, "src/a.rs");
    assert_eq!(out.memories_written[0].summary.as_deref(), Some("Retries"));
    assert_eq!(out.memories_revised.len(), 1);
    assert_eq!(
        out.memories_revised[0].summary.as_deref(),
        Some("the change made it wrong")
    );
    assert_eq!(out.skipped, None);
    assert_eq!(out.iterations, 3);
    assert!(!out.residual_risk_accepted);
}

#[test]
fn bookkeeping_composes_calls_and_records() {
    let (mut bookkeeping, step) = Bookkeeping::begin(input(true, &["a.rs"], "d"), true, "/repo");
    match step {
        BookkeepingStep::Compose(resources) => {
            assert_eq!(resources.resource_root, "/repo");
            assert_eq!(resources.capability_ceiling, Capability::Read);
            assert!(resources.shell.is_none());
        }
        other => panic!("{other:?}"),
    }
    let mut create = decision("create");
    create.title = "Retries".into();
    create.body = "must be idempotent".into();
    let step = bookkeeping
        .composed(Ok(Ok(MemoryDecisions {
            decisions: vec![create],
        })))
        .unwrap();
    let call = match step {
        BookkeepingStep::Call(call) => call,
        other => panic!("{other:?}"),
    };
    match bookkeeping
        .replied(call, said("{\"memory\":{\"memory_id\":\"mem_9\"}}"))
        .unwrap()
    {
        BookkeepingStep::Record(out) => {
            assert_eq!(out.memories_written[0].memory_id, "mem_9");
            assert_eq!(out.memories_written[0].kind, "Decision");
        }
        other => panic!("{other:?}"),
    }
}

#[test]
fn one_answer_leaves_the_other_decisions_to_be_made() {
    let (mut bookkeeping, _) = Bookkeeping::begin(input(true, &["a.rs"], "d"), true, "/repo");
    let mut first = decision("create");
    first.title = "Retries".into();
    first.body = "must be idempotent".into();
    let mut second = decision("revise");
    second.memory_id = Some("mem_old".into());
    second.title = "Locks".into();
    second.body = "are gone".into();
    let mut empty = decision("create");
    empty.title = "nothing to say".into();
    let mut third = first.clone();
    third.title = "Backoff".into();
    let mut step = bookkeeping
        .composed(Ok(Ok(MemoryDecisions {
            decisions: vec![first, second, empty, third],
        })))
        .unwrap();
    let mut asked = Vec::new();
    let out = loop {
        step = match step {
            BookkeepingStep::Record(out) => break out,
            BookkeepingStep::Call(call) => {
                asked.push(call.request().tool);
                let id = format!("{{\"memory_id\":\"mem_{}\"}}", asked.len());
                bookkeeping.replied(call, said(&id)).unwrap()
            }
            other => panic!("{other:?}"),
        };
    };
    assert_eq!(asked, ["memory_create", "memory_update", "memory_create"]);
    let made: Vec<&str> = out
        .memories_written
        .iter()
        .map(|m| m.memory_id.as_str())
        .collect();
    assert_eq!(made, ["mem_1", "mem_3"]);
    assert_eq!(out.memories_written[1].summary.as_deref(), Some("Backoff"));
    assert_eq!(out.memories_revised.len(), 1);
    assert_eq!(out.memories_revised[0].memory_id, "mem_old");
    assert_eq!(out.skipped, None);
}

/// The arguments of a call, by name, with each value written out.
fn handed(call: &MemoryCall) -> Vec<(&'static str, String)> {
    call.request()
        .arguments
        .into_iter()
        .map(|(name, argument)| {
            let value = match argument {
                Argument::Text(text) => text,
                Argument::Number(n) => n.to_string(),
                Argument::List(list) => list.join(","),
                Argument::Field(field, text) => format!("{field}={text}"),
            };
            (name, value)
        })
        .collect()
}

#[test]
fn a_call_hands_its_tool_what_the_index_asks_for() {
    let mut create = decision("create");
    create.title = "Retries".into();
    create.body = "must be idempotent".into();
    let creation = |touched: &[String]| match decide(&create, "unreviewed", touched) {
        Act::Create(creation) => MemoryCall::Create(creation),
        other => panic!("{other:?}"),
    };
    let call = creation(&["a.rs".to_string()]);
    assert_eq!(call.request().tool, "memory_create");
    let text = |pairs: &[(&'static str, &str)]| -> Vec<(&'static str, String)> {
        pairs.iter().map(|(n, v)| (*n, v.to_string())).collect()
    };
    assert_eq!(
        handed(&call),
        text(&[
            ("kind", "Decision"),
            ("title", "Retries"),
            ("body", "must be idempotent"),
            ("confidence", "medium"),
            ("source", "agent"),
            ("tags", "ratatoskr,bookkeeper,unreviewed"),
            ("bind", "path=a.rs"),
        ])
    );
    assert_eq!(handed(&creation(&[]))[6], ("bind", "dir=".to_string()));

    let mut revise = decision("revise");
    revise.memory_id = Some("mem_1".into());
    revise.body = "now".into();
    let revision = |d: &MemoryDecision| match decide(d, "converged", &[]) {
        Act::Revise(revision) => MemoryCall::Update(revision),
        other => panic!("{other:?}"),
    };
    let call = revision(&revise);
    assert_eq!(call.request().tool, "memory_update");
    assert_eq!(
        handed(&call),
        text(&[("memory_id", "mem_1"), ("body", "now")])
    );
    revise.title = "Locks".into();
    assert_eq!(
        handed(&revision(&revise))[2],
        ("title", "Locks".to_string())
    );
}

#[test]
fn bookkeeping_that_fails_says_where() {
    let begin = || Bookkeeping::begin(input(true, &["a.rs"], "d"), true, "/repo").0;
    assert_eq!(
        begin().composed(Err("no route".into())).unwrap_err().message(),
        "node `bookkeeper` failed: bookkeeper compose failed: no route"
    );
    assert_eq!(
        begin()
            .composed(Ok(Err("missing field".into())))
            .unwrap_err()
            .message(),
        "node `bookkeeper` failed: bookkeeper decisions could not be reconstructed: missing field"
    );
    let mut bookkeeping = begin();
    let mut create = decision("create");
    create.title = "t".into();
    create.body = "b".into();
    let call = match bookkeeping
        .composed(Ok(Ok(MemoryDecisions {
            decisions: vec![create],
        })))
        .unwrap()
    {
        BookkeepingStep::Call(call) => call,
        other => panic!("{other:?}"),
    };
    assert_eq!(
        bookkeeping
            .replied(call, Err("closed".into()))
            .unwrap_err()
            .message(),
        "node `bookkeeper` failed: memory_create call failed: closed"
    );
    // With nothing to write it is done at once.
    match begin()
        .composed(Ok(Ok(MemoryDecisions {
            decisions: Vec::new(),
        })))
        .unwrap()
    {
        BookkeepingStep::Record(out) => {
            assert_eq!(
                out.skipped.as_deref(),
                Some("the bookkeeper decided nothing")
            )
        }
        other => panic!("{other:?}"),
    }
}

#[test]
fn a_replay_reads_the_run_back_from_its_checkpoints() {
    let mut issue = checkpoint("issue", None, None);
    issue.output_json = "{\"issue\":\"make it stick\"}".into();
    let cps = [
        issue,
        checkpoint("implementer", Some(1), None),
        checkpoint("implementer", Some(2), Some("\"you broke it\"")),
    ];
    let made = input(true, &[], "");
    let replay = replay_input(
        &cps,
        made.analyst,
        made.implementer,
        None,
        vec!["the migrations".into()],
    );
    assert_eq!(replay.issue, "make it stick");
    assert_eq!(replay.iterations, 2);
    assert_eq!(replay.status, "max_iterations_reached");
    assert_eq!(replay.unchecked, ["the migrations"]);
    assert_eq!(replay.friction.diagnostics, ["you broke it"]);
}
