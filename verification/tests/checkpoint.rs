//! What a run writes down of each node, and reads back.

use ratatoskr_nodes::checkpoint::{
    count, issue, issue_from, latest, latest_output, plausible_output_tokens, record, required,
    sixteen_hex, Checkpoint, Claimed, Invocation, NodeTelemetry, Record, TokenUsage,
};
use ratatoskr_nodes::error::PlanError;

fn row(node: &str, output: &str) -> Checkpoint {
    Checkpoint {
        node_name: node.into(),
        output_json: output.into(),
        input_json: None,
        iteration: None,
        invocation: None,
        telemetry: NodeTelemetry::default(),
    }
}

fn entry(claimed: Option<Claimed>) -> Record {
    Record {
        run_id: "r1".into(),
        node: "redteam".into(),
        output_json: "{\"ok\":true}".into(),
        input: None,
        iteration: None,
        claimed,
    }
}

#[test]
fn an_output_token_count_below_what_the_output_could_contain_is_not_believable() {
    // The live figures that exposed this: 63 output tokens against a 5,286-byte answer.
    assert!(63 < plausible_output_tokens(5_286));
    // Eight bytes per token is far under any real tokenizer, so a plausible run clears it easily.
    assert!(1_700 > plausible_output_tokens(5_286));
    // A node that produced almost nothing has almost no floor to clear.
    assert_eq!(plausible_output_tokens(0), 0);
    assert_eq!(plausible_output_tokens(7), 0);
}

#[test]
fn a_turn_less_checkpoint_reports_no_cost_rather_than_zero() {
    let recorded = record(entry(None), None);
    let event = recorded.event;
    assert_eq!(event.usage, None);
    assert_eq!(event.turns, None);
    assert_eq!(event.duration_ms, None);
    assert_eq!(event.model, None);
    assert_eq!(event.error, None);
    // It still says a node produced output, which is the whole point of the event.
    assert_eq!(event.node, "redteam");
    assert_eq!(event.bytes, 11);

    // And a turn that genuinely spent nothing reports every figure, because each is then a
    // measurement.
    let free = record(
        entry(Some(Claimed {
            telemetry: NodeTelemetry {
                model: Some("p/m".to_string()),
                turns: Some(1),
                duration_ms: Some(90),
                ..Default::default()
            },
            invocation: None,
        })),
        None,
    );
    let usage = free.event.usage.expect("a model ran");
    assert_eq!(usage.input_tokens, 0);
    assert_eq!(usage.reasoning_tokens, 0);
    assert_eq!(free.event.turns, Some(1));
    assert_eq!(free.event.model.as_deref(), Some("p/m"));
    // Fewer tokens than the output could contain is noted, with what it could not be under.
    assert_eq!(free.short_of, Some(1));
    assert_eq!(recorded.short_of, None, "no model, nothing to doubt");
}

#[test]
fn the_checkpoint_event_carries_the_identity_the_row_carries() {
    let current = Some(Invocation {
        span_id: 0xab,
        parent_span_id: None,
    });
    let root = record(entry(None), current);
    assert_eq!(root.event.span_id.as_deref(), Some("00000000000000ab"));
    assert_eq!(root.event.parent_span_id, None);
    assert_eq!(root.write.invocation, current);

    let nested = record(
        entry(None),
        Some(Invocation {
            span_id: 2,
            parent_span_id: Some(u64::MAX),
        }),
    );
    assert_eq!(
        nested.event.parent_span_id.as_deref(),
        Some("ffffffffffffffff")
    );
    assert_ne!(nested.event.parent_span_id, nested.event.span_id);

    // Outside every host call there is no execution to name.
    let unscoped = record(entry(None), None);
    assert_eq!(unscoped.event.span_id, None);
    assert_eq!(unscoped.event.parent_span_id, None);
}

#[test]
fn a_checkpoint_names_the_execution_that_wrote_it_and_what_invoked_that_one() {
    let own = Invocation {
        span_id: 7,
        parent_span_id: Some(1),
    };
    let host = Invocation {
        span_id: 1,
        parent_span_id: None,
    };
    // The execution that ran the turns, where there were any.
    let claimed = record(
        entry(Some(Claimed {
            telemetry: NodeTelemetry::default(),
            invocation: Some(own),
        })),
        Some(host),
    );
    assert_eq!(claimed.write.invocation, Some(own));
    // The one the row is written inside, where there were none.
    assert_eq!(record(entry(None), Some(host)).write.invocation, Some(host));
    assert_ne!(sixteen_hex(7), sixteen_hex(1));
}

#[test]
fn a_row_holds_what_it_was_given_and_what_the_turns_cost() {
    let usage = TokenUsage {
        input_tokens: 10,
        output_tokens: 20,
        cached_input_tokens: 3,
        cache_creation_input_tokens: 4,
        reasoning_tokens: 5,
    };
    let mut entry = entry(Some(Claimed {
        telemetry: NodeTelemetry {
            model: Some("p/m".into()),
            usage,
            tools: vec!["Read".into(), "Grep".into()],
            tools_used: vec!["Read".into()],
            ..Default::default()
        },
        invocation: None,
    }));
    entry.input = Some("\"plan\"".into());
    entry.iteration = Some(2);
    let recorded = record(entry, None);
    assert_eq!(recorded.write.run_id, "r1");
    assert_eq!(recorded.write.input_json.as_deref(), Some("\"plan\""));
    assert_eq!(recorded.write.iteration, Some(2));
    assert_eq!(recorded.write.telemetry.usage, usage);
    assert_eq!(recorded.event.usage, Some(usage));
    assert_eq!(recorded.event.tools, "Read,Grep");
    assert_eq!(recorded.event.tools_used, "Read");
    assert_eq!(recorded.event.iteration, Some(2));
    assert_eq!(recorded.short_of, None);
    let plain = Record::plain("r1", "issue", "{}");
    assert_eq!(plain.node, "issue");
    assert!(plain.claimed.is_none());
}

#[test]
fn the_latest_checkpoint_of_a_node_stands() {
    let rows = [
        row("implementer", "1"),
        row("analyst", "2"),
        row("implementer", "3"),
        row("referee", "4"),
    ];
    assert_eq!(latest(&rows, "implementer").unwrap().output_json, "3");
    assert_eq!(latest_output(&rows, "analyst").as_deref(), Some("2"));
    assert!(latest(&rows, "publisher").is_none());
    assert_eq!(count(&rows, "implementer"), 2);
    assert_eq!(count(&rows, "publisher"), 0);
    assert_eq!(required(&rows, "r1", "analyst").unwrap().output_json, "2");
    match required(&rows, "r1", "publisher") {
        Err(PlanError::MissingCheckpoint(run, node)) => {
            assert_eq!(run, "r1");
            assert_eq!(node, "publisher");
        }
        other => panic!("{other:?}"),
    }
}

#[test]
fn the_issue_is_read_from_its_checkpoint_as_far_as_it_can_be() {
    assert_eq!(
        issue(&[row("issue", "{\"issue\":\"make it stick\"}")]),
        "make it stick"
    );
    assert_eq!(issue(&[row("issue", "{\"issue\":7}")]), "");
    assert_eq!(issue(&[row("issue", "not json")]), "");
    assert_eq!(issue(&[]), "");
    assert_eq!(issue_from(Some(Ok(Some(Some("told".into()))))), "told");
    assert_eq!(issue_from(Some(Err("eof".into()))), "");
}
