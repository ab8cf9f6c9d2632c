//! The review: which findings block, and what the implementer is told of them.

use ratatoskr_nodes::analyst::AnalystOutput;
use ratatoskr_nodes::review::{
    correction, parse_threshold, replan, unresolved_of, Finding, FindingKind, Severity,
    VerifierOutput,
};

fn finding(severity: Severity, kind: FindingKind) -> Finding {
    Finding {
        severity,
        kind,
        file: "a.rs".into(),
        line: Some(4),
        summary: "summary".into(),
        failure_scenario: "scenario".into(),
    }
}

#[test]
fn a_threshold_blocks_on_that_severity_and_everything_worse() {
    assert!(Severity::P1.blocks_at(Severity::P2));
    assert!(Severity::P2.blocks_at(Severity::P2));
    assert!(
        !Severity::P3.blocks_at(Severity::P2),
        "a nit does not re-drive an implementer session at the default threshold"
    );
    // The stricter setting a repo can opt into.
    assert!(Severity::P3.blocks_at(Severity::P3));
    // And the loosest: only must-fix findings block.
    assert!(!Severity::P2.blocks_at(Severity::P1));
    assert!(Severity::P1.blocks_at(Severity::P1));
}

#[test]
fn blocking_findings_come_back_worst_first() {
    let out = VerifierOutput {
        findings: vec![
            finding(Severity::P3, FindingKind::Execution),
            finding(Severity::P2, FindingKind::Execution),
            finding(Severity::P1, FindingKind::Plan),
        ],
        assessment: String::new(),
        ..Default::default()
    };
    let blocking = out.blocking(Severity::P2);
    assert_eq!(blocking.len(), 2, "the nit is recorded but does not block");
    assert_eq!(blocking[0].severity, Severity::P1);
    assert_eq!(blocking[1].severity, Severity::P2);
    assert!(out.blocking(Severity::P3).len() == 3);
}

#[test]
fn the_correction_carries_the_failure_scenario_verbatim() {
    let f = finding(Severity::P1, FindingKind::Execution);
    let text = correction(&[&f]);
    assert!(text.contains("a.rs:4"));
    assert!(text.contains("P1"));
    assert!(text.contains("scenario"));
}

#[test]
fn a_misspelled_threshold_does_not_quietly_relax_the_gate() {
    assert_eq!(parse_threshold("P1"), Severity::P1);
    assert_eq!(parse_threshold("p2"), Severity::P2);
    assert_eq!(parse_threshold(" P3 "), Severity::P3);
    // The dangerous direction: a typo must not read as "block on nothing".
    assert_eq!(parse_threshold("critical"), Severity::P2);
    assert_eq!(parse_threshold(""), Severity::P2);
}

#[test]
fn the_replan_prompt_leads_with_the_amended_requirements() {
    let revised = AnalystOutput {
        impact_summary: "narrower than before".into(),
        touched: Vec::new(),
        risks: Vec::new(),
        requirements: vec!["only handle the utf-8 case".into()],
        residual_risk: String::new(),
        changes_code: true,
        acceptance: Vec::new(),
        interface: Vec::new(),
    };
    let finding = Finding {
        severity: Severity::P1,
        kind: FindingKind::Plan,
        file: "a.rs".into(),
        line: None,
        summary: "the requirement asked for something impossible".into(),
        failure_scenario: "any non-utf-8 path".into(),
    };
    let prompt = replan(&revised, &[&finding]);

    // The implementer's job is now to satisfy the new plan; the findings explain why it changed, so
    // the requirements must come first.
    let req = prompt.find("only handle the utf-8 case").unwrap();
    let why = prompt
        .find("the requirement asked for something impossible")
        .unwrap();
    assert!(req < why, "requirements lead, findings follow:\n{prompt}");
    assert!(prompt.contains("any non-utf-8 path"));
    assert!(
        prompt.ends_with(
            "- only handle the utf-8 case\n\nWhat this is meant to achieve:\nnarrower than \
             before\n\nWhat the review found, for context:\n- [P1] the requirement asked for \
             something impossible\n  Fails when: any non-utf-8 path\n"
        ),
        "{prompt}"
    );
}

#[test]
fn a_review_that_reached_everything_is_complete() {
    let whole = VerifierOutput::default();
    assert!(whole.complete());
    let partial = VerifierOutput {
        unchecked: vec!["the migrations".into()],
        ..Default::default()
    };
    assert!(!partial.complete());
}

#[test]
fn what_the_last_review_left_is_reported_and_a_failed_read_is_nothing() {
    let review = VerifierOutput {
        findings: vec![finding(Severity::P2, FindingKind::Execution)],
        unchecked: vec!["the migrations".into()],
        ..Default::default()
    };
    let (findings, unchecked) = unresolved_of(Ok(Some(review)));
    assert_eq!(findings.len(), 1);
    assert_eq!(unchecked, ["the migrations"]);
    let (findings, unchecked) = unresolved_of(Ok(None));
    assert!(findings.is_empty() && unchecked.is_empty());
    let (findings, unchecked) = unresolved_of(Err("locked".into()));
    assert!(findings.is_empty() && unchecked.is_empty());
}
