//! The implementer: where it works, and how one attempt moves on.

use ratatoskr_nodes::analyst::AnalystOutput;
use ratatoskr_nodes::config::Capability;
use ratatoskr_nodes::error::NodeError;
use ratatoskr_nodes::implementer::{
    produced_change, where_you_are, Attempt, AttemptEvent, AttemptFacts, ImplementerNode, Report,
    ShellLimits,
};
use ratatoskr_nodes::testrun::{AcceptanceStep, CacheMount, SandboxConfig, TestResults};

#[test]
fn every_attempt_is_told_which_worktree_it_is_in() {
    let told = where_you_are();
    assert!(!told.contains("/w/ratatoskr/abc12345"), "{told}");
    assert!(
        told.contains("relative paths with Read, Edit, and Bash"),
        "{told}"
    );
    assert!(told.contains("branch"), "{told}");
}

#[test]
fn where_you_are_states_the_backend_neutral_worktree_contract() {
    let told = where_you_are()
        .to_ascii_lowercase()
        .split_whitespace()
        .collect::<Vec<_>>()
        .join(" ");
    // The tools start in the run's worktree and relative paths resolve there.
    assert!(told.contains("worktree"), "{told}");
    assert!(told.contains("relative"), "{told}");
    assert!(told.contains("read"), "{told}");
    assert!(told.contains("edit"), "{told}");
    assert!(told.contains("bash"), "{told}");
    // Its own already-checked-out branch, and access outside the worktree refused.
    assert!(told.contains("branch"), "{told}");
    assert!(told.contains("outside"), "{told}");
    assert!(told.contains("refused"), "{told}");
}

#[test]
fn where_you_are_renders_no_host_absolute_path() {
    let told = where_you_are();
    assert!(
        !told.contains("/w/ratatoskr/abc12345"),
        "the implementer preamble must not contain a host absolute worktree path: {told}"
    );
    assert!(
        !told
            .split_whitespace()
            .any(|word| word.starts_with('/') && word.len() > 1),
        "the implementer preamble must not name an absolute path: {told}"
    );
}

#[test]
fn where_you_are_is_identical_regardless_of_sandbox_backend() {
    let told = where_you_are().to_ascii_lowercase();
    assert!(!told.contains("container"), "{told}");
    assert!(!told.contains("bwrap"), "{told}");
    assert!(!told.contains("microsandbox"), "{told}");
}

fn plan() -> AnalystOutput {
    AnalystOutput {
        impact_summary: "impact".into(),
        touched: Vec::new(),
        risks: Vec::new(),
        requirements: vec!["make it stick".into()],
        residual_risk: String::new(),
        changes_code: true,
        acceptance: Vec::new(),
        interface: Vec::new(),
    }
}

fn node(run_id: &str) -> ImplementerNode {
    ImplementerNode {
        sandbox: SandboxConfig {
            backend: "bwrap".into(),
            image: "base".into(),
            caches: vec![CacheMount {
                host: "/cache/node".into(),
                guest: "/wt/node_modules".into(),
            }],
            network_allow: vec!["npm".into()],
        },
        limits: ShellLimits {
            cpus: 4,
            memory_mib: 4096,
        },
        run_id: run_id.into(),
        issue: "an issue".into(),
        analyst: plan(),
        acceptance: vec![AcceptanceStep {
            name: "tests".into(),
            command: vec!["cargo".into(), "test".into()],
        }],
    }
}

#[test]
fn one_name_serves_the_worktree_the_push_and_the_sandbox() {
    let node = node("abc12345-9999");
    assert_eq!(node.short_id(), "abc12345");
    assert_eq!(node.branch(), "ratatoskr/abc12345");
    assert_eq!(node.sandbox_name(), "ratatoskr-impl-abc12345");
    assert_eq!(self::node("ab").branch(), "ratatoskr/ab");
}

#[test]
fn an_attempt_may_write_its_worktree_and_nothing_else() {
    let resources = node("abc12345-9999").attempt_resources("/wt");
    assert_eq!(resources.resource_root, "/wt");
    assert_eq!(resources.capability_ceiling, Capability::Write);
    assert_eq!(resources.rag_rat_worktree.as_deref(), Some("/wt"));
    let shell = resources.shell.expect("its commands run somewhere");
    // The machine its checks run on, and no other.
    let node = node("abc12345-9999");
    assert_eq!(shell.backend, node.sandbox.backend);
    assert_eq!(shell.image, node.sandbox.image);
    assert_eq!(shell.workdir, "/workspace");
    assert_eq!(shell.name, "ratatoskr-impl-abc12345");
    assert!(shell.command.is_empty());
    assert!(!shell.network);
    assert_eq!(shell.cpus, 4);
    assert_eq!(shell.memory_mib, 4096);
    assert_eq!(shell.mounts.len(), 2);
    assert!(shell.mounts[1].read_only);
    assert!(resources.guidance.unwrap().contains("WHERE YOU ARE"));
}

#[test]
fn a_redriven_attempt_keeps_the_plan_and_the_bar() {
    let node = node("abc12345");
    let facts = node.facts(Some("a diff".into()), "/wt");
    assert_eq!(facts.handed.as_deref(), Some("a diff"));
    assert_eq!(facts.worktree_path, "/wt");
    assert_eq!(facts.branch, "ratatoskr/abc12345");
    let first = node.initial_input();
    assert_eq!(first.diagnostic, None);
    assert_eq!(first.analyst.requirements, ["make it stick"]);
    let again = node.iterate_input("you broke store::migrate");
    assert_eq!(again.diagnostic.as_deref(), Some("you broke store::migrate"));
    assert_eq!(again.acceptance[0].command, ["cargo", "test"]);
    assert_eq!(again.issue, "an issue");
}

#[test]
fn a_diff_that_cannot_be_read_counts_as_changed() {
    assert!(!produced_change(&Some("d".into()), &Some("d".into())));
    assert!(produced_change(&Some("d".into()), &Some("e".into())));
    assert!(produced_change(&None, &Some("e".into())));
    assert!(produced_change(&Some("d".into()), &None));
}

fn facts() -> AttemptFacts {
    AttemptFacts {
        handed: Some("handed".into()),
        worktree_path: "/wt".into(),
        branch: "ratatoskr/abc12345".into(),
    }
}

fn report() -> Report {
    Report {
        summary: "did it".into(),
        kind: "fix".into(),
        scope: "nodes".into(),
        subject: "make it stick".into(),
    }
}

#[test]
fn an_attempt_that_changed_something_is_checked_and_described() {
    let facts = facts();
    let attempt = Attempt::Driving.next(&facts, AttemptEvent::Reported(Ok(report())));
    let attempt = attempt.next(&facts, AttemptEvent::Diff(Some("other".into())));
    assert!(matches!(attempt, Attempt::Accepting { .. }));
    let attempt = attempt.next(
        &facts,
        AttemptEvent::Checked(Ok(TestResults {
            failing: vec!["a".into()],
            passed: 2,
            exit_code: 1,
            raw_output: "out".into(),
        })),
    );
    let attempt = attempt.next(
        &facts,
        AttemptEvent::Touched {
            diff_summary: None,
            touched_files: Some(vec!["src/a.rs".into()]),
            rewritten_files: None,
        },
    );
    match attempt {
        Attempt::Finished(Ok(out)) => {
            let result = out.acceptance.expect("a changed tree is checked");
            assert_eq!(result.failing_tests, ["a"]);
            assert_eq!(result.passed_tests, 2);
            assert_eq!(result.exit_code, 1);
            assert_eq!(out.touched_files, ["src/a.rs"]);
            assert!(out.rewritten_files.is_empty());
            assert_eq!(out.diff_summary, "");
            assert_eq!(out.branch, "ratatoskr/abc12345");
            assert_eq!(out.narrative.as_deref(), Some("did it"));
            assert_eq!(out.commit_subject, "make it stick");
        }
        other => panic!("{other:?}"),
    }
}

#[test]
fn an_unchanged_tree_is_not_checked_again() {
    let facts = facts();
    let attempt = Attempt::Driving.next(&facts, AttemptEvent::Reported(Ok(report())));
    let attempt = attempt.next(&facts, AttemptEvent::Diff(Some("handed".into())));
    match attempt {
        Attempt::Describing { acceptance, .. } => {
            assert!(acceptance.is_none(), "absent, never zeroed")
        }
        other => panic!("{other:?}"),
    }
}

#[test]
fn an_attempt_says_where_it_failed() {
    let facts = facts();
    let says = |attempt: Attempt| match attempt {
        Attempt::Finished(Err(error)) => error.message(),
        other => panic!("{other:?}"),
    };
    assert_eq!(
        says(Attempt::Driving.next(&facts, AttemptEvent::InputFailed("no".into()))),
        "implementer input: no"
    );
    assert_eq!(
        says(Attempt::Driving.next(&facts, AttemptEvent::TurnFailed("no".into()))),
        "implementer agent failed: no"
    );
    assert_eq!(
        says(Attempt::Driving.next(
            &facts,
            AttemptEvent::Reported(Err(NodeError::InvalidOutput("no summary".into())))
        )),
        "output failed schema validation: no summary"
    );
    let accepting = Attempt::Driving
        .next(&facts, AttemptEvent::Reported(Ok(report())))
        .next(&facts, AttemptEvent::Diff(None));
    assert_eq!(
        says(accepting.next(&facts, AttemptEvent::Checked(Err("no sandbox".into())))),
        "no sandbox"
    );
}
