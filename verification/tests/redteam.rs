//! The red team: which authored tests gate a change, and where they may be copied.

use ratatoskr_nodes::analyst::InterfaceItem;
use ratatoskr_nodes::config::Capability;
use ratatoskr_nodes::converge::{acceptance_converged, unsatisfied};
use ratatoskr_nodes::error::NodeError;
use ratatoskr_nodes::implementer::AcceptanceResult;
use ratatoskr_nodes::redteam::{
    author_resources, contained, is_same_path, plant, planted, red_team_output, to_classify, with_authored,
    worth_authoring, AuthoredTests, Baseline, BaselineEvent, FailureClassification, RedTeamOutput,
};
use ratatoskr_nodes::testrun::{CharacterizerOutput, StepOutcome, TestResults};

fn authored(tests: &[&str], files: &[&str]) -> AuthoredTests {
    AuthoredTests {
        files: files.iter().map(|s| s.to_string()).collect(),
        tests: tests.iter().map(|s| s.to_string()).collect(),
        covers: String::new(),
        unproven: Vec::new(),
    }
}

fn ran(failing: &[&str], passed: usize) -> RedTeamOutput {
    RedTeamOutput {
        authored: None,
        failing_tests: failing.iter().map(|s| s.to_string()).collect(),
        passed_tests: passed,
        exit_code: if failing.is_empty() { 0 } else { 1 },
        classifications: Vec::new(),
    }
}

/// A test that already passes without the change proves nothing, and must not gate.
#[test]
fn an_authored_test_that_passes_without_the_change_gates_nothing() {
    let clean = ran(&[], 10);
    let seeded = ran(&["repro::the_bug_is_fixed"], 9);
    let kept = authored(
        &["repro::the_bug_is_fixed", "repro::two_plus_two_is_four"],
        &["tests/repro.rs"],
    )
    .proven_by(&seeded, &clean);

    assert_eq!(kept.tests, ["repro::the_bug_is_fixed"]);
    assert_eq!(kept.unproven, ["repro::two_plus_two_is_four"]);
    assert_eq!(
        unsatisfied(&kept.tests, &["repro::the_bug_is_fixed".to_string()]),
        ["repro::the_bug_is_fixed"]
    );
    // The rejected one cannot be satisfied for free, because it is no longer asked about.
    assert!(unsatisfied(&kept.tests, &[]).is_empty());
}

/// A test that stops the suite building has demonstrably not passed without the change.
#[test]
fn a_test_that_breaks_the_build_without_the_change_is_proven_by_that() {
    let clean = ran(&[], 10);
    let seeded = ran(&["cargo test"], 0);
    let kept =
        authored(&["repro::the_bug_is_fixed"], &["tests/repro.rs"]).proven_by(&seeded, &clean);
    assert_eq!(kept.tests, ["repro::the_bug_is_fixed"], "still gates");
    assert!(kept.unproven.is_empty());
}

/// The clean run is what converge compares against, and it never sees the authored files.
#[test]
fn a_change_that_does_nothing_does_not_converge_when_the_tests_break_the_build() {
    let clean = ran(&[], 10);
    // What the implementer's run reports when it changed nothing and the authored file is there.
    let after_no_op = Some(AcceptanceResult {
        failing_tests: vec!["cargo test".to_string()],
        passed_tests: 0,
        exit_code: 101,
    });
    assert!(
        !acceptance_converged(&clean.failing_tests, &after_no_op),
        "a build the change did not fix is a NEW failure against a clean baseline"
    );
    // Had the baseline been seeded, it would report the same step and the difference vanishes.
    let seeded_baseline = ran(&["cargo test"], 0);
    assert!(
        acceptance_converged(&seeded_baseline.failing_tests, &after_no_op),
        "which is precisely why the baseline must not be seeded"
    );
}

/// Nothing proven means the ordinary gate, said out loud rather than silently.
#[test]
fn tests_that_all_pass_on_the_baseline_leave_nothing_to_gate_on() {
    let kept = authored(&["a", "b"], &["tests/repro.rs"]).proven_by(&ran(&[], 5), &ran(&[], 5));
    assert!(kept.tests.is_empty(), "none of them earned a place");
    assert_eq!(kept.unproven, ["a", "b"], "and the run can say why");
}

/// Named tests with no file to prove them by gate nothing, and say so.
#[test]
fn tests_with_no_files_cannot_be_proven() {
    let kept = authored(&["a"], &[]).none_proven();
    assert!(kept.tests.is_empty());
    assert_eq!(kept.unproven, ["a"]);
    assert!(!authored(&["a"], &[]).provable());
    assert!(!authored(&[], &["tests/a.rs"]).provable());
    assert!(authored(&["a"], &["tests/a.rs"]).provable());
}

#[test]
fn a_path_that_escapes_the_worktree_is_refused_rather_than_copied() {
    let root = "/srv/wt/impl";
    assert_eq!(
        contained(root, "tests/repro.rs").unwrap(),
        "/srv/wt/impl/tests/repro.rs"
    );
    assert_eq!(contained(root, "./a/../b.rs").unwrap(), "/srv/wt/impl/b.rs");
    for escape in [
        "/etc/passwd",
        "../../../.env",
        "../sibling/x.rs",
        "..",
        "",
        "./",
    ] {
        assert!(
            contained(root, escape).is_none(),
            "`{escape}` must be refused"
        );
    }
}

#[test]
fn a_path_is_joined_to_its_root_once() {
    assert_eq!(contained("", "a/b").unwrap(), "a/b");
    assert_eq!(contained("/", "a").unwrap(), "/a");
    assert_eq!(contained("/r/", "a//b/").unwrap(), "/r/a/b");
    assert_eq!(contained("/r", "a/../..").as_deref(), None);
    assert_eq!(contained("/r", "..a").unwrap(), "/r/..a");
}

/// The refusal is reported per file, so one bad path does not discard the rest.
#[test]
fn one_refused_path_does_not_discard_the_other_files() {
    let (from, into) = ("/tmp/impl", "/tmp/base");
    let mut refused = Vec::new();
    let mut copied = Vec::new();
    for file in ["/etc/passwd", "tests/good.rs"] {
        match plant(from, into, file) {
            Ok(planting) => copied.push(planting),
            Err(why) => refused.push(why),
        }
    }
    let err = planted(&refused).expect_err("the absolute path is refused");
    assert!(err.contains("/etc/passwd"), "the refusal names it: {err}");
    assert_eq!(err, "/etc/passwd is not inside the worktree");
    assert_eq!(copied.len(), 1, "the good file is still planted");
    assert_eq!(copied[0].src, "/tmp/impl/tests/good.rs");
    assert_eq!(copied[0].dst, "/tmp/base/tests/good.rs");
}

#[test]
fn planting_copies_the_authored_files_into_the_baseline_tree() {
    let planting = plant("/tmp/impl", "/tmp/base", "tests/deep/repro.rs").unwrap();
    assert_eq!(planting.src, "/tmp/impl/tests/deep/repro.rs");
    assert_eq!(planting.dst, "/tmp/base/tests/deep/repro.rs");
    assert!(planted(&[]).is_ok());
    // A file is never copied onto itself.
    assert_eq!(
        plant("/tmp/impl", "/tmp/impl", "a.rs").unwrap_err(),
        "a.rs resolves to one file in both trees"
    );
    assert!(plant("/tmp//impl/", "/tmp/./impl", "a.rs").is_err());
    assert!(is_same_path("/a//b/", "/a/./b"));
    assert!(!is_same_path("a", "/a"));
    assert!(!is_same_path("./a", "a"));
    assert!(!is_same_path("/a/../b", "/b"));
    assert_eq!(
        planted(&["one".to_string(), "two".to_string()]).unwrap_err(),
        "one; two"
    );
}

#[test]
fn the_author_writes_only_where_there_is_a_surface_and_only_in_the_worktree() {
    let item = InterfaceItem {
        name: "store::prune".into(),
        shape: "fn prune(age)".into(),
        happy: Vec::new(),
        sad: Vec::new(),
    };
    assert!(worth_authoring(true, &[item.clone()]));
    assert!(!worth_authoring(false, &[item]));
    assert!(!worth_authoring(true, &[]));
    let resources = author_resources("/wt");
    assert_eq!(resources.resource_root, "/wt");
    assert_eq!(resources.capability_ceiling, Capability::Write);
    assert!(resources.shell.is_none());
}

fn step(name: &str, exit_code: i32) -> StepOutcome {
    StepOutcome {
        name: name.into(),
        command: vec!["run".into()],
        exit_code,
        output: String::new(),
    }
}

fn labels() -> Vec<FailureClassification> {
    vec![FailureClassification {
        test: "tests".into(),
        category: "flaky".into(),
        reason: "timing".into(),
    }]
}

#[test]
fn a_baseline_run_forks_checks_reads_and_labels() {
    let run = Baseline::Forking.next(true, true, BaselineEvent::Forked(Ok(())));
    assert!(matches!(run, Baseline::Planting));
    let run = run.next(true, true, BaselineEvent::Planted);
    assert!(matches!(run, Baseline::Accepting));
    let run = run.next(
        true,
        true,
        BaselineEvent::Checked(Ok(vec![step("build", 0), step("tests", 1)])),
    );
    let run = run.next(
        true,
        true,
        BaselineEvent::Read(Some(CharacterizerOutput {
            failing: vec!["suite::one".into()],
            passed: 7,
        })),
    );
    assert!(matches!(run, Baseline::Classifying { .. }));
    let run = run.next(true, true, BaselineEvent::Classified(Ok(labels())));
    match run {
        Baseline::Finished(Ok(out)) => {
            assert_eq!(out.failing_tests, ["suite::one"]);
            assert_eq!(out.passed_tests, 7);
            assert_eq!(out.exit_code, 1);
            assert_eq!(out.classifications.len(), 1);
            assert!(out.authored.is_none());
        }
        other => panic!("{other:?}"),
    }
}

#[test]
fn a_baseline_without_models_rests_on_its_exit_codes() {
    let run = Baseline::Forking.next(false, false, BaselineEvent::Forked(Ok(())));
    assert!(matches!(run, Baseline::Accepting));
    let run = run.next(
        false,
        false,
        BaselineEvent::Checked(Ok(vec![step("tests", 2)])),
    );
    match run.next(false, false, BaselineEvent::Read(None)) {
        Baseline::Finished(Ok(out)) => {
            assert_eq!(out.failing_tests, ["tests"]);
            assert_eq!(out.exit_code, 2);
            assert!(out.classifications.is_empty());
        }
        other => panic!("{other:?}"),
    }
}

#[test]
fn a_baseline_fails_only_where_it_cannot_be_run() {
    match Baseline::Forking.next(false, true, BaselineEvent::Forked(Err("no git".into()))) {
        Baseline::Finished(Err(error)) => {
            assert_eq!(error.message(), "baseline worktree create failed: no git")
        }
        other => panic!("{other:?}"),
    }
    match Baseline::Accepting.next(false, true, BaselineEvent::Checked(Err("no sandbox".into()))) {
        Baseline::Finished(Err(error)) => assert_eq!(error.message(), "no sandbox"),
        other => panic!("{other:?}"),
    }
    // A classifier that failed costs its labels and nothing else.
    let results = TestResults {
        failing: vec!["tests".into()],
        passed: 3,
        exit_code: 1,
        raw_output: "out".into(),
    };
    let asked = to_classify(&results);
    assert_eq!(asked.failing, ["tests"]);
    assert_eq!(asked.raw_output, "out");
    match (Baseline::Classifying { results }).next(
        false,
        true,
        BaselineEvent::Classified(Err(NodeError::Failed("no route".into()))),
    ) {
        Baseline::Finished(Ok(out)) => {
            assert_eq!(out.failing_tests, ["tests"]);
            assert!(out.classifications.is_empty());
        }
        other => panic!("{other:?}"),
    }
}

#[test]
fn the_baselines_numbers_stay_those_of_the_clean_run() {
    let clean = ran(&["old"], 10);
    let out = with_authored(
        clean.clone(),
        Some(authored(&["repro"], &["tests/repro.rs"])),
        Some(Ok(ran(&["old", "repro"], 9))),
    );
    assert_eq!(out.failing_tests, ["old"]);
    assert_eq!(out.passed_tests, 10);
    assert_eq!(out.authored.unwrap().tests, ["repro"]);
    // A proving run that failed proves nothing.
    let out = with_authored(
        clean.clone(),
        Some(authored(&["repro"], &["tests/repro.rs"])),
        Some(Err(NodeError::Failed("no sandbox".into()))),
    );
    let after = out.authored.unwrap();
    assert!(after.tests.is_empty());
    assert_eq!(after.unproven, ["repro"]);
    // And with nothing authored there is nothing beside it.
    assert!(with_authored(clean, None, None).authored.is_none());
    let made = red_team_output(
        TestResults {
            failing: vec!["a".into()],
            passed: 1,
            exit_code: 1,
            raw_output: String::new(),
        },
        Some(Ok(labels())),
    );
    assert_eq!(made.classifications[0].category, "flaky");
}
