//! Acceptance runs: what they may touch, and what is made of their exit codes.

use ratatoskr_nodes::testrun::{
    by_exit_code, characterized, joined_output, mounts_for, reconcile, Acceptance, AcceptanceStep,
    CacheMount, CharacterizerOutput, SandboxConfig, SandboxOutput, StepOutcome,
};

fn outcome(name: &str, exit_code: i32, output: &str) -> StepOutcome {
    StepOutcome {
        name: name.to_string(),
        command: vec!["run".to_string()],
        exit_code,
        output: output.to_string(),
    }
}

fn sandbox(caches: Vec<CacheMount>, network_allow: Vec<String>) -> SandboxConfig {
    SandboxConfig {
        backend: "local".into(),
        image: "base".into(),
        caches,
        network_allow,
    }
}

#[test]
fn a_check_may_write_its_tree_and_may_not_write_the_cache() {
    let repo = "/srv/repo";
    let worktree = format!("{repo}/wt");
    let cfg = sandbox(
        vec![CacheMount {
            host: format!("{repo}/.ratatoskr/cache/node"),
            guest: format!("{worktree}/web/node_modules"),
        }],
        Vec::new(),
    );

    let mounts = mounts_for(&cfg, &worktree);
    assert_eq!(mounts.len(), 2, "{mounts:?}");
    assert_eq!(mounts[0].host, worktree);
    assert!(!mounts[0].read_only, "the tree a build writes to");
    assert_eq!(mounts[1].host, format!("{repo}/.ratatoskr/cache/node"));
    assert!(mounts[1].read_only, "the cache every run shares");
    // And it lands where the resolver looks, not where it was stored.
    assert_eq!(mounts[1].guest, format!("{worktree}/web/node_modules"));
}

#[test]
fn exit_codes_alone_characterize_a_run() {
    let outcomes = [
        outcome("wasm build", 0, "built"),
        outcome("browser tests", 1, "1 failed"),
    ];
    let results = by_exit_code(&outcomes);
    assert_eq!(results.passed, 1);
    assert_eq!(results.failing, ["browser tests"]);
    assert_eq!(results.exit_code, 1);
    // Every step's output is kept: a later step frequently explains an earlier failure.
    assert!(results.raw_output.contains("built"));
    assert!(results.raw_output.contains("1 failed"));
}

#[test]
fn a_run_where_everything_passed_reports_checks_and_a_zero_exit() {
    let results = by_exit_code(&[outcome("a", 0, ""), outcome("b", 0, "")]);
    assert!(results.failing.is_empty());
    assert_eq!(results.exit_code, 0);
    assert_eq!(results.passed, 2);
}

#[test]
fn the_first_failure_sets_the_exit_code_wherever_it_happened() {
    assert_eq!(
        by_exit_code(&[outcome("a", 0, ""), outcome("b", 101, "")]).exit_code,
        101
    );
    assert_eq!(
        by_exit_code(&[outcome("a", 2, ""), outcome("b", 0, "")]).exit_code,
        2
    );
}

#[test]
fn a_characterization_that_loses_a_failure_is_refused() {
    let floor = by_exit_code(&[outcome("browser tests", 1, "1 failed")]);
    // The dangerous direction: an empty failing set would be compared against the baseline and call
    // a broken change converged.
    let blind = CharacterizerOutput {
        failing: Vec::new(),
        passed: 12,
    };
    let out = reconcile(blind, floor.clone());
    assert_eq!(
        out.failing,
        ["browser tests"],
        "falls back to the exit code"
    );

    // Named failures are taken as given — finer than the step, and the exit code still rules
    // whether the run passed.
    let named = CharacterizerOutput {
        failing: vec!["spec/login.spec.ts:12".into()],
        passed: 3,
    };
    let out = reconcile(named, floor);
    assert_eq!(out.failing, ["spec/login.spec.ts:12"]);
    assert_eq!(out.exit_code, 1);
}

#[test]
fn exit_codes_and_the_deterministic_pass_floor_override_model_claims() {
    let floor = by_exit_code(&[
        outcome("build", 0, "built"),
        outcome("tests", 101, "one failed"),
    ]);
    let read = CharacterizerOutput {
        failing: vec!["suite::one_case".into()],
        passed: 0,
    };
    let out = reconcile(read, floor);
    assert_eq!(out.failing, ["suite::one_case"]);
    assert_eq!(out.passed, 1, "the model cannot erase a passing step");
    assert_eq!(out.exit_code, 101, "the model cannot rewrite the exit code");
}

#[test]
fn a_clean_run_may_legitimately_name_no_failures() {
    let floor = by_exit_code(&[outcome("tests", 0, "ok")]);
    let read = CharacterizerOutput {
        failing: Vec::new(),
        passed: 41,
    };
    let out = reconcile(read, floor);
    assert!(out.failing.is_empty());
    assert_eq!(
        out.passed, 41,
        "the finer count is kept over the one-step floor"
    );
}

#[test]
fn without_a_reading_the_exit_codes_stand() {
    let steps = [outcome("build", 0, "ok"), outcome("tests", 3, "bad")];
    let results = characterized(&steps, None);
    assert_eq!(results.failing, ["tests"]);
    assert_eq!(results.exit_code, 3);
    assert_eq!(results.passed, 1);
}

#[test]
fn the_output_of_every_step_is_joined_under_its_name() {
    let text = joined_output(&[outcome("build", 0, "ok"), outcome("tests", 3, "bad")]);
    assert!(text.contains("build") && text.contains("tests"), "{text}");
    assert!(text.find("ok").unwrap() < text.find("bad").unwrap(), "{text}");
}

#[test]
fn a_step_runs_in_its_own_sandbox_and_its_failure_is_an_outcome() {
    let cfg = sandbox(Vec::new(), vec!["npm".into()]);
    let steps = vec![
        AcceptanceStep {
            name: "install".into(),
            command: vec!["npm".into(), "ci".into()],
        },
        AcceptanceStep {
            name: "tests".into(),
            command: vec!["cargo".into(), "test".into()],
        },
    ];
    let run = Acceptance {
        cfg: &cfg,
        name: "ratatoskr-impl-abc",
        worktree: "/srv/wt",
        steps: &steps,
    };
    let first = run.spec(0);
    assert_eq!(first.name, "ratatoskr-impl-abc-0");
    assert_eq!(first.command, ["npm", "ci"]);
    assert!(first.network);
    let second = run.spec(1);
    assert_eq!(second.name, "ratatoskr-impl-abc-1");
    assert!(!second.network);

    let mut outcomes = Vec::new();
    run.record(
        &mut outcomes,
        Ok(SandboxOutput {
            exit_code: 4,
            stdout: "out".into(),
            stderr: "err".into(),
        }),
    )
    .unwrap();
    assert_eq!(outcomes.len(), 1);
    assert_eq!(outcomes[0].exit_code, 4);
    assert!(!outcomes[0].ok());
    assert!(run.record(&mut outcomes, Err("no sandbox".into())).is_err());
}
