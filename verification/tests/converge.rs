//! What a run that has converged has to show, and what the referee is handed.

use ratatoskr_nodes::converge::{
    acceptance_converged, acceptance_ran, is_converged, newly_introduced_failures,
    referee_candidates, test_command_ran, under, unsatisfied,
};
use ratatoskr_nodes::implementer::AcceptanceResult;

fn v(xs: &[&str]) -> Vec<String> {
    xs.iter().map(|s| s.to_string()).collect()
}

/// The other half of the skipped-suite pair: a workflow may ask whether a run converged without
/// asking beside it whether its checks ran.
#[test]
fn a_change_that_was_never_made_has_not_converged() {
    assert!(
        !is_converged(false, &v(&["a"]), &v(&[])),
        "an empty failing set from a suite that never ran is not a clean one"
    );
    assert!(is_converged(true, &v(&["a"]), &v(&[])));
}

#[test]
fn converged_when_no_new_failures() {
    assert!(is_converged(
        true,
        &v(&["a::pre_existing"]),
        &v(&["a::pre_existing"])
    ));
    assert!(is_converged(true, &v(&["a::pre_existing"]), &v(&[])));
    assert!(is_converged(true, &v(&[]), &v(&[])));
}

#[test]
fn not_converged_when_change_introduces_a_failure() {
    let new = newly_introduced_failures(
        &v(&["a::pre_existing"]),
        &v(&["a::pre_existing", "b::broke"]),
    );
    assert_eq!(new, ["b::broke"]);
    assert!(!is_converged(
        true,
        &v(&["a::pre_existing"]),
        &v(&["a::pre_existing", "b::broke"])
    ));
}

#[test]
fn a_test_written_for_the_change_must_pass_even_though_it_failed_at_baseline() {
    let authored = v(&[
        "store::prunes_old_rows",
        "store::zero_duration_removes_nothing",
    ]);
    let baseline_failing = authored.clone();
    let still_failing = v(&["store::zero_duration_removes_nothing"]);

    assert!(
        is_converged(true, &baseline_failing, &still_failing),
        "nothing is newly failing, which is exactly why this is not enough on its own"
    );
    assert_eq!(
        unsatisfied(&authored, &still_failing),
        ["store::zero_duration_removes_nothing"],
        "and the sad-path test nobody implemented is named"
    );

    // Satisfied: the change made them pass.
    assert!(unsatisfied(&authored, &[]).is_empty());
    // A run with no authored tests is unaffected.
    assert!(unsatisfied(&[], &still_failing).is_empty());
}

#[test]
fn the_declared_exemption_covers_its_subtree_and_nothing_else() {
    let rewritten = v(&["crates/foo/tests/api.rs", "crates/bar/tests/api.rs"]);
    assert_eq!(
        referee_candidates(&rewritten, &v(&["crates/foo/tests"])),
        ["crates/bar/tests/api.rs"]
    );
    // A prefix that isn't a path boundary doesn't exempt: `tests` is not `tests_helper`.
    assert_eq!(
        referee_candidates(&v(&["tests_helper/conftest.py"]), &v(&["tests"])),
        ["tests_helper/conftest.py"]
    );
    assert!(referee_candidates(&rewritten, &v(&["crates"])).is_empty());
}

#[test]
fn zero_tests_with_nonzero_exit_did_not_run() {
    // The false-convergence case: no tests parsed and the command failed.
    assert!(!test_command_ran(true, &v(&[]), 0, 101));
    // A genuinely empty suite that exited 0 counts as "ran" (nothing to break).
    assert!(test_command_ran(true, &v(&[]), 0, 0));
    // Any parsed test means it ran, regardless of exit code.
    assert!(test_command_ran(true, &v(&["a"]), 0, 101));
    // A passing count alone proves it ran, which is the whole reason the count is carried.
    assert!(test_command_ran(true, &v(&[]), 285, 101));
}

#[test]
fn a_skipped_suite_did_not_run_however_clean_its_zeros_look() {
    assert!(
        !test_command_ran(false, &v(&[]), 0, 0),
        "the exact shape a skipped acceptance leaves behind"
    );
    assert!(!test_command_ran(false, &v(&["a"]), 285, 0));
}

#[test]
fn every_rewritten_file_is_a_candidate_whatever_the_language() {
    assert_eq!(
        referee_candidates(&v(&["src/lib.rs", "tests/a.rs"]), &[]),
        ["src/lib.rs", "tests/a.rs"],
        "both come back, in the order the diff reported them"
    );
    assert_eq!(
        referee_candidates(&v(&["crates/ratatoskr-nodes/src/lib.rs"]), &[]),
        ["crates/ratatoskr-nodes/src/lib.rs"]
    );
}

#[test]
fn nothing_rewritten_means_nothing_to_judge() {
    assert!(referee_candidates(&[], &[]).is_empty());
    assert!(referee_candidates(&[], &v(&["tests"])).is_empty());
}

#[test]
fn the_candidate_exemption_is_segment_boundaried() {
    assert_eq!(
        referee_candidates(&v(&["tests_helper/conftest.py"]), &v(&["tests"])),
        ["tests_helper/conftest.py"]
    );
    // It covers its own subtree, and only its own.
    assert_eq!(
        referee_candidates(
            &v(&["crates/foo/tests/api.rs", "crates/bar/tests/api.rs"]),
            &v(&["crates/foo/tests"])
        ),
        ["crates/bar/tests/api.rs"]
    );
    let under_crates = referee_candidates(
        &v(&["crates/foo/tests/api.rs", "crates/bar/tests/api.rs"]),
        &v(&["crates"]),
    );
    assert!(
        under_crates.is_empty(),
        "exempting `crates` exempts everything under it"
    );
}

#[test]
fn a_path_is_under_itself_and_what_it_is_in() {
    assert!(under("a/b", "a/b"));
    assert!(under("a/b", "a"));
    assert!(under("a/b", "a/"));
    assert!(!under("ab", "a"));
    assert!(!under("a", "a/b"));
}

#[test]
fn an_attempt_without_a_result_has_neither_converged_nor_run() {
    let clean = Some(AcceptanceResult {
        failing_tests: v(&["a"]),
        passed_tests: 3,
        exit_code: 1,
    });
    assert!(acceptance_converged(&v(&["a"]), &clean));
    assert!(!acceptance_converged(&v(&[]), &clean));
    assert!(acceptance_ran(&clean));
    assert!(!acceptance_converged(&v(&["a"]), &None));
    assert!(!acceptance_ran(&None));
    assert!(!acceptance_ran(&Some(AcceptanceResult {
        failing_tests: v(&[]),
        passed_tests: 0,
        exit_code: 101,
    })));
}
