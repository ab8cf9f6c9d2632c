//! Which names a workflow may use, and for what.

use ratatoskr_nodes::policy::{
    check_typed_output, checkpoint_identities, class, folded_as_evidence, has_contract_check,
    is_js_host, required_contract, reserved, reserved_for_governance, standard_identifiers, Class,
    Reserved, RUN_CHECKPOINT_IDENTITIES,
};
use ratatoskr_nodes::workflow::operation_hosts;

#[test]
fn every_operation_host_is_reserved_as_one() {
    for name in operation_hosts() {
        assert_eq!(
            reserved(&name),
            Some(Reserved::Operation),
            "operation host `{name}` is not classified as one"
        );
    }
}

#[test]
fn every_drawable_run_identity_is_one_no_workflow_can_declare() {
    for name in RUN_CHECKPOINT_IDENTITIES {
        assert!(
            reserved(name).is_some(),
            "`{name}` is drawable as a run's own record, so a stage must not be able to claim it"
        );
    }
    for name in checkpoint_identities() {
        assert!(reserved(&name).is_some(), "{name}");
    }
}

#[test]
fn every_standard_identifier_is_classified_once() {
    let mut seen = std::collections::BTreeSet::new();
    for (name, _) in standard_identifiers() {
        assert!(seen.insert(name), "`{name}` is classified twice");
    }
}

#[test]
fn every_deserialized_contract_has_a_check() {
    let mut held = 0;
    for (name, class) in standard_identifiers() {
        let Class::Overridable {
            contract: Some(contract),
            ..
        } = class
        else {
            continue;
        };
        held += 1;
        assert!(
            has_contract_check(contract),
            "`{name}` is deserialized as `{contract}`, which nothing here can check"
        );
    }
    assert!(held > 0);
}

#[test]
fn a_typed_stage_refuses_output_its_type_cannot_read() {
    let error = check_typed_output(
        "analyst",
        Err("invalid type: string, expected struct AnalystOutput".into()),
    )
    .expect_err("a string is not an AnalystOutput");
    assert!(error.contains("analyst"), "{error}");
    assert!(error.contains("AnalystOutput"), "{error}");
    assert!(check_typed_output("analyst", Ok(())).is_ok());
    // A workflow's own stage id shapes its output however it likes.
    assert!(check_typed_output("security_review", Err("anything".into())).is_ok());
}

#[test]
fn a_repositorys_own_identifier_is_unconstrained() {
    assert!(reserved("security_review").is_none());
    assert!(required_contract("security_review").is_none());
    assert!(is_js_host("security_review"));
    assert!(class("security_review").is_none());
    assert!(!folded_as_evidence("security_review"));
}

#[test]
fn selection_and_the_review_gate_are_not_reachable_from_javascript() {
    assert!(!is_js_host("overseer"));
    assert!(!is_js_host("verifier"));
    assert!(!is_js_host("bookkeeper"));
    assert!(!is_js_host("publisher"));
    assert!(!is_js_host("redteam_author"));
    assert!(!is_js_host("implementer_attempt"));
}

#[test]
fn an_operation_identity_may_still_govern_a_stage_but_a_terminal_one_may_not() {
    assert!(reserved_for_governance("implementer").is_none());
    assert!(reserved_for_governance("context").is_none());
    assert!(reserved_for_governance("redteam").is_none());
    assert_eq!(
        reserved_for_governance("publisher"),
        Some(Reserved::Terminal)
    );
    assert_eq!(
        reserved_for_governance("overseer"),
        Some(Reserved::Selection)
    );
}

#[test]
fn a_reservation_says_why_it_stands() {
    for (name, _) in standard_identifiers() {
        if let Some(kind) = reserved(name) {
            assert!(!kind.because().is_empty(), "{name}");
        }
    }
}
