//! Delivery: when a run publishes, and what it may push.

use ratatoskr_nodes::analyst::AnalystOutput;
use ratatoskr_nodes::config::{
    Capability, ImplementerConfig, PluginsConfig, PublishConfig, RatatoskrConfig,
};
use ratatoskr_nodes::error::{NodeError, PlanError};
use ratatoskr_nodes::implementer::ImplementerOutput;
use ratatoskr_nodes::publisher::{
    delivered, publish_resources, published, publishes, PublisherAction, PublisherInput,
    PublisherOutput,
};

fn config(enabled: bool) -> RatatoskrConfig {
    RatatoskrConfig {
        models: Vec::new(),
        agents: Vec::new(),
        implementer: ImplementerConfig {
            always_fork: false,
            verify_threshold: "P2".into(),
        },
        publish: PublishConfig {
            enabled,
            committer_name: "ratatoskr".into(),
            committer_email: "ratatoskr@localhost".into(),
        },
        plugins: PluginsConfig {
            skills_deny: Vec::new(),
        },
    }
}

fn input(forked: bool) -> PublisherInput {
    PublisherInput {
        issue: "Issue #7: make it stick".into(),
        analyst: AnalystOutput {
            impact_summary: "impact".into(),
            touched: Vec::new(),
            risks: Vec::new(),
            requirements: Vec::new(),
            residual_risk: String::new(),
            changes_code: forked,
            acceptance: Vec::new(),
            interface: Vec::new(),
        },
        implementer: forked.then(|| ImplementerOutput {
            worktree_path: "/wt".into(),
            branch: "ratatoskr/abc12345".into(),
            diff_summary: String::new(),
            touched_files: Vec::new(),
            rewritten_files: Vec::new(),
            acceptance: None,
            narrative: None,
            commit_kind: String::new(),
            commit_scope: String::new(),
            commit_subject: String::new(),
        }),
        status: "converged".into(),
        iterations: 1,
        unresolved: Vec::new(),
        unchecked: Vec::new(),
    }
}

#[test]
fn nothing_is_published_unless_the_run_ended_and_the_repository_asked() {
    assert!(publishes(&config(true), true));
    assert!(!publishes(&config(false), true));
    assert!(!publishes(&config(true), false));
}

#[test]
fn a_publisher_is_offered_the_runs_own_branch_and_no_other() {
    let resources = publish_resources(&input(true), "/repo", Some("/wt"), true);
    assert_eq!(resources.resource_root, "/wt");
    assert_eq!(resources.capability_ceiling, Capability::Publish);
    assert_eq!(resources.rag_rat_worktree.as_deref(), Some("/wt"));
    let push = resources.push.expect("there is a branch to push");
    assert_eq!(push.branch, "ratatoskr/abc12345");
    assert_eq!(push.repo_root, "/wt");
    assert_eq!(push.issue.as_deref(), Some("Issue #7: make it stick"));
    // A branch that may not be pushed, and a run without a fork, get no push at all.
    assert!(publish_resources(&input(true), "/repo", Some("/wt"), false)
        .push
        .is_none());
    let commenting = publish_resources(&input(false), "/repo", None, true);
    assert!(commenting.push.is_none());
    assert_eq!(commenting.resource_root, "/repo");
    assert_eq!(commenting.rag_rat_worktree, None);
}

#[test]
fn a_delivery_problem_does_not_cost_the_run() {
    let out = PublisherOutput {
        action: PublisherAction::Nothing,
        pull_request_url: String::new(),
        comment_url: String::new(),
        reasoning: "the run changed nothing and answered nothing".into(),
    };
    let done = published(Ok(Ok(out))).unwrap();
    assert_eq!(done.action, PublisherAction::Nothing);
    assert!(delivered(Ok(done)).is_some());

    let unread = published(Ok(Err("missing reasoning".into()))).unwrap_err();
    assert_eq!(
        unread.message(),
        "node `publisher` failed: publisher output could not be reconstructed: missing reasoning"
    );
    assert!(delivered(Err(unread)).is_none());
    match published(Err("no route".into())).unwrap_err() {
        PlanError::Node {
            node: "publisher",
            source: NodeError::Failed(why),
        } => assert_eq!(why, "no route"),
        other => panic!("{other:?}"),
    }
}
