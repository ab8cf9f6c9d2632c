//! The operator controls, as the run's process sees them.

use ratatoskr_nodes::control::{
    install, DashboardControl, PausedPoll, ProviderControlReply, ProviderPauseAcknowledgement,
    ProviderPauseDirective, ProviderPauseRegistration, ProviderPauseReply,
};

fn control() -> DashboardControl {
    install(Some("http://127.0.0.1:1".into()), Some("p".into()), "r").unwrap()
}

#[test]
fn an_unreachable_dashboard_lets_the_node_carry_on() {
    let mut control = control();
    assert_eq!(
        DashboardControl::poll(None::<ProviderControlReply<&str>>, "carry on"),
        "carry on"
    );
    assert!(matches!(
        control.poll_while_paused::<&str>("provider-pause-test", None),
        PausedPoll::Unavailable
    ));
    assert_eq!(
        control.pause("provider-pause-test", None),
        ProviderPauseRegistration::Uncertain
    );
    // Never paused, so there is nothing to acknowledge.
    assert!(control
        .acknowledgement("analyst", "provider-pause-test")
        .is_none());
}

#[test]
fn a_run_no_dashboard_started_is_not_controlled() {
    assert!(install(None, Some("p".into()), "r").is_none());
    let control = install(Some("http://d".into()), None, "r").unwrap();
    let request = control.request("analyst", None);
    assert_eq!(request.project, "");
    assert_eq!(request.run_id, "r");
    assert_eq!(request.node, "analyst");
    assert_eq!(request.provider_pause_waiter, None);
    assert_eq!(request.known_provider_resume_generation, None);
    assert_eq!(control.control_url(), "http://d/internal/control");
    assert_eq!(control.pause_url(), "http://d/internal/control/pause");
    assert_eq!(
        control.acknowledgement_url(),
        "http://d/internal/control/pause/ack"
    );
    assert_eq!(
        control
            .request("analyst", Some("w"))
            .provider_pause_waiter
            .as_deref(),
        Some("w")
    );
}

fn reply(directive: ProviderPauseDirective, generation: i64) -> Option<ProviderPauseReply> {
    Some(ProviderPauseReply {
        directive,
        generation,
    })
}

#[test]
fn a_pause_is_registered_with_its_generation() {
    let mut control = control();
    assert_eq!(
        control.pause("w", reply(ProviderPauseDirective::Hold, 4)),
        ProviderPauseRegistration::Paused
    );
    assert_eq!(
        control.pause("v", reply(ProviderPauseDirective::Continue, 5)),
        ProviderPauseRegistration::Resumed
    );
    assert_eq!(
        control.pause("u", reply(ProviderPauseDirective::Stop, 6)),
        ProviderPauseRegistration::Stopped
    );
    let asked = control.acknowledgement("analyst", "w").unwrap();
    assert_eq!(asked.provider_pause_generation, 4);
    assert_eq!(asked.provider_pause_waiter, "w");
    assert_eq!(
        control
            .acknowledgement("analyst", "v")
            .unwrap()
            .provider_pause_generation,
        5
    );
}

#[test]
fn only_an_explicit_answer_ends_a_pause() {
    let mut control = control();
    control.pause("w", reply(ProviderPauseDirective::Hold, 4));
    for silent in [None, Some(ProviderPauseDirective::Hold)] {
        assert_eq!(
            control.acknowledge_provider_pause("w", 4, silent),
            ProviderPauseAcknowledgement::Unavailable
        );
        assert!(control.acknowledgement("analyst", "w").is_some());
        assert_eq!(control.known_provider_resume_generation(), None);
    }
    assert_eq!(
        control.acknowledge_provider_pause("w", 4, Some(ProviderPauseDirective::Continue)),
        ProviderPauseAcknowledgement::Continue
    );
    assert!(control.acknowledgement("analyst", "w").is_none());
    assert_eq!(control.known_provider_resume_generation(), Some(4));
    assert_eq!(
        control
            .request("analyst", None)
            .known_provider_resume_generation,
        Some(4)
    );
}

#[test]
fn an_older_acknowledgement_never_lowers_the_newest() {
    let mut control = control();
    control.pause("w", reply(ProviderPauseDirective::Hold, 9));
    control.pause("v", reply(ProviderPauseDirective::Hold, 3));
    control.acknowledge_provider_pause("w", 9, Some(ProviderPauseDirective::Stop));
    control.acknowledge_provider_pause("v", 3, Some(ProviderPauseDirective::Continue));
    assert_eq!(control.known_provider_resume_generation(), Some(9));
    control.acknowledge_provider_generation(12);
    assert_eq!(control.known_provider_resume_generation(), Some(12));
}

#[test]
fn a_paused_node_learns_its_generation_from_the_reply() {
    let mut control = control();
    control.remember_provider_pause("w", 1);
    let polled = control.poll_while_paused(
        "w",
        Some(ProviderControlReply {
            control: "hold",
            provider_pause_generation: Some(2),
        }),
    );
    assert!(matches!(polled, PausedPoll::Response("hold")));
    assert_eq!(
        control
            .acknowledgement("analyst", "w")
            .unwrap()
            .provider_pause_generation,
        2
    );
    let polled = control.poll_while_paused(
        "w",
        Some(ProviderControlReply {
            control: "go",
            provider_pause_generation: None,
        }),
    );
    assert!(matches!(polled, PausedPoll::Response("go")));
    assert_eq!(
        DashboardControl::poll(
            Some(ProviderControlReply {
                control: "stop",
                provider_pause_generation: None,
            }),
            "carry on"
        ),
        "stop"
    );
}
