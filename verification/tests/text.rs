//! The text, name, tool and error building blocks.

use ratatoskr_nodes::config::{Capability, ModelRoute, RatatoskrConfig};
use ratatoskr_nodes::config::{ImplementerConfig, PluginsConfig, PublishConfig};
use ratatoskr_nodes::error::{failed_doing, NodeError, PlanError};
use ratatoskr_nodes::names::{are_distinct, is_before, sort};
use ratatoskr_nodes::text::{
    bytes_in, clip, floor_char_boundary, has, is_blank, join, lower, number, replace,
    same_ignoring_case, signed_number, split_lines, starts_with, trim,
};
use ratatoskr_nodes::tools::ToolSet;

fn v(xs: &[&str]) -> Vec<String> {
    xs.iter().map(|s| s.to_string()).collect()
}

#[test]
fn text_operations_agree_with_the_standard_library() {
    for s in [
        "",
        " ",
        "a",
        " a b ",
        "\u{a0}\u{2003}x\u{3000}",
        "a\r\nb\n\nc",
        "é\tΩ",
        "line\n",
        "\r\n",
        "ABC äÖ",
    ] {
        assert_eq!(trim(s), s.trim(), "{s:?}");
        assert_eq!(is_blank(s), s.trim().is_empty(), "{s:?}");
        assert_eq!(split_lines(s), s.lines().collect::<Vec<_>>(), "{s:?}");
        assert_eq!(lower(s), s.to_ascii_lowercase(), "{s:?}");
        assert_eq!(bytes_in(s), s.len(), "{s:?}");
        assert_eq!(has(s, "b"), s.contains("b"), "{s:?}");
        assert_eq!(starts_with(s, "a"), s.starts_with("a"), "{s:?}");
        assert_eq!(replace(s, "b", "xx"), s.replace("b", "xx"), "{s:?}");
    }
    assert_eq!(replace("aaaa", "aa", "b"), "aaaa".replace("aa", "b"));
    assert_eq!(number(0), "0");
    assert_eq!(number(u64::MAX), u64::MAX.to_string());
    assert_eq!(signed_number(i64::MIN), i64::MIN.to_string());
    assert_eq!(signed_number(-7), "-7");
    assert_eq!(join(&v(&["a", "b"]), ", "), "a, b");
    assert_eq!(join(&[], ", "), "");
    assert!(same_ignoring_case("FFIBoundary", "ffiboundary"));
    assert!(!same_ignoring_case("Ö", "ö"));
}

#[test]
fn a_text_is_cut_between_two_characters() {
    assert_eq!(clip("aéb", 2), "a");
    assert_eq!(clip("aéb", 3), "aé");
    assert_eq!(clip("aéb", 9), "aéb");
    assert_eq!(floor_char_boundary("aéb", 2), 1);
    assert_eq!(floor_char_boundary("", 5), 0);
}

#[test]
fn names_are_sorted_each_once() {
    assert_eq!(sort(&v(&["b", "a", "b", "aa"])), ["a", "aa", "b"]);
    assert!(is_before("a", "aa"));
    assert!(!is_before("b", "aa"));
    assert!(are_distinct(&v(&["a", "b"])));
    assert!(!are_distinct(&v(&["a", "b", "a"])));
}

#[test]
fn tools_are_narrowed_to_what_is_allowed_and_not_denied() {
    let mut tools = ToolSet::new();
    tools.add_local("Read", Capability::Read);
    tools.add_local("Write", Capability::Write);
    tools.add_local("Bash", Capability::Write);
    assert_eq!(tools.capability("Write"), Capability::Write);
    let left = tools.narrow(&v(&["Bash", "Read", "Ghost"]), &v(&["Bash"]));
    assert_eq!(left.names(), ["Read"]);
}

#[test]
fn errors_say_what_failed() {
    assert_eq!(
        failed_doing("context input", "bad key").message(),
        "context input: bad key"
    );
    assert_eq!(
        NodeError::InvalidOutput("no brief".into()).message(),
        "output failed schema validation: no brief"
    );
    let says = |error: PlanError| error.message();
    assert_eq!(
        says(PlanError::Node {
            node: "analyst",
            source: NodeError::Failed("no route".into())
        }),
        "node `analyst` failed: no route"
    );
    assert_eq!(says(PlanError::Store("locked".into())), "store error: locked");
    assert_eq!(
        says(PlanError::Serialize("bad key".into())),
        "serialization error: bad key"
    );
    assert_eq!(
        says(PlanError::Configuration("no".into())),
        "configuration error: no"
    );
    assert_eq!(
        says(PlanError::MissingRoute("ask".into())),
        "no model route `ask` in config — add a [models.ask] entry"
    );
    assert_eq!(
        says(PlanError::MissingCheckpoint("r1".into(), "analyst")),
        "run r1 has no `analyst` checkpoint — not a converged run?"
    );
}

#[test]
fn a_route_is_set_replaced_and_removed() {
    let mut config = RatatoskrConfig {
        models: Vec::new(),
        agents: Vec::new(),
        implementer: ImplementerConfig {
            always_fork: false,
            verify_threshold: "P2".into(),
        },
        publish: PublishConfig {
            enabled: false,
            committer_name: "ratatoskr".into(),
            committer_email: "ratatoskr@localhost".into(),
        },
        plugins: PluginsConfig {
            skills_deny: Vec::new(),
        },
    };
    config.set_model("analyst", ModelRoute::named("p", "one"));
    config.set_model("analyst", ModelRoute::named("p", "two"));
    assert_eq!(config.models.len(), 1);
    assert_eq!(config.model("analyst").unwrap().model, "two");
    config.remove_model("analyst");
    assert!(config.model("analyst").is_none());
}
