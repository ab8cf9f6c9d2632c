//! What a node is told before anything else.

use ratatoskr_nodes::preamble::{
    effective_preamble, effective_preamble_with_profile, repo_conventions, with_conventions,
    CONVENTIONS_BUDGET,
};
use ratatoskr_nodes::skills::Skill;

/// A skill ready to bind, as the plugin loader hands them out.
fn bound_skill(name: &str, description: &str) -> Skill {
    Skill {
        name: name.to_string(),
        description: description.to_string(),
        body: format!("do {name} in ${{CLAUDE_SKILL_DIR}}"),
        dir: format!("/plugins/{name}"),
    }
}

#[test]
fn agent_profile_guidance_precedes_the_stage_preamble() {
    assert_eq!(
        effective_preamble_with_profile("stage", "profile", None, None, &[]),
        "profile\n\nstage"
    );
    assert_eq!(
        effective_preamble_with_profile("stage", "profile", Some("override"), None, &[]),
        "profile\n\noverride"
    );
}

#[test]
fn plugin_context_prefixes_whichever_preamble_applies() {
    assert_eq!(effective_preamble("built-in", None, None, &[]), "built-in");
    assert_eq!(
        effective_preamble("built-in", Some("override"), None, &[]),
        "override"
    );
    assert_eq!(
        effective_preamble("built-in", None, Some("digest"), &[]),
        "digest\n\nbuilt-in"
    );
    assert_eq!(
        effective_preamble("built-in", Some("override"), Some("digest"), &[]),
        "digest\n\noverride"
    );
}

#[test]
fn the_preamble_lists_every_bound_skill_whichever_base_applies() {
    let skills = [
        bound_skill("dream-review", "when triaging findings"),
        bound_skill("using-rag-rat", "when navigating the repository"),
    ];
    let preamble = effective_preamble("base", None, None, &skills);
    assert!(preamble.contains("base"), "{preamble}");
    assert!(
        preamble.contains("Available skills:"),
        "the listing lives in the preamble: {preamble}"
    );
    for s in &skills {
        assert!(preamble.contains(&s.name), "missing {}: {preamble}", s.name);
        assert!(
            preamble.contains(&s.description),
            "missing the description of {}: {preamble}",
            s.name
        );
    }
}

#[test]
fn a_ruleset_preamble_override_cannot_disenfranchise_a_bound_skill() {
    let skills = [
        bound_skill("dream-review", "when triaging findings"),
        bound_skill("using-rag-rat", "when navigating the repository"),
    ];
    let preamble = effective_preamble("built-in", Some("override"), Some("digest"), &skills);
    assert!(preamble.contains("digest"), "{preamble}");
    assert!(preamble.contains("override"), "{preamble}");
    for s in &skills {
        assert!(
            preamble.contains(&s.name),
            "overriding the preamble dropped {}: {preamble}",
            s.name
        );
        assert!(
            preamble.contains(&s.description),
            "overriding the preamble dropped the description of {}: {preamble}",
            s.name
        );
    }
}

#[test]
fn no_skills_bound_leaves_the_preamble_byte_identical() {
    assert_eq!(effective_preamble("built-in", None, None, &[]), "built-in");
    assert_eq!(
        effective_preamble("built-in", Some("override"), None, &[]),
        "override"
    );
    assert_eq!(
        effective_preamble("built-in", None, Some("digest"), &[]),
        "digest\n\nbuilt-in"
    );
    assert_eq!(
        effective_preamble("built-in", Some("override"), Some("digest"), &[]),
        "digest\n\noverride"
    );
}

#[test]
fn a_long_skill_description_is_listed_in_full_in_the_preamble() {
    let description = format!("when the {} case applies", "very long ".repeat(500));
    let skills = [bound_skill("verbose", &description)];
    let preamble = effective_preamble("base", None, None, &skills);
    assert!(
        preamble.contains(&description),
        "the whole description is listed, not dropped to fit a budget"
    );
}

#[test]
fn agents_md_at_the_root_is_read() {
    let conventions = "# Conventions\nParameter structs over long argument trains.\n";
    let got = repo_conventions(Some(conventions), None).expect("the file is present");
    assert_eq!(got, conventions);
    assert!(!got.is_empty());
}

#[test]
fn claude_md_is_the_honoured_alternative_name() {
    let conventions = "# Conventions\nInjected time and ids.\n";
    assert_eq!(
        repo_conventions(None, Some(conventions)).as_deref(),
        Some(conventions)
    );
}

#[test]
fn a_claude_symlink_to_agents_is_read_once_not_duplicated() {
    let conventions = "# Conventions\nClosed enums behind stable string tokens.\n";
    assert_eq!(
        repo_conventions(Some(conventions), Some(conventions)).as_deref(),
        Some(conventions)
    );
}

#[test]
fn neither_file_present_yields_none() {
    assert_eq!(repo_conventions(None, None), None);
}

#[test]
fn a_file_larger_than_the_bound_is_truncated_not_dropped() {
    let huge = "x".repeat(1_000_000);
    let got = repo_conventions(Some(&huge), None).expect("a huge file is still injected, bounded");
    assert!(!got.is_empty());
    assert!(
        got.len() < huge.len(),
        "a file past the bound is truncated, not injected whole: {} vs {}",
        got.len(),
        huge.len()
    );
    // Cut between two characters, never through one.
    let wide = "é".repeat(CONVENTIONS_BUDGET);
    let got = repo_conventions(Some(&wide), None).unwrap();
    assert_eq!(got.len(), CONVENTIONS_BUDGET);
    let odd = format!("x{}", "é".repeat(CONVENTIONS_BUDGET));
    assert_eq!(
        repo_conventions(Some(&odd), None).unwrap().len(),
        CONVENTIONS_BUDGET - 1
    );
}

#[test]
fn conventions_are_loaded_when_present_and_reach_only_the_writing_nodes() {
    // No conventions file: a writing node's preamble is byte-identical to the plain composition.
    assert_eq!(repo_conventions(None, None), None);
    let plain = effective_preamble("be careful", None, None, &[]);
    assert_eq!(
        with_conventions(None, plain.clone()),
        plain,
        "no conventions must leave the preamble untouched"
    );

    // Present: bounded, and a writing node carries it while a non-writing node does not.
    let conv = repo_conventions(Some("# House rules\nUse parameter structs.\n"), None)
        .expect("the conventions are loaded");
    assert!(conv.contains("Use parameter structs"));
    assert!(!conv.is_empty() && conv.len() <= CONVENTIONS_BUDGET);

    let writer = with_conventions(Some(&conv), plain.clone());
    assert!(writer.contains("Use parameter structs"), "writer gets them");
    assert!(writer.contains(&plain));
    assert!(
        !plain.contains("Use parameter structs"),
        "non-writing preamble stays free of conventions"
    );

    // The alternative name is honoured when the first is absent.
    assert_eq!(
        repo_conventions(None, Some("from the other\n")).as_deref(),
        Some("from the other\n")
    );

    // Over budget: clipped to the bound, not silently past it.
    let big = "x".repeat(CONVENTIONS_BUDGET * 2);
    let clipped = repo_conventions(Some(&big), None).unwrap();
    assert_eq!(clipped.len(), CONVENTIONS_BUDGET);
}
