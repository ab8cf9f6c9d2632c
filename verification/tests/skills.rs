//! The skills a node's plugins bind: which are offered, how they are listed, what loads.

use ratatoskr_nodes::preamble::effective_preamble;
use ratatoskr_nodes::skills::{deduped, listing, loaded, shadowed, skill_tool, Skill};

fn skill(name: &str, description: &str) -> Skill {
    Skill {
        name: name.to_string(),
        description: description.to_string(),
        body: format!("do {name} in ${{CLAUDE_SKILL_DIR}}"),
        dir: format!("/plugins/{name}"),
    }
}

/// Six skills with descriptions of about a thousand characters each. No description contains a
/// skill's own name, so names can be counted in a listing without matching one.
fn six_skills() -> Vec<Skill> {
    ["alpha", "bravo", "charlie", "delta", "echo", "foxtrot"]
        .into_iter()
        .map(|name| {
            skill(
                name,
                &format!("when this one applies: {}", "x".repeat(1000)),
            )
        })
        .collect()
}

#[test]
fn nothing_bound_means_no_tool_at_all() {
    assert!(skill_tool(&[]).is_none());
    assert!(listing(&[]).is_none());
    assert!(loaded(&[]).is_empty());
}

#[test]
fn a_skill_body_can_address_its_own_directory() {
    let loaded = loaded(&[skill("demo", "d")]);
    assert_eq!(loaded[0].body, "do demo in /plugins/demo");
}

#[test]
fn a_duplicate_name_warning_names_the_node() {
    let skills = [
        skill("shared", "from the first"),
        skill("shared", "from the second"),
    ];
    assert_eq!(deduped(&skills).len(), 1);
    // Every binding that was dropped is reported by its name, for the node to be named beside it.
    assert_eq!(shadowed(&skills), ["shared"]);
}

#[test]
fn a_duplicate_name_warning_survives_an_empty_node_field() {
    let skills = [
        skill("shared", "from the first"),
        skill("shared", "from the second"),
        skill("shared", "from the third"),
    ];
    assert_eq!(shadowed(&skills), ["shared", "shared"]);
    assert!(shadowed(&[skill("alone", "d")]).is_empty());
}

#[test]
fn the_schema_is_constant_however_many_skills_are_bound() {
    let one = [skill("alpha", "when alpha is wanted")];
    let many = six_skills();
    let one_tool = skill_tool(&one).expect("a tool for one skill");
    let many_tool = skill_tool(&many).expect("a tool for six skills");

    let one_schema: serde_json::Value = serde_json::from_str(one_tool.input_schema).unwrap();
    let many_schema: serde_json::Value = serde_json::from_str(many_tool.input_schema).unwrap();
    assert_eq!(
        one_schema, many_schema,
        "the schema must not grow with the skills bound"
    );
    // A free-form name, not an enum: the choice is resolved at call time.
    assert_eq!(many_schema["type"], "object");
    assert_eq!(many_schema["properties"]["skill"]["type"], "string");
    assert!(
        many_schema["properties"]["skill"].get("enum").is_none(),
        "no per-skill enum: {many_schema}"
    );
    assert_eq!(
        many_schema["required"],
        serde_json::Value::from(vec!["skill"])
    );
    // And nothing per-skill outside the schema either.
    assert_eq!(one_tool.description, many_tool.description);
}

#[test]
fn the_tool_description_names_no_individual_skill() {
    let many = six_skills();
    let tool = skill_tool(&many).expect("a tool");
    for s in &many {
        assert!(
            !tool.description.contains(&s.name),
            "the description must not list {}: {}",
            s.name,
            tool.description
        );
        assert!(
            !tool.description.contains(&s.description),
            "the description must not describe {}",
            s.name
        );
        assert!(
            !tool.input_schema.contains(&s.name),
            "the schema must not name {}: {}",
            s.name,
            tool.input_schema
        );
    }
}

#[test]
fn a_duplicate_name_still_offers_the_tool_and_warns_for_the_node() {
    // Two plugins shipping one name narrows the listing; it must not cost the node the tool.
    let skills = [
        skill("shared", "from the first"),
        skill("shared", "from the second"),
    ];
    assert!(skill_tool(&skills).is_some(), "the tool is still offered");
    assert_eq!(shadowed(&skills), ["shared"]);
}

#[test]
fn a_plugin_with_six_skills_has_all_six_loadable_in_binding_order() {
    let skills = six_skills();
    let loaded = loaded(&skills);
    let names: Vec<&str> = loaded.iter().map(|s| s.name.as_str()).collect();
    assert_eq!(
        names,
        ["alpha", "bravo", "charlie", "delta", "echo", "foxtrot"]
    );
    assert_eq!(loaded[0].body, "do alpha in /plugins/alpha");
}

#[test]
fn a_duplicate_name_loads_the_first_binding_once_and_warns_for_the_node() {
    // Distinct directories, so which binding wins is observable in the resolved body.
    let mut first = skill("shared", "from the first");
    first.dir = "/plugins/first".to_string();
    let mut second = skill("shared", "from the second");
    second.dir = "/plugins/second".to_string();
    let skills = [first, second];
    let loaded = loaded(&skills);
    assert_eq!(loaded.len(), 1, "one entry, not one per binding");
    assert_eq!(
        loaded[0].body, "do shared in /plugins/first",
        "the first binding wins"
    );
    assert_eq!(shadowed(&skills), ["shared"]);
}

#[test]
fn the_preamble_listing_and_the_loadable_set_are_always_the_same() {
    let mut skills = six_skills();
    skills.push(skill("alpha", "a second binding of alpha"));
    let loaded_names: Vec<String> = loaded(&skills).into_iter().map(|s| s.name).collect();
    assert_eq!(
        loaded_names
            .iter()
            .filter(|n| n.as_str() == "alpha")
            .count(),
        1,
        "deduped, like the listing"
    );

    let preamble = effective_preamble("base", None, None, &skills);
    let listing = preamble
        .split("Available skills:")
        .nth(1)
        .expect("a skills listing in the preamble");
    for name in &loaded_names {
        assert!(
            listing.contains(name.as_str()),
            "loadable but not listed: {name}"
        );
    }
    // And nothing listed twice: the duplicate binding appears once, as it loads once.
    assert_eq!(
        listing.matches("alpha").count(),
        1,
        "listed once, as it loads once: {listing}"
    );
}

#[test]
fn listing_a_long_description_in_the_preamble_warns_nothing_about_a_budget() {
    let description = format!("when the {} case applies", "very long ".repeat(500));
    let skills = [skill("verbose", &description)];
    let preamble = effective_preamble("base", None, None, &skills);
    assert!(
        preamble.contains(&description),
        "listed in full, not dropped to fit a budget"
    );
    assert!(shadowed(&skills).is_empty());
}
