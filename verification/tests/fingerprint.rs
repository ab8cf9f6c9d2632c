//! The fingerprint of the graph a run executes.

use ratatoskr_nodes::fingerprint::{arrange, graph_fingerprint_of, is_script, Part, Source};

fn source(path: &[&str], contents: Option<&str>) -> Source {
    let mut parts = vec![Part::Root];
    parts.extend(path.iter().map(|p| Part::Name(p.as_bytes().to_vec())));
    Source {
        path: parts,
        name: path.join("/").into_bytes(),
        contents: contents.map(|c| c.as_bytes().to_vec()),
    }
}

fn rule(name: &str, contents: &str) -> Source {
    source(&[".ratatoskr", "rules", name], Some(contents))
}

fn of(sources: Vec<Source>) -> String {
    graph_fingerprint_of("orchestration", "definitions", sources)
}

#[test]
fn the_graph_fingerprint_tracks_the_scripts_and_nothing_else() {
    let base = of(vec![rule("scout.ts", "a"), rule("analyst.ts", "b")]);
    assert_eq!(
        base,
        of(vec![rule("scout.ts", "a"), rule("analyst.ts", "b")]),
        "same inputs, same fingerprint"
    );
    // A file the fingerprint doesn't cover is never among them.
    assert!(!is_script(b"notes.md"));
    assert!(is_script(b"scout.ts"));
    assert!(!is_script(b".ts"));
    assert!(!is_script(b"scout.tsx"));

    // Editing a ruleset changes the graph.
    let edited = of(vec![rule("scout.ts", "a2"), rule("analyst.ts", "b")]);
    assert_ne!(base, edited);

    // So does adding one, even one whose contents match an existing file.
    assert_ne!(
        edited,
        of(vec![
            rule("scout.ts", "a2"),
            rule("analyst.ts", "b"),
            rule("redteam.ts", "a2")
        ])
    );

    // The definitions and the orchestration that ship with the program are part of the graph.
    let sources = || vec![rule("scout.ts", "a")];
    assert_ne!(
        graph_fingerprint_of("orchestration", "first", sources()),
        graph_fingerprint_of("orchestration", "second", sources())
    );
    assert_ne!(
        graph_fingerprint_of("first", "definitions", sources()),
        graph_fingerprint_of("second", "definitions", sources())
    );
    assert_ne!(
        graph_fingerprint_of("ab", "c", sources()),
        graph_fingerprint_of("b", "ca", sources())
    );
}

#[test]
fn the_graph_fingerprint_tells_an_absent_workflow_from_an_empty_one() {
    let workflow = |contents| source(&[".ratatoskr", "workflow.ts"], contents);
    let absent = of(vec![rule("scout.ts", "a"), workflow(None)]);
    let empty = of(vec![rule("scout.ts", "a"), workflow(Some(""))]);
    assert_ne!(absent, empty, "absent is not empty");
    assert_eq!(absent, of(vec![rule("scout.ts", "a"), workflow(None)]));
    assert_ne!(absent, of(vec![rule("scout.ts", "a2"), workflow(None)]));
    assert_eq!(absent.len(), 16);
    assert!(absent.chars().all(|c| matches!(c, '0'..='9' | 'a'..='f')));
}

#[test]
fn a_replaced_byte_shows_wherever_it_stands() {
    let text = "export default defineAgent({ model: 'm' });";
    let base = of(vec![rule("a.ts", "A"), rule("b.ts", text), rule("c.ts", "C")]);
    for at in 0..text.len() {
        let mut edited = text.as_bytes().to_vec();
        edited[at] ^= 1;
        let edited = String::from_utf8(edited).unwrap();
        let changed = of(vec![
            rule("a.ts", "A"),
            rule("b.ts", &edited),
            rule("c.ts", "C"),
        ]);
        assert_ne!(base, changed, "{at}");
    }
}

#[test]
fn the_graph_fingerprint_frames_each_input_it_folds() {
    // Two repositories whose paths and contents concatenate to one identical byte stream.
    let after = ".ratatoskr/rules/b.ts";
    let one = of(vec![
        rule("a.ts", "A"),
        rule("b.ts", &format!("B{after}C")),
    ]);
    let other = of(vec![
        rule("a.ts", &format!("A{after}B")),
        rule("b.ts", "C"),
    ]);
    assert_ne!(one, other, "re-partitioned bytes collide");
}

#[test]
fn the_order_files_are_listed_in_does_not_show() {
    let listed = of(vec![
        rule("b.ts", "2"),
        rule("a.ts", "1"),
        rule("b.ts", "2"),
    ]);
    assert_eq!(listed, of(vec![rule("a.ts", "1"), rule("b.ts", "2")]));
}

#[test]
fn paths_are_ordered_part_by_part() {
    // As bytes, `a-b` would come before `a/b`.
    let names: Vec<Vec<u8>> = arrange(vec![
        source(&["a-b"], None),
        source(&["a", "b"], None),
        source(&["a"], None),
        source(&["a", "b"], Some("later")),
    ])
    .into_iter()
    .map(|s| s.name)
    .collect();
    assert_eq!(
        names,
        [b"a".to_vec(), b"a/b".to_vec(), b"a-b".to_vec()]
    );
    let kinds = arrange(vec![
        Source {
            path: vec![Part::Name(b"x".to_vec())],
            name: b"x".to_vec(),
            contents: None,
        },
        Source {
            path: vec![Part::Parent],
            name: b"..".to_vec(),
            contents: None,
        },
        Source {
            path: vec![Part::Current],
            name: b".".to_vec(),
            contents: None,
        },
        Source {
            path: vec![Part::Root],
            name: b"/".to_vec(),
            contents: None,
        },
    ]);
    let names: Vec<&[u8]> = kinds.iter().map(|s| s.name.as_slice()).collect();
    assert_eq!(names, [&b"/"[..], &b"."[..], &b".."[..], &b"x"[..]]);
}

/// The same hash, written out: sixteen lower-case digits of FNV-1a over length-prefixed inputs.
#[test]
fn the_fingerprint_is_fnv_1a_over_framed_inputs() {
    let mut hash: u64 = 0xcbf2_9ce4_8422_2325;
    let mut fold = |bytes: &[u8]| {
        for byte in (bytes.len() as u64).to_le_bytes().iter().chain(bytes) {
            hash ^= u64::from(*byte);
            hash = hash.wrapping_mul(0x0000_0100_0000_01b3);
        }
    };
    fold(b"definitions");
    fold(b"orchestration");
    fold(b".ratatoskr/rules/a.ts");
    fold(&[1]);
    fold("é".as_bytes());
    assert_eq!(of(vec![rule("a.ts", "é")]), format!("{hash:016x}"));
}

fn at(repo: &str, path: &str) -> Source {
    Source::at(repo.as_bytes(), path.as_bytes(), None)
}

fn spelled(source: &Source) -> Vec<String> {
    source
        .path
        .iter()
        .map(|part| match part {
            Part::Root => "/".to_string(),
            Part::Current => ".".to_string(),
            Part::Parent => "..".to_string(),
            Part::Name(name) => String::from_utf8(name.clone()).unwrap(),
        })
        .collect()
}

#[test]
fn a_file_is_called_by_its_path_within_the_repository() {
    for (repo, path, name) in [
        ("/srv/repo", "/srv/repo/.ratatoskr/workflow.ts", ".ratatoskr/workflow.ts"),
        ("/srv/repo/", "/srv//repo/a.ts", "a.ts"),
        ("/srv/repo", "/srv/repo", ""),
        ("/srv/repo", "/srv/repo/x/./y//z.ts/", "x/./y//z.ts"),
        ("/srv/repo", "/srv/repo/../prompt.md", "../prompt.md"),
        // A name that merely begins like the repository's is outside it.
        ("/srv/repo", "/srv/repository/a.ts", "/srv/repository/a.ts"),
        ("/srv/repo", "rules/a.ts", "rules/a.ts"),
        (".", "./rules/a.ts", "rules/a.ts"),
        ("", "rules/a.ts/", "rules/a.ts"),
        ("", "/a/", "/a"),
    ] {
        let source = at(repo, path);
        assert_eq!(source.name, name.as_bytes(), "{repo} {path}");
        // As std reads the same two.
        let (base, whole) = (std::path::Path::new(repo), std::path::Path::new(path));
        let rest = whole.strip_prefix(base).unwrap_or(whole);
        assert_eq!(rest.as_os_str().as_encoded_bytes(), name.as_bytes());
        let parts: Vec<String> = whole
            .components()
            .map(|c| c.as_os_str().to_str().unwrap().to_string())
            .collect();
        assert_eq!(spelled(&source), parts, "{path}");
    }
}

#[test]
fn where_the_checkout_is_does_not_show() {
    let taken = |repo: &str| {
        of(["rules/b.ts", "rules/a.ts", "workflow.ts"]
            .iter()
            .map(|file| {
                let path = format!("{repo}/.ratatoskr/{file}");
                Source::at(repo.as_bytes(), path.as_bytes(), Some(file.as_bytes().to_vec()))
            })
            .collect())
    };
    assert_eq!(taken("/srv/repo"), taken("/home/someone/a checkout"));
    assert_eq!(taken("/srv/repo"), taken("/srv/repo/"));
    assert_eq!(taken("/srv/repo"), taken("."));
}
