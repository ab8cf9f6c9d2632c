//! What a run's commit says.

use ratatoskr_nodes::commit::{commit_message, subject_parts, wrapped};
use ratatoskr_nodes::implementer::{AcceptanceResult, ImplementerOutput};

fn change() -> ImplementerOutput {
    ImplementerOutput {
        acceptance: None,
        worktree_path: "/w".into(),
        branch: "ratatoskr/abc12345".into(),
        diff_summary: " crates/a.rs | 72 ++++++\n 1 file changed, 72 insertions(+)".into(),
        touched_files: vec!["crates/a.rs".into()],
        rewritten_files: Vec::new(),
        narrative: Some(
            "Fenced the acceptance output and bounded it across steps rather than per step, so \
             one pathological step cannot fill the prompt on its own."
                .into(),
        ),
        commit_kind: "fix".into(),
        commit_scope: "nodes".into(),
        commit_subject: "fence and bound acceptance output".into(),
    }
}

/// The subject as a repository with a conventional history renders it.
fn rendered(issue: &str, out: &ImplementerOutput) -> String {
    let parts = subject_parts(issue, out);
    format!("{}({}): {}", parts.kind, parts.scope, parts.subject)
}

fn says_why(out: ImplementerOutput) {
    let msg = commit_message(&rendered("an issue", &out), &out);

    let (subject, body) = msg.split_once("\n\n").expect("a subject and a body");
    assert_eq!(subject, "fix(nodes): fence and bound acceptance output");
    assert!(body.contains("bounded it across steps"), "{body}");
    assert!(
        !body.contains("insertions(+)"),
        "the diffstat is gone: {body}"
    );
    // Wrapped here rather than asked of the model, which counts characters unreliably.
    for line in body.lines() {
        assert!(line.chars().count() <= 72, "{line:?}");
    }

    // An implementer that reported nothing still commits, and gets a subject with no body rather
    // than a body saying nothing.
    let silent = ImplementerOutput {
        narrative: None,
        ..out
    };
    let msg = commit_message(&rendered("an issue", &silent), &silent);
    assert!(!msg.contains("\n\n"), "{msg}");
}

fn keeps_lists_and_identifiers() {
    // Reflowing a bullet list into a paragraph loses the structure that made it readable, and a
    // path broken across lines is a path nobody can copy.
    let text = "- the first item, which runs on well past the seventy-two column mark and then \
                some more\n- second";
    assert_eq!(wrapped(text), text, "a list is left alone");

    let long = "see crates/ratatoskr-nodes/src/a-very-long-path-that-is-longer-than-the-whole-\
                permitted-width.rs now";
    let out = wrapped(long);
    assert!(
        out.lines().any(
            |l| l.contains("a-very-long-path-that-is-longer-than-the-whole-permitted-width.rs")
        ),
        "the path survives whole: {out}"
    );
}

#[test]
fn commit_a_commit_body_says_why_rather_than_repeating_the_diffstat() {
    says_why(change());
}

#[test]
fn lib_a_commit_body_says_why_rather_than_repeating_the_diffstat() {
    says_why(ImplementerOutput {
        acceptance: Some(AcceptanceResult {
            failing_tests: Vec::new(),
            passed_tests: 0,
            exit_code: 0,
        }),
        ..change()
    });
}

#[test]
fn commit_wrapping_keeps_a_list_a_list_and_never_splits_an_identifier() {
    keeps_lists_and_identifiers();
}

#[test]
fn lib_wrapping_keeps_a_list_a_list_and_never_splits_an_identifier() {
    keeps_lists_and_identifiers();
}

#[test]
fn wrapping_breaks_prose_at_the_width_and_keeps_every_word() {
    let prose = "one two three four five six seven eight nine ten eleven twelve thirteen fourteen fifteen";
    assert_eq!(
        wrapped(prose),
        "one two three four five six seven eight nine ten eleven twelve thirteen\nfourteen fifteen"
    );
    assert_eq!(wrapped("a  b"), "a  b", "a line that fits is left alone");
    assert_eq!(wrapped("first\n\nsecond"), "first\n\nsecond");
}

#[test]
fn a_change_without_a_subject_is_named_after_its_issue() {
    let out = ImplementerOutput {
        commit_subject: "  ".into(),
        ..change()
    };
    let parts = subject_parts("\nmake the scrubber sticky\nmore", &out);
    assert_eq!(parts.subject, "make the scrubber sticky");
}
