//! Filling in an issue that was only referred to.

use ratatoskr_nodes::issue::{enriched, fetched, fetched_read, Fetched};

fn held(title: &str, body: &str) -> Fetched {
    Fetched {
        title: title.into(),
        body: body.into(),
    }
}

#[test]
fn a_task_naming_no_issue_is_left_alone() {
    let task = "make the scrubber sticky";
    assert_eq!(enriched(task, None, None), task);
    assert_eq!(enriched(task, None, Some(held("t", "b"))), task);
}

#[test]
fn an_unreachable_tracker_leaves_the_run_its_task() {
    let task = "Issue #143: move the skill listing out of the tool schema";
    let nothing = fetched(false, b"{\"title\":\"t\",\"body\":\"b\"}");
    assert!(nothing.is_none());
    assert_eq!(enriched(task, Some("143"), nothing), task);
}

#[test]
fn a_body_that_is_missing_is_appended_once() {
    let task = "Issue #143: move it";
    let printed = b"{\"title\":\"Move it\",\"body\":\"\\nBecause of two paragraphs.\\n\"}";
    let full = enriched(task, Some("143"), fetched(true, printed));
    assert_eq!(
        full,
        "Issue #143: move it\n\n--- issue #143 as the tracker holds it ---\n\nMove it\n\n\nBecause \
         of two paragraphs.\n"
    );
    assert_eq!(enriched(&full, Some("143"), fetched(true, printed)), full);
    // A body that says nothing adds nothing.
    assert_eq!(
        enriched(task, Some("143"), Some(held("Move it", " \n"))),
        task
    );
}

#[test]
fn half_an_issue_is_none() {
    assert!(fetched(true, b"{\"title\":\"t\"}").is_none());
    assert!(fetched(true, b"{\"title\":\"t\",\"body\":null}").is_none());
    assert!(fetched(true, b"\xff\xfe").is_none());
    assert!(fetched_read(Ok(Some(Some("t".into()))), Err("eof".into())).is_none());
    let whole = fetched_read(
        Ok(Some(Some("t".into()))),
        Ok(Some(Some("b".into()))),
    )
    .unwrap();
    assert_eq!(whole.title, "t");
    assert_eq!(whole.body, "b");
}
