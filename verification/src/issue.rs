//! Filling in the issue a run was only given a reference to.
//!
//! A run's task often arrives as a title and a number, because that is what a person types. The body
//! is where the issue does its work: the design it argues for, the alternative it rejects, and the
//! acceptance it will be judged against. Without it a run plans from a title.
//!
//! Best-effort, like every other thing reached outside the run: no tracker, no network, an issue that
//! does not exist — the run proceeds with exactly the text it was given.

use vstd::prelude::*;
use vstd::string::StringExecFns;

use crate::json;
use crate::text;

verus! {

broadcast use vstd::string::group_string_axioms;

/// How long reading the tracker may take, in seconds. A run should not be held at the starting line
/// by a slow one.
pub const FETCH_TIMEOUT_SECONDS: u64 = 20;

/// What the tracker holds for one issue.
#[derive(Clone, Debug)]
pub struct Fetched {
    pub title: String,
    pub body: String,
}

/// What was read of an issue: both its title and its body, as strings, or nothing.
pub open spec fn both(
    title: Result<Option<Option<Seq<char>>>, Seq<char>>,
    body: Result<Option<Option<Seq<char>>>, Seq<char>>,
    fetched: Option<Fetched>,
) -> bool {
    match (title, body) {
        (Ok(Some(Some(title))), Ok(Some(Some(body)))) => fetched matches Some(issue) && issue.title@
            == title && issue.body@ == body,
        _ => fetched is None,
    }
}

/// An issue, from what was read of its title and its body.
pub fn fetched_read(
    title: Result<Option<Option<String>>, String>,
    body: Result<Option<Option<String>>, String>,
) -> (r: Option<Fetched>)
    ensures
        both(json::found(title), json::found(body), r),
{
    match (title, body) {
        (Ok(Some(Some(title))), Ok(Some(Some(body)))) => Some(Fetched { title, body }),
        _ => None,
    }
}

/// An issue, from the JSON the tracker printed. Every failure is the same answer: none.
pub fn fetched(succeeded: bool, printed: &[u8]) -> (r: Option<Fetched>)
    ensures
        if succeeded {
            both(
                json::json_in_bytes_at(printed@, "/title"@),
                json::json_in_bytes_at(printed@, "/body"@),
                r,
            )
        } else {
            r is None
        },
{
    if !succeeded {
        return None;
    }
    fetched_read(json::read_bytes_at(printed, "/title"), json::read_bytes_at(printed, "/body"))
}

/// Whether what the tracker holds adds anything: it has a body, and the task does not carry it
/// already. A copy would invite a model to treat the two as two sources.
pub open spec fn adds(issue: Seq<char>, fetched: Fetched) -> bool {
    !text::blank(fetched.body@) && !text::occurs(issue, text::trimmed(fetched.body@))
}

/// The run's task, filled in.
pub open spec fn filled(issue: Seq<char>, number: Seq<char>, fetched: Fetched) -> Seq<char> {
    issue + "\n\n--- issue #"@ + number + " as the tracker holds it ---\n\n"@ + fetched.title@
        + "\n\n"@ + fetched.body@
}

/// The run's task, with the referenced issue's title and body appended when they are missing. The
/// task unchanged when it names no issue, when it already carries the body, or when the tracker gave
/// nothing.
pub fn enriched(issue: &str, number: Option<&str>, fetched: Option<Fetched>) -> (r: String)
    ensures
        r@ == match (number, fetched) {
            (Some(number), Some(held)) if adds(issue@, held) => filled(issue@, number@, held),
            _ => issue@,
        },
{
    let (number, held) = match (number, fetched) {
        (Some(number), Some(held)) => (number, held),
        _ => return issue.to_owned(),
    };
    if text::is_blank(held.body.as_str()) || text::has(
        issue,
        text::trim(held.body.as_str()).as_str(),
    ) {
        return issue.to_owned();
    }
    let mut full = issue.to_owned();
    full.append("\n\n--- issue #");
    full.append(number);
    full.append(" as the tracker holds it ---\n\n");
    full.append(held.title.as_str());
    full.append("\n\n");
    full.append(held.body.as_str());
    full
}

/// Filling in a task that was filled in already leaves it as it is: the body is handed over once.
pub proof fn filling_in_twice_adds_nothing(issue: Seq<char>, number: Seq<char>, fetched: Fetched)
    requires
        adds(issue, fetched),
    ensures
        !adds(filled(issue, number, fetched), fetched),
{
    let full = filled(issue, number, fetched);
    let before = issue + "\n\n--- issue #"@ + number + " as the tracker holds it ---\n\n"@
        + fetched.title@ + "\n\n"@;
    let body = fetched.body@;
    let core = text::trimmed(body);
    let start = text::trimmed_start(body);
    let lead = body.len() - start.len();
    trimmed_start_is_a_suffix(body);
    trimmed_end_is_a_prefix(start);
    assert(full.skip(before.len() as int) =~= body);
    assert(full.skip(before.len() + lead) =~= body.skip(lead));
    assert(core.is_prefix_of(full.skip(before.len() + lead)));
}

proof fn trimmed_start_is_a_suffix(s: Seq<char>)
    ensures
        text::trimmed_start(s).len() <= s.len(),
        text::trimmed_start(s) == s.skip(s.len() - text::trimmed_start(s).len()),
    decreases s.len(),
{
    if s.len() > 0 && text::whitespace(s[0]) {
        trimmed_start_is_a_suffix(s.drop_first());
        let rest = text::trimmed_start(s.drop_first());
        assert(s.drop_first().skip(s.drop_first().len() - rest.len()) =~= s.skip(
            s.len() - rest.len(),
        ));
    } else {
        assert(s.skip(0) =~= s);
    }
}

proof fn trimmed_end_is_a_prefix(s: Seq<char>)
    ensures
        text::trimmed_end(s).is_prefix_of(s),
    decreases s.len(),
{
    if s.len() > 0 && text::whitespace(s.last()) {
        trimmed_end_is_a_prefix(s.drop_last());
    }
}

/// What the tracker holds adds something exactly when its body is not blank and stands, without the
/// space around it, nowhere in the task.
pub proof fn a_body_adds_where_the_task_lacks_it(issue: Seq<char>, fetched: Fetched)
    ensures
        adds(issue, fetched) <==> (exists|i: int|
            0 <= i < fetched.body@.len() && !text::whitespace(#[trigger] fetched.body@[i])) && forall|
            i: int,
        |
            0 <= i <= issue.len() ==> !text::trimmed(fetched.body@).is_prefix_of(
                #[trigger] issue.skip(i),
            ),
{
    text::blank_means_all_whitespace(fetched.body@);
}

/// A task that is filled in is the task, a line that says which issue this is, the issue's title, and
/// its whole body.
pub proof fn a_filled_task_is_the_task_and_the_issue(
    issue: Seq<char>,
    number: Seq<char>,
    fetched: Fetched,
)
    ensures
        filled(issue, number, fetched) == issue + "\n\n--- issue #"@ + number
            + " as the tracker holds it ---\n\n"@ + fetched.title@ + "\n\n"@ + fetched.body@,
        issue.is_prefix_of(filled(issue, number, fetched)),
{
    assert(filled(issue, number, fetched).subrange(0, issue.len() as int) =~= issue);
}

/// An issue was read exactly where both its title and its body were, each as a string.
pub proof fn an_issue_has_a_title_and_a_body(
    title: Result<Option<Option<Seq<char>>>, Seq<char>>,
    body: Result<Option<Option<Seq<char>>>, Seq<char>>,
    fetched: Option<Fetched>,
)
    requires
        both(title, body, fetched),
    ensures
        ({
            let titled = title is Ok && title->Ok_0 is Some && title->Ok_0->0 is Some;
            let bodied = body is Ok && body->Ok_0 is Some && body->Ok_0->0 is Some;
            &&& fetched is Some <==> titled && bodied
            &&& fetched is Some ==> fetched->0.title@ == title->Ok_0->0->0 && fetched->0.body@
                == body->Ok_0->0->0
        }),
{
}

} // verus!
