//! Referee: judge whether a change weakened the checks that decide whether it is done.
//!
//! A read-only model judgement over the hunks that removed or replaced existing lines, made before
//! the acceptance result is trusted.

use vstd::prelude::*;
use vstd::string::StringExecFns;

use crate::config::Capability;
use crate::config::ModelRoute;
use crate::config::RatatoskrConfig;
use crate::converge;
use crate::error::NodeError;
use crate::error::PlanError;
use crate::routes;
use crate::routes::ScriptEngine;
use crate::stage::Stage;
use crate::text;
use crate::tools::ToolSet;
use crate::tools::ToolView;

verus! {

broadcast use vstd::string::group_string_axioms;

/// The only tools the referee receives: enough to confirm a removed check still exists after a
/// relocation, without any way to change the worktree or run commands.
pub const REFEREE_TOOLS: [&'static str; 3] = ["Read", "Grep", "Glob"];

/// A change that weakens the check deciding whether the task is done.
#[derive(Clone, Debug)]
pub struct Violation {
    pub file: String,
    pub reason: String,
}

/// The referee's judgement. An empty list means the diff did not weaken the bar, including when a
/// removed check was confirmed to have moved elsewhere in the worktree.
#[derive(Clone, Debug)]
pub struct RefereeOutput {
    pub violations: Vec<Violation>,
}

/// What the referee reads. `hunks` contains only files where existing lines were removed or
/// replaced; additions alone never need a judgement.
#[derive(Clone, Debug)]
pub struct RefereeInput {
    pub issue: String,
    pub requirements: Vec<String>,
    pub hunks: String,
    pub candidates: Vec<String>,
}

/// A text a violation must give: one that is not blank.
pub fn non_empty(value: String) -> (r: Result<String, String>)
    ensures
        if text::blank(value@) {
            r matches Err(why) && why@ == "must not be empty"@
        } else {
            r == Ok::<String, String>(value)
        },
{
    if text::is_blank(value.as_str()) {
        return Err("must not be empty".to_owned());
    }
    Ok(value)
}

/// What the section of a file starts with.
pub const SECTION_MARK: &'static str = "diff --git ";

/// A section of the diff starts here: at the start of a line.
pub open spec fn section_at(diff: Seq<char>, i: int) -> bool {
    &&& 0 <= i < diff.len()
    &&& SECTION_MARK@.is_prefix_of(diff.skip(i))
    &&& i == 0 || diff[i - 1] == '\n'
}

/// Where the next section starts, at or after a place; the end of the diff where there is none.
pub open spec fn next_section(diff: Seq<char>, from: int) -> int
    decreases diff.len() - from,
{
    if from < 0 || from >= diff.len() {
        diff.len() as int
    } else if section_at(diff, from) {
        from
    } else {
        next_section(diff, from + 1)
    }
}

/// The next section is at or after the place it is looked for from.
pub proof fn next_section_is_ahead(diff: Seq<char>, from: int)
    requires
        0 <= from <= diff.len(),
    ensures
        from <= next_section(diff, from) <= diff.len(),
        next_section(diff, from) < diff.len() ==> section_at(diff, next_section(diff, from)),
        forall|j: int| from <= j < next_section(diff, from) ==> !section_at(diff, j),
    decreases diff.len() - from,
{
    if from < diff.len() && !section_at(diff, from) {
        next_section_is_ahead(diff, from + 1);
    }
}

/// The header line of a section.
pub open spec fn header(section: Seq<char>) -> Seq<char> {
    let n = text::newline_at(section);
    if 0 <= n < section.len() {
        text::without_return(section.take(n))
    } else {
        section
    }
}

/// Whether a section is about one of the named files, under its old name or its new one.
pub open spec fn about(section: Seq<char>, paths: Seq<Seq<char>>) -> bool {
    let line = header(section);
    let rest = line.skip("diff --git a/"@.len() as int);
    let at = text::find_from(rest, 0, " b/"@);
    &&& "diff --git a/"@.is_prefix_of(line)
    &&& at < rest.len()
    &&& paths.contains(rest.take(at)) || paths.contains(rest.skip(at + 3))
}

/// The sections about the named files, from a place on, in order and whole.
pub open spec fn picked(diff: Seq<char>, from: int, paths: Seq<Seq<char>>) -> Seq<char>
    decreases diff.len() - from,
{
    if from < 0 || from > diff.len() {
        Seq::empty()
    } else {
        let start = next_section(diff, from);
        if start >= diff.len() {
            Seq::empty()
        } else {
            proof {
                next_section_is_ahead(diff, from);
                next_section_is_ahead(diff, start + 1);
            }
            let end = next_section(diff, start + 1);
            let section = diff.subrange(start, end);
            (if about(section, paths) {
                section
            } else {
                Seq::empty()
            }) + picked(diff, end, paths)
        }
    }
}

fn is_section_at(chars: &Vec<char>, mark: &Vec<char>, i: usize) -> (r: bool)
    requires
        i < chars@.len(),
        mark@ == SECTION_MARK@,
    ensures
        r == section_at(chars@, i as int),
{
    text::stands_at(chars, i, mark) && (i == 0 || chars[i - 1] == '\n')
}

fn find_section(chars: &Vec<char>, mark: &Vec<char>, from: usize) -> (r: usize)
    requires
        from <= chars@.len(),
        mark@ == SECTION_MARK@,
    ensures
        r == next_section(chars@, from as int),
        from <= r <= chars@.len(),
{
    let mut at: usize = from;
    while at < chars.len() && !is_section_at(chars, mark, at)
        invariant
            from <= at <= chars@.len(),
            mark@ == SECTION_MARK@,
            next_section(chars@, from as int) == next_section(chars@, at as int),
        decreases chars@.len() - at,
    {
        at += 1;
    }
    at
}

/// Where the first line of a run of characters ends.
fn first_newline(chars: &[char]) -> (r: usize)
    ensures
        r == text::newline_at(chars@),
        r <= chars@.len(),
{
    let mut end: usize = 0;
    assert(chars@.skip(0) =~= chars@);
    while end < chars.len() && chars[end] != '\n'
        invariant
            end <= chars@.len(),
            text::newline_at(chars@) == end + text::newline_at(chars@.skip(end as int)),
        decreases chars@.len() - end,
    {
        assert(chars@.skip(end as int)[0] == chars@[end as int]);
        assert(chars@.skip(end as int).drop_first() =~= chars@.skip(end + 1));
        end += 1;
    }
    proof {
        if end < chars@.len() {
            assert(chars@.skip(end as int)[0] == chars@[end as int]);
        } else {
            assert(chars@.skip(end as int) =~= Seq::empty());
        }
    }
    end
}

/// Whether a section is about one of the named files.
fn is_about(section: &[char], paths: &[String]) -> (r: bool)
    ensures
        r == about(section@, text::views(paths@)),
{
    let n: usize = first_newline(section);
    let mut stop: usize = n;
    if n < section.len() && n > 0 && section[n - 1] == '\r' {
        stop = n - 1;
    }
    let line = vstd::slice::slice_subrange(section, 0, stop);
    proof {
        if n < section@.len() {
            let whole = section@.take(n as int);
            if n > 0 {
                assert(whole.last() == section@[n - 1]);
            }
            assert(line@ =~= text::without_return(whole));
        } else {
            assert(line@ =~= section@);
        }
        assert(line@ == header(section@));
        reveal_strlit("diff --git a/");
        reveal_strlit(" b/");
    }
    let text_line = text::string_of(line);
    if !text::starts_with(text_line.as_str(), "diff --git a/") {
        return false;
    }
    let rest = vstd::slice::slice_subrange(line, 13, line.len());
    assert(rest@ =~= line@.skip(13));
    let named = text::chars_of(text::string_of(rest).as_str());
    let divider = text::chars_of(" b/");
    let at: usize = text::find(&named, 0, &divider);
    if at >= named.len() {
        return false;
    }
    let old = text::string_of(vstd::slice::slice_subrange(named.as_slice(), 0, at));
    let new = text::string_of(vstd::slice::slice_subrange(named.as_slice(), at + 3, named.len()));
    assert(old@ =~= named@.take(at as int));
    assert(new@ =~= named@.skip(at + 3));
    text::contains(paths, old.as_str()) || text::contains(paths, new.as_str())
}

/// Extract the complete unified-diff sections for exactly `paths`: every section about one of them,
/// whole and in order, and nothing else.
pub fn hunks_for(diff: &str, paths: &[String]) -> (r: String)
    ensures
        r@ == picked(diff@, 0, text::views(paths@)),
{
    let chars = text::chars_of(diff);
    let mark = text::chars_of(SECTION_MARK);
    let ghost wanted = text::views(paths@);
    let mut out = String::new();
    let mut start: usize = find_section(&chars, &mark, 0);
    let ghost mut from: int = 0;
    assert(out@ + picked(diff@, 0, wanted) =~= picked(diff@, 0, wanted));
    while start < chars.len()
        invariant
            start <= chars@.len(),
            chars@ == diff@,
            mark@ == SECTION_MARK@,
            wanted == text::views(paths@),
            0 <= from <= start,
            start == next_section(diff@, from),
            out@ + picked(diff@, from, wanted) == picked(diff@, 0, wanted),
        decreases chars@.len() - start,
    {
        let end: usize = find_section(&chars, &mark, start + 1);
        let section = vstd::slice::slice_subrange(chars.as_slice(), start, end);
        let ghost had = out@;
        let ghost seen = section@;
        assert(seen =~= diff@.subrange(start as int, end as int));
        if is_about(section, paths) {
            out.append(text::string_of(section).as_str());
            assert(had + (seen + picked(diff@, end as int, wanted)) =~= (had + seen) + picked(
                diff@,
                end as int,
                wanted,
            ));
        } else {
            assert(Seq::<char>::empty() + picked(diff@, end as int, wanted) =~= picked(
                diff@,
                end as int,
                wanted,
            ));
        }
        proof {
            from = end as int;
            next_section_is_ahead(diff@, end as int);
            if end < chars@.len() {
                next_section_is_ahead(diff@, start + 1);
                assert(section_at(diff@, end as int));
            }
        }
        start = end;
    }
    assert(out@ + Seq::<char>::empty() =~= out@);
    out
}

/// Where every section of a diff is about one of the named files, what is picked is the whole of the
/// diff from its first section on: no line of a section is lost.
pub proof fn naming_every_file_picks_everything(diff: Seq<char>, from: int, paths: Seq<Seq<char>>)
    requires
        0 <= from <= diff.len(),
        forall|i: int, j: int|
            section_at(diff, i) && j == next_section(diff, i + 1) ==> about(
                #[trigger] diff.subrange(i, j),
                paths,
            ),
    ensures
        picked(diff, from, paths) == diff.skip(next_section(diff, from)),
    decreases diff.len() - from,
{
    next_section_is_ahead(diff, from);
    let start = next_section(diff, from);
    if start < diff.len() {
        next_section_is_ahead(diff, start + 1);
        let end = next_section(diff, start + 1);
        naming_every_file_picks_everything(diff, end, paths);
        if end < diff.len() {
            assert(next_section(diff, end) == end);
        }
        assert(about(diff.subrange(start, end), paths));
        assert(picked(diff, from, paths) =~= diff.subrange(start, end) + diff.skip(end));
        assert(diff.skip(start) =~= diff.subrange(start, end) + diff.skip(end));
    } else {
        assert(diff.skip(start) =~= Seq::empty());
    }
}

/// Naming no file picks nothing.
pub proof fn naming_no_file_picks_nothing(diff: Seq<char>, from: int)
    requires
        0 <= from <= diff.len(),
    ensures
        picked(diff, from, Seq::empty()) == Seq::<char>::empty(),
    decreases diff.len() - from,
{
    next_section_is_ahead(diff, from);
    let start = next_section(diff, from);
    if start < diff.len() {
        next_section_is_ahead(diff, start + 1);
        naming_no_file_picks_nothing(diff, next_section(diff, start + 1));
        assert(picked(diff, from, Seq::empty()) =~= Seq::empty());
    }
}

/// Which files are named decides what is picked; their order, and how often each is named, do not.
pub proof fn only_the_set_of_names_counts(
    diff: Seq<char>,
    from: int,
    paths: Seq<Seq<char>>,
    others: Seq<Seq<char>>,
)
    requires
        0 <= from <= diff.len(),
        forall|name: Seq<char>| paths.contains(name) <==> others.contains(name),
    ensures
        picked(diff, from, paths) == picked(diff, from, others),
    decreases diff.len() - from,
{
    next_section_is_ahead(diff, from);
    let start = next_section(diff, from);
    if start < diff.len() {
        next_section_is_ahead(diff, start + 1);
        let end = next_section(diff, start + 1);
        only_the_set_of_names_counts(diff, end, paths, others);
        assert(about(diff.subrange(start, end), paths) == about(
            diff.subrange(start, end),
            others,
        ));
    }
}

/// The mark is one line's beginning: it holds no line break.
proof fn mark_is_within_a_line()
    ensures
        SECTION_MARK@.len() > 0,
        !SECTION_MARK@.contains('\n'),
{
    reveal_strlit("diff --git ");
}

/// Behind a whole line, a text has its sections where it had them alone.
proof fn sections_behind_a_line(line: Seq<char>, rest: Seq<char>, from: int)
    requires
        line.len() > 0,
        line.last() == '\n',
        0 <= from <= rest.len(),
    ensures
        next_section(line + rest, line.len() + from) == line.len() + next_section(rest, from),
    decreases rest.len() - from,
{
    let both = line + rest;
    if from < rest.len() {
        assert(both.skip(line.len() + from) =~= rest.skip(from));
        assert(section_at(both, line.len() + from) == section_at(rest, from));
        sections_behind_a_line(line, rest, from + 1);
    }
}

/// Behind a whole line, what is picked of a text is what was picked of it alone.
proof fn picked_behind_a_line(
    line: Seq<char>,
    rest: Seq<char>,
    from: int,
    paths: Seq<Seq<char>>,
)
    requires
        line.len() > 0,
        line.last() == '\n',
        0 <= from <= rest.len(),
    ensures
        picked(line + rest, line.len() + from, paths) == picked(rest, from, paths),
    decreases rest.len() - from,
{
    let both = line + rest;
    let n = line.len() as int;
    sections_behind_a_line(line, rest, from);
    next_section_is_ahead(rest, from);
    let start = next_section(rest, from);
    if start < rest.len() {
        next_section_is_ahead(rest, start + 1);
        sections_behind_a_line(line, rest, start + 1);
        let end = next_section(rest, start + 1);
        assert(both.subrange(n + start, n + end) =~= rest.subrange(start, end));
        picked_behind_a_line(line, rest, end, paths);
    }
}

/// A section, alone, is one section from its first character to its last; and it ends a line where
/// another follows it.
proof fn a_section_stands_alone(diff: Seq<char>, start: int)
    requires
        section_at(diff, start),
    ensures
        ({
            let end = next_section(diff, start + 1);
            let section = diff.subrange(start, end);
            &&& start < end <= diff.len()
            &&& section_at(section, 0)
            &&& forall|i: int| 0 < i < section.len() ==> !section_at(section, i)
            &&& end < diff.len() ==> section.last() == '\n'
        }),
{
    mark_is_within_a_line();
    next_section_is_ahead(diff, start + 1);
    let mark = SECTION_MARK@;
    let end = next_section(diff, start + 1);
    let section = diff.subrange(start, end);
    if end < diff.len() && end < start + mark.len() {
        assert(diff.skip(start)[end - 1 - start] == '\n');
        assert(mark[end - 1 - start] == '\n');
    }
    assert(section.skip(0) =~= section);
    assert(mark =~= section.take(mark.len() as int)) by {
        assert forall|k: int| 0 <= k < mark.len() implies mark[k] == section[k] by {
            assert(diff.skip(start)[k] == mark[k]);
        }
    }
    assert forall|i: int| 0 < i < section.len() implies !section_at(section, i) by {
        if section_at(section, i) {
            assert forall|k: int| 0 <= k < mark.len() implies mark[k] == diff.skip(start + i)[k] by {
                assert(section.skip(i)[k] == mark[k]);
            }
            assert(section.skip(i).len() >= mark.len());
            assert(mark =~= diff.skip(start + i).take(mark.len() as int));
            assert(section_at(diff, start + i));
        }
    }
}

/// A section in front of sections is picked, whole, exactly when it is about one of the named files;
/// and they are picked as if it were not there.
pub proof fn picked_of_a_section_and_more(
    section: Seq<char>,
    rest: Seq<char>,
    paths: Seq<Seq<char>>,
)
    requires
        section_at(section, 0),
        forall|i: int| 0 < i < section.len() ==> !section_at(section, i),
        rest.len() > 0 ==> section.last() == '\n' && section_at(rest, 0),
    ensures
        section_at(section + rest, 0),
        picked(section + rest, 0, paths) == (if about(section, paths) {
            section
        } else {
            Seq::empty()
        }) + picked(rest, 0, paths),
{
    mark_is_within_a_line();
    let mark = SECTION_MARK@;
    let both = section + rest;
    let n = section.len() as int;
    assert forall|k: int| 0 <= k < mark.len() implies mark[k] == both.skip(0)[k] by {
        assert(section.skip(0)[k] == mark[k]);
    }
    assert(section.skip(0).len() >= mark.len());
    assert(mark =~= both.skip(0).take(mark.len() as int));
    assert(section_at(both, 0));
    assert forall|i: int| 0 < i < n implies !section_at(both, i) by {
        if section_at(both, i) {
            if rest.len() > 0 && n - i < mark.len() {
                assert(both.skip(i)[n - 1 - i] == '\n');
                assert(mark[n - 1 - i] == '\n');
            }
            assert(both.skip(i).len() >= mark.len());
            assert forall|k: int| 0 <= k < mark.len() implies mark[k] == section.skip(i)[k] by {
                assert(both.skip(i)[k] == mark[k]);
            }
            assert(mark =~= section.skip(i).take(mark.len() as int));
            assert(section_at(section, i));
        }
    }
    next_section_is_ahead(both, 1);
    let end = next_section(both, 1);
    if rest.len() > 0 {
        assert(both.skip(n) =~= rest.skip(0));
        assert(section_at(both, n));
        assert(end == n);
        picked_behind_a_line(section, rest, 0, paths);
    } else {
        assert(both =~= section);
        assert(end == n);
        assert(picked(both, n, paths) =~= picked(rest, 0, paths));
    }
    assert(next_section(both, 0) == 0);
    assert(both.subrange(0, n) =~= section);
}

/// What was picked is made of the sections that were picked: picking from it again, for the same
/// files, picks all of it.
pub proof fn picking_again_changes_nothing(diff: Seq<char>, from: int, paths: Seq<Seq<char>>)
    requires
        0 <= from <= diff.len(),
    ensures
        picked(picked(diff, from, paths), 0, paths) == picked(diff, from, paths),
        picked(diff, from, paths).len() > 0 ==> section_at(picked(diff, from, paths), 0),
    decreases diff.len() - from,
{
    next_section_is_ahead(diff, from);
    let start = next_section(diff, from);
    if start < diff.len() {
        a_section_stands_alone(diff, start);
        let end = next_section(diff, start + 1);
        let section = diff.subrange(start, end);
        let rest = picked(diff, end, paths);
        picking_again_changes_nothing(diff, end, paths);
        if about(section, paths) {
            picked_of_a_section_and_more(section, rest, paths);
        } else {
            assert(picked(diff, from, paths) =~= rest);
        }
    } else {
        assert(picked(Seq::<char>::empty(), 0, paths) =~= Seq::empty());
    }
}

/// What a correction opens with.
pub const CORRECTION_HEADER: &'static str =
    "Your change weakened files that decide whether this \
     task is done. Revert or repair each of these changes; rewriting checks, their runner configuration, or anything the runner auto-loads is not a way to pass:\n\n";

/// What a correction closes with.
pub const CORRECTION_FOOTER: &'static str =
    "\nAdding a test is allowed and never brings you here. If this \
     task really must change existing tests, declare `mayModifyTests` in `defineDefaults` up front in .ratatoskr/rules/*.ts.";

/// One violation, as the implementer is told it.
pub open spec fn told(violation: Violation) -> Seq<char> {
    "- "@ + violation.file@ + ": "@ + violation.reason@ + "\n"@
}

/// Several violations, as the implementer is told them.
pub open spec fn told_all(violations: Seq<Violation>) -> Seq<char>
    decreases violations.len(),
{
    if violations.len() == 0 {
        Seq::empty()
    } else {
        told_all(violations.drop_last()) + told(violations.last())
    }
}

/// Turn violations into the correction the implementer receives.
pub fn correction(violations: &[Violation]) -> (r: String)
    ensures
        r@ == CORRECTION_HEADER@ + told_all(violations@) + CORRECTION_FOOTER@,
{
    let mut out = CORRECTION_HEADER.to_owned();
    let mut i: usize = 0;
    assert(out@ =~= CORRECTION_HEADER@ + told_all(violations@.take(0)));
    while i < violations.len()
        invariant
            i <= violations@.len(),
            out@ == CORRECTION_HEADER@ + told_all(violations@.take(i as int)),
        decreases violations@.len() - i,
    {
        let mut line = "- ".to_owned();
        line.append(violations[i].file.as_str());
        line.append(": ");
        line.append(violations[i].reason.as_str());
        line.append("\n");
        out.append(line.as_str());
        i += 1;
        proof {
            assert(violations@.take(i as int).drop_last() =~= violations@.take(i - 1));
            assert(out@ =~= CORRECTION_HEADER@ + told_all(violations@.take(i as int)));
        }
    }
    assert(violations@.take(i as int) =~= violations@);
    out.append(CORRECTION_FOOTER);
    out
}

/// The requirements, as the referee is shown them.
pub open spec fn requirement_lines(requirements: Seq<String>) -> Seq<char>
    decreases requirements.len(),
{
    if requirements.len() == 0 {
        Seq::empty()
    } else {
        requirement_lines(requirements.drop_last()) + ("- "@ + requirements.last()@ + "\n"@)
    }
}

/// The question the referee is asked.
pub open spec fn prompt(input: RefereeInput) -> Seq<char> {
    "TASK:\n"@ + input.issue@ + "\n\n"@ + (if input.requirements@.len() > 0 {
        "REQUIREMENTS THE CHANGE MUST SATISFY:\n"@ + requirement_lines(input.requirements@) + "\n"@
    } else {
        Seq::empty()
    }) + "FILES WITH REMOVED OR REPLACED LINES: "@ + text::joined(
        text::views(input.candidates@),
        ", "@,
    ) + "\n\nDIFF HUNKS TO JUDGE:\n"@ + input.hunks@ + "\n"@
}

fn print_requirements(requirements: &Vec<String>) -> (r: String)
    ensures
        r@ == (if requirements@.len() > 0 {
            "REQUIREMENTS THE CHANGE MUST SATISFY:\n"@ + requirement_lines(requirements@) + "\n"@
        } else {
            Seq::empty()
        }),
{
    if requirements.len() == 0 {
        return String::new();
    }
    let mut lines = String::new();
    let mut i: usize = 0;
    while i < requirements.len()
        invariant
            i <= requirements@.len(),
            lines@ == requirement_lines(requirements@.take(i as int)),
        decreases requirements@.len() - i,
    {
        let mut line = "- ".to_owned();
        line.append(requirements[i].as_str());
        line.append("\n");
        lines.append(line.as_str());
        i += 1;
        assert(requirements@.take(i as int).drop_last() =~= requirements@.take(i - 1));
    }
    assert(requirements@.take(i as int) =~= requirements@);
    let mut out = "REQUIREMENTS THE CHANGE MUST SATISFY:\n".to_owned();
    out.append(lines.as_str());
    out.append("\n");
    out
}

/// Renders the question: the task, what it must satisfy, and the hunks to judge.
pub fn render_prompt(input: &RefereeInput) -> (r: String)
    ensures
        r@ == prompt(*input),
{
    let mut out = "TASK:\n".to_owned();
    out.append(input.issue.as_str());
    out.append("\n\n");
    out.append(print_requirements(&input.requirements).as_str());
    out.append("FILES WITH REMOVED OR REPLACED LINES: ");
    out.append(text::join(input.candidates.as_slice(), ", ").as_str());
    out.append("\n\nDIFF HUNKS TO JUDGE:\n");
    out.append(input.hunks.as_str());
    out.append("\n");
    out
}

/// The internal judge, with its fixed capability boundary.
#[derive(Debug)]
pub struct RefereeNode {
    route: ModelRoute,
    tools: ToolSet,
    /// The tree it reads within.
    files: Option<String>,
}

impl RefereeNode {
    /// The tree the judge reads within.
    pub closed spec fn within(self) -> Option<String> {
        self.files
    }

    /// Where the judge runs.
    pub closed spec fn routed(self) -> ModelRoute {
        self.route
    }

    /// What the judge may call.
    pub closed spec fn offered(self) -> Seq<ToolView> {
        self.tools@
    }

    /// The judge's tools are the fixed ones, each of which only reads.
    pub open spec fn fixed_boundary(self) -> bool {
        self.offered() == seq![
            ToolView::local("Read"@, Capability::Read),
            ToolView::local("Grep"@, Capability::Read),
            ToolView::local("Glob"@, Capability::Read),
        ]
    }

    /// Construct the internal judge with its fixed, read-only capability boundary.
    pub fn fixed(route: ModelRoute, files: Option<String>) -> (r: RefereeNode)
        ensures
            r.routed() == route,
            r.within() == files,
            r.fixed_boundary(),
    {
        let mut tools = ToolSet::new();
        tools.add_local("Read", Capability::Read);
        tools.add_local("Grep", Capability::Read);
        tools.add_local("Glob", Capability::Read);
        assert(tools@ =~= seq![
            ToolView::local("Read"@, Capability::Read),
            ToolView::local("Grep"@, Capability::Read),
            ToolView::local("Glob"@, Capability::Read),
        ]);
        RefereeNode { route, tools, files }
    }

    /// Where the judge runs.
    pub fn route(&self) -> (r: &ModelRoute)
        ensures
            *r == self.routed(),
    {
        &self.route
    }

    /// The tree the judge reads within.
    pub fn files(&self) -> (r: &Option<String>)
        ensures
            *r == self.within(),
    {
        &self.files
    }

    /// What the judge may call.
    pub fn tools(&self) -> (r: &ToolSet)
        ensures
            r@ == self.offered(),
    {
        &self.tools
    }

    /// What the judge is asked, `None` where there is nothing to judge.
    pub fn question(&self, input: &RefereeInput) -> (r: Option<String>)
        ensures
            input.candidates@.len() == 0 ==> r is None,
            input.candidates@.len() > 0 ==> (r matches Some(asked) && asked@ == prompt(*input)),
    {
        if input.candidates.len() == 0 {
            return None;
        }
        Some(render_prompt(input))
    }
}

/// How the current change comes to be judged.
#[derive(Debug)]
pub enum Judgement {
    /// No route is configured: the test results are trusted alone, and no judgement is recorded.
    Unjudged,
    /// Nothing was rewritten that is not exempt: a judgement with no violations.
    Clear,
    /// The judge is asked about these files.
    Ask { node: RefereeNode, candidates: Vec<String> },
}

/// Judge the current change before its acceptance result is trusted: whether, and over which files.
pub fn judge(
    engine: &ScriptEngine,
    config: &RatatoskrConfig,
    stages: &[Stage],
    rewritten_files: &[String],
    may_modify_tests: &[String],
    worktree: &str,
) -> (r: Judgement)
    ensures
        ({
            let route = routes::referee_routed(*engine, *config, text::views(stages@));
            let files = converge::candidates(rewritten_files@, may_modify_tests@);
            match route {
                None => r is Unjudged,
                Some(route) => if files.len() == 0 {
                    r is Clear
                } else {
                    r matches Judgement::Ask { node, candidates } && {
                        &&& node.routed()@ == route
                        &&& node.fixed_boundary()
                        &&& node.within() matches Some(tree) && tree@ == worktree@
                        &&& candidates@ == files
                    }
                },
            }
        }),
{
    let route = match routes::referee_route(engine, config, stages) {
        None => return Judgement::Unjudged,
        Some(route) => route,
    };
    let candidates = converge::referee_candidates(rewritten_files, may_modify_tests);
    if candidates.len() == 0 {
        return Judgement::Clear;
    }
    Judgement::Ask { node: RefereeNode::fixed(route, Some(worktree.to_owned())), candidates }
}

/// What the judge is given: the hunks of the candidates out of the change's diff, which is taken as
/// empty where it could not be read.
pub fn referee_input(
    issue: &str,
    requirements: &[String],
    candidates: Vec<String>,
    diff: Option<&str>,
) -> (r: RefereeInput)
    ensures
        r.issue@ == issue@,
        r.requirements@ == requirements@,
        r.candidates == candidates,
        r.hunks@ == picked(
            match diff {
                Some(diff) => diff@,
                None => Seq::empty(),
            },
            0,
            text::views(candidates@),
        ),
{
    let hunks = match diff {
        Some(diff) => hunks_for(diff, candidates.as_slice()),
        None => String::new(),
    };
    RefereeInput {
        issue: issue.to_owned(),
        requirements: text::copies(requirements),
        hunks,
        candidates,
    }
}

/// What the judge's answer means for the run.
pub fn judged(answer: Result<RefereeOutput, NodeError>) -> (r: Result<Vec<Violation>, PlanError>)
    ensures
        match answer {
            Ok(out) => r == Ok::<Vec<Violation>, PlanError>(out.violations),
            Err(error) => r == Err::<Vec<Violation>, PlanError>(
                PlanError::Node { node: "referee", source: error },
            ),
        },
{
    match answer {
        Ok(out) => Ok(out.violations),
        Err(error) => Err(PlanError::node("referee", error)),
    }
}

/// A correction tells every violation, in order: its file, and what was weakened.
pub proof fn every_violation_is_told(a: Seq<Violation>, b: Seq<Violation>, violation: Violation)
    ensures
        told_all(a + b) == told_all(a) + told_all(b),
        told_all(seq![violation]) == "- "@ + violation.file@ + ": "@ + violation.reason@ + "\n"@,
    decreases b.len(),
{
    let one = seq![violation];
    assert(one.drop_last() =~= Seq::empty());
    assert(told_all(one.drop_last()) =~= Seq::empty());
    assert(told_all(one) =~= "- "@ + violation.file@ + ": "@ + violation.reason@ + "\n"@);
    if b.len() == 0 {
        assert(a + b =~= a);
        assert(told_all(a) + told_all(b) =~= told_all(a));
    } else {
        assert((a + b).drop_last() =~= a + b.drop_last());
        assert((a + b).last() == b.last());
        every_violation_is_told(a, b.drop_last(), violation);
        assert(told_all(a + b) =~= told_all(a) + told_all(b));
    }
}

/// The referee is shown every requirement, in order, on a line of its own.
pub proof fn every_requirement_is_shown(a: Seq<String>, b: Seq<String>, requirement: String)
    ensures
        requirement_lines(a + b) == requirement_lines(a) + requirement_lines(b),
        requirement_lines(seq![requirement]) == "- "@ + requirement@ + "\n"@,
    decreases b.len(),
{
    let one = seq![requirement];
    assert(one.drop_last() =~= Seq::empty());
    assert(requirement_lines(one.drop_last()) =~= Seq::empty());
    assert(requirement_lines(one) =~= "- "@ + requirement@ + "\n"@);
    if b.len() == 0 {
        assert(a + b =~= a);
        assert(requirement_lines(a) + requirement_lines(b) =~= requirement_lines(a));
    } else {
        assert((a + b).drop_last() =~= a + b.drop_last());
        assert((a + b).last() == b.last());
        every_requirement_is_shown(a, b.drop_last(), requirement);
        assert(requirement_lines(a + b) =~= requirement_lines(a) + requirement_lines(b));
    }
}

/// A section starts exactly where a line starts with the mark.
pub proof fn a_section_starts_a_line(diff: Seq<char>, i: int)
    ensures
        section_at(diff, i) <==> {
            &&& 0 <= i
            &&& i + 11 <= diff.len()
            &&& diff.subrange(i, i + 11) == "diff --git "@
            &&& i == 0 || diff[i - 1] == '\n'
        },
{
    reveal_strlit("diff --git ");
    let mark = "diff --git "@;
    assert(mark.len() == 11);
    if 0 <= i && i + 11 <= diff.len() {
        assert(diff.skip(i).subrange(0, 11) =~= diff.subrange(i, i + 11));
    }
}

/// A section is about a file exactly when its first line names that file, as what it was called or as
/// what it is called now.
pub proof fn a_section_is_about_both_its_names(
    old: Seq<char>,
    new: Seq<char>,
    body: Seq<char>,
    paths: Seq<Seq<char>>,
)
    requires
        forall|i: int| 0 <= i < old.len() ==> old[i] != '\n',
        forall|i: int| 0 <= i < new.len() ==> new[i] != '\n',
        new.len() == 0 || new.last() != '\r',
        forall|k: int|
            0 <= k < old.len() ==> !" b/"@.is_prefix_of(#[trigger] (old + " b/"@ + new).skip(k)),
    ensures
        about("diff --git a/"@ + old + " b/"@ + new + "\n"@ + body, paths) <==> (exists|i: int|
            0 <= i < paths.len() && (#[trigger] paths[i] == old || paths[i] == new)),
{
    reveal_strlit("diff --git a/");
    reveal_strlit(" b/");
    reveal_strlit("\n");
    let lead = "diff --git a/"@;
    let line = lead + old + " b/"@ + new;
    let section = lead + old + " b/"@ + new + "\n"@ + body;
    let n = text::newline_at(section);
    assert(lead.len() == 13);
    assert(" b/"@.len() == 3);
    text::newline_is_within(section);
    assert(section[line.len() as int] == '\n');
    assert forall|i: int| 0 <= i < line.len() implies section[i] != '\n' by {
        assert(section[i] == line[i]);
        if i < 13 {
            assert(line[i] == lead[i]);
        } else if i < 13 + old.len() {
            assert(line[i] == old[i - 13]);
        } else if i < 13 + old.len() + 3 {
            assert(line[i] == " b/"@[i - 13 - old.len()]);
        } else {
            assert(line[i] == new[i - 16 - old.len()]);
        }
    }
    assert(n == line.len());
    assert(section.take(n) =~= line);
    assert(line.last() != '\r') by {
        if new.len() > 0 {
            assert(line.last() == new.last());
        } else {
            assert(line.last() == " b/"@[2]);
        }
    }
    assert(header(section) == line);
    let rest = line.skip(13);
    assert(rest =~= old + " b/"@ + new);
    assert(lead =~= line.subrange(0, 13));
    text::find_is_first(rest, 0, " b/"@);
    let at = text::find_from(rest, 0, " b/"@);
    let m = old.len() as int;
    assert(" b/"@ =~= rest.skip(m).subrange(0, 3));
    assert(" b/"@.is_prefix_of(rest.skip(m)));
    assert(at <= m);
    if at < m {
        assert(" b/"@.is_prefix_of((old + " b/"@ + new).skip(at)));
    }
    assert(rest.take(at) =~= old);
    assert(rest.skip(at + 3) =~= new);
    if paths.contains(old) {
        let i = choose|i: int| 0 <= i < paths.len() && paths[i] == old;
        assert(paths[i] == old);
    }
    if paths.contains(new) {
        let i = choose|i: int| 0 <= i < paths.len() && paths[i] == new;
        assert(paths[i] == new);
    }
}

/// What stands before the first section is in none: it is never picked.
pub proof fn what_leads_a_diff_is_not_picked(
    lead: Seq<char>,
    diff: Seq<char>,
    paths: Seq<Seq<char>>,
)
    requires
        lead.len() > 0,
        lead.last() == '\n',
        forall|i: int| 0 <= i < lead.len() ==> !section_at(lead + diff, i),
    ensures
        picked(lead + diff, 0, paths) == picked(diff, 0, paths),
{
    let both = lead + diff;
    picked_behind_a_line(lead, diff, 0, paths);
    next_section_is_ahead(both, 0);
    next_section_is_ahead(both, lead.len() as int);
    let start = next_section(both, 0);
    let later = next_section(both, lead.len() as int);
    if start < later {
        assert(section_at(both, start));
    }
    if later < start {
        assert(section_at(both, later));
    }
}

/// The judge has three tools of the run's own, and each of them only reads.
pub proof fn the_judge_only_reads(node: RefereeNode, tool: ToolView)
    requires
        node.fixed_boundary(),
    ensures
        node.offered().len() == 3,
        node.offered().contains(tool) ==> tool.capability == Capability::Read && tool.server is None && (
        tool.name == "Read"@ || tool.name == "Grep"@ || tool.name == "Glob"@),
        node.offered()[0].name == "Read"@ && node.offered()[1].name == "Grep"@
            && node.offered()[2].name == "Glob"@,
{
}

/// What the judge is asked with: the task, the requirements where there are any, every file in
/// question and the hunks, whole and in this order.
pub proof fn the_judge_is_asked_with_everything(input: RefereeInput)
    ensures
        ({
            let opening = "TASK:\n"@ + input.issue@ + "\n\n"@;
            let rest = "FILES WITH REMOVED OR REPLACED LINES: "@ + text::joined(
                text::views(input.candidates@),
                ", "@,
            ) + "\n\nDIFF HUNKS TO JUDGE:\n"@ + input.hunks@ + "\n"@;
            &&& input.requirements@.len() == 0 ==> prompt(input) == opening + rest
            &&& input.requirements@.len() > 0 ==> prompt(input) == opening
                + "REQUIREMENTS THE CHANGE MUST SATISFY:\n"@ + requirement_lines(
                input.requirements@,
            ) + "\n"@ + rest
        }),
{
    let opening = "TASK:\n"@ + input.issue@ + "\n\n"@;
    let files = text::joined(text::views(input.candidates@), ", "@);
    let rest = "FILES WITH REMOVED OR REPLACED LINES: "@ + files + "\n\nDIFF HUNKS TO JUDGE:\n"@
        + input.hunks@ + "\n"@;
    if input.requirements@.len() == 0 {
        assert(prompt(input) =~= opening + rest);
    } else {
        assert(prompt(input) =~= opening + "REQUIREMENTS THE CHANGE MUST SATISFY:\n"@
            + requirement_lines(input.requirements@) + "\n"@ + rest);
    }
}

/// A section is about nothing where its first line does not name two files the way a diff does, or
/// where no path is asked about.
pub proof fn only_a_diffs_header_is_about_a_file(section: Seq<char>, paths: Seq<Seq<char>>)
    ensures
        about(section, paths) ==> "diff --git a/"@.is_prefix_of(section),
        about(section, paths) ==> text::occurs(section, " b/"@),
        paths.len() == 0 ==> !about(section, paths),
{
    if about(section, paths) {
        reveal_strlit("diff --git a/");
        reveal_strlit(" b/");
        let line = header(section);
        let rest = line.skip(13);
        text::newline_is_within(section);
        assert(line =~= section.take(line.len() as int));
        assert("diff --git a/"@ =~= section.take(13));
        text::find_is_first(rest, 0, " b/"@);
        let at = text::find_from(rest, 0, " b/"@);
        assert(" b/"@ =~= section.skip(13 + at).take(3)) by {
            assert(rest.skip(at).take(3) =~= section.skip(13 + at).take(3));
        }
        assert(" b/"@.is_prefix_of(section.skip(13 + at)));
    }
}

} // verus!
