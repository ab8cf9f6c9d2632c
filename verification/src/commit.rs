//! The message a run's commit carries.

use vstd::prelude::*;
use vstd::string::StringExecFns;

use crate::implementer::ImplementerOutput;
use crate::text;

verus! {

broadcast use vstd::string::group_string_axioms;

/// Most of one line of a commit body. The git convention, and what a terminal shows without wrapping
/// it somewhere the author did not choose.
pub const BODY_WIDTH: usize = 72;

/// Whether every character is a decimal digit.
pub open spec fn digits(s: Seq<char>) -> bool {
    forall|i: int| 0 <= i < s.len() ==> '0' as int <= #[trigger] s[i] as int <= '9' as int
}

/// Where the first full stop of a text stands, its end where there is none.
pub open spec fn stop_at(s: Seq<char>) -> int
    decreases s.len(),
{
    if s.len() == 0 || s[0] == '.' {
        0
    } else {
        1 + stop_at(s.drop_first())
    }
}

/// A line that begins a list item: a dash, a star or a bullet, or a number and a full stop.
pub open spec fn list_item(line: Seq<char>) -> bool {
    let t = text::trimmed_start(line);
    let n = stop_at(t);
    ||| t.len() > 0 && (t[0] == '-' || t[0] == '*' || t[0] == '•')
    ||| 0 < n < t.len() && digits(t.take(n))
}

fn is_list_item(line: &[char]) -> (r: bool)
    ensures
        r == list_item(line@),
{
    let t = text::trim_start(line);
    if t.len() > 0 && (t[0] == '-' || t[0] == '*' || t[0] == '•') {
        return true;
    }
    let mut n: usize = 0;
    let mut all_digits: bool = true;
    assert(t@.skip(0) =~= t@);
    while n < t.len() && t[n] != '.'
        invariant
            n <= t@.len(),
            stop_at(t@) == n + stop_at(t@.skip(n as int)),
            all_digits == digits(t@.take(n as int)),
        decreases t@.len() - n,
    {
        proof {
            assert(t@.skip(n as int)[0] == t@[n as int]);
            assert(t@.skip(n as int).drop_first() =~= t@.skip(n + 1));
        }
        let u: u32 = text::code(t[n]);
        let is_digit: bool = 0x30 <= u && u <= 0x39;
        proof {
            let now = t@.take(n as int);
            let next = t@.take(n + 1);
            assert(next =~= now.push(t@[n as int]));
            if digits(next) {
                assert forall|i: int| 0 <= i < now.len() implies '0' as int <= #[trigger] now[i] as int
                    <= '9' as int by {
                    assert(next[i] == now[i]);
                }
                assert('0' as int <= next[n as int] as int <= '9' as int);
            }
            if digits(now) && is_digit {
                assert forall|i: int| 0 <= i < next.len() implies '0' as int <= #[trigger] next[
                    i] as int <= '9' as int by {
                    if i < n {
                        assert(now[i] == next[i]);
                    }
                }
            }
        }
        all_digits = all_digits && is_digit;
        n += 1;
    }
    proof {
        if n < t@.len() {
            assert(t@.skip(n as int)[0] == t@[n as int]);
        } else {
            assert(t@.skip(n as int) =~= Seq::empty());
        }
    }
    n > 0 && n < t.len() && all_digits
}

/// The words of a paragraph, gathered into lines: as many as fit within the width, and a word longer
/// than the width on a line of its own.
pub open spec fn gathered(words: Seq<Seq<char>>, current: Seq<Seq<char>>) -> Seq<Seq<Seq<char>>>
    decreases words.len(),
{
    if words.len() == 0 {
        if current.len() == 0 {
            Seq::empty()
        } else {
            seq![current]
        }
    } else if current.len() > 0 && text::joined(current, " "@).len() + 1 + words[0].len() > BODY_WIDTH {
        seq![current] + gathered(words.drop_first(), seq![words[0]])
    } else {
        gathered(words.drop_first(), current.push(words[0]))
    }
}

/// The lines a gathering of words makes.
pub open spec fn as_lines(groups: Seq<Seq<Seq<char>>>) -> Seq<Seq<char>> {
    Seq::new(groups.len(), |i: int| text::joined(groups[i], " "@))
}

/// One line of prose, rewrapped: left alone where it is short or begins a list item.
pub open spec fn rewrapped_line(line: Seq<char>) -> Seq<Seq<char>> {
    let t = text::trimmed_end(line);
    if t.len() <= BODY_WIDTH || list_item(t) {
        seq![t]
    } else {
        as_lines(gathered(text::words(t), Seq::empty()))
    }
}

/// Several lines of prose, rewrapped.
pub open spec fn rewrapped(lines: Seq<Seq<char>>) -> Seq<Seq<char>>
    decreases lines.len(),
{
    if lines.len() == 0 {
        Seq::empty()
    } else {
        rewrapped(lines.drop_last()) + rewrapped_line(lines.last())
    }
}

proof fn joining_one_more(words: Seq<Seq<char>>, word: Seq<char>)
    ensures
        words.len() > 0 ==> text::joined(words.push(word), " "@) == text::joined(words, " "@)
            + " "@ + word,
        words.len() == 0 ==> text::joined(words.push(word), " "@) == word,
{
    if words.len() > 0 {
        assert(words.push(word).drop_last() =~= words);
    }
}

/// Gathers the words of a paragraph into lines.
fn fill(words: &[String], out: &mut Vec<String>)
    requires
        forall|i: int| 0 <= i < words@.len() ==> (#[trigger] words@[i])@.len() > 0,
    ensures
        text::views(final(out)@) == text::views(old(out)@) + as_lines(
            gathered(text::views(words@), Seq::empty()),
        ),
{
    let mut current = String::new();
    let mut count: usize = 0;
    let ghost all = text::views(words@);
    let ghost start = text::views(out@);
    let ghost mut group: Seq<Seq<char>> = Seq::empty();
    let mut i: usize = 0;
    proof {
        reveal_strlit(" ");
        assert(all.skip(0) =~= all);
        assert(start + as_lines(gathered(all, Seq::empty())) =~= text::views(out@) + as_lines(
            gathered(all.skip(0), group),
        ));
    }
    while i < words.len()
        invariant
            i <= words@.len(),
            " "@.len() == 1,
            all == text::views(words@),
            forall|j: int| 0 <= j < words@.len() ==> (#[trigger] words@[j])@.len() > 0,
            current@ == text::joined(group, " "@),
            count == current@.len(),
            count == 0 <==> group.len() == 0,
            start + as_lines(gathered(all, Seq::empty())) == text::views(out@) + as_lines(
                gathered(all.skip(i as int), group),
            ),
        decreases words@.len() - i,
    {
        let word = &words[i];
        let width: usize = text::chars_of(word.as_str()).len();
        let ghost rest = all.skip(i as int);
        proof {
            assert(rest[0] == word@);
            assert(rest.drop_first() =~= all.skip(i + 1));
            assert(word@.len() > 0);
        }
        if count > 0 && (count >= BODY_WIDTH || width > BODY_WIDTH - 1 - count) {
            let ghost had = text::views(out@);
            let ghost seen = current@;
            let ghost later = gathered(all.skip(i + 1), seq![word@]);
            out.push(current);
            proof {
                assert(text::views(out@) =~= had.push(seen));
                assert(gathered(rest, group) =~= seq![group] + later);
                assert(as_lines(seq![group] + later) =~= seq![seen] + as_lines(later));
                assert(had + (seq![seen] + as_lines(later)) =~= had.push(seen) + as_lines(later));
                group = seq![word@];
                assert(text::joined(group, " "@) == word@);
            }
            current = word.clone();
            count = width;
        } else {
            proof {
                joining_one_more(group, word@);
                if group.len() == 0 {
                    assert(current@ =~= Seq::empty());
                }
            }
            if count > 0 {
                current.append(" ");
                count = count + 1 + width;
            } else {
                count = width;
            }
            let ghost had = current@;
            current.append(word.as_str());
            proof {
                if group.len() == 0 {
                    assert(had + word@ =~= word@);
                }
                group = group.push(word@);
            }
        }
        i += 1;
    }
    let ghost had = text::views(out@);
    let ghost seen = current@;
    proof {
        assert(all.skip(i as int) =~= Seq::empty());
    }
    if count > 0 {
        out.push(current);
        proof {
            assert(text::views(out@) =~= had.push(seen));
            assert(as_lines(gathered(Seq::empty(), group)) =~= seq![seen]);
            assert(had + seq![seen] =~= had.push(seen));
        }
    } else {
        proof {
            assert(as_lines(gathered(Seq::empty(), group)) =~= Seq::empty());
            assert(had + Seq::<Seq<char>>::empty() =~= had);
        }
    }
}

/// Rewrap prose to [`BODY_WIDTH`], preserving paragraph and list structure.
///
/// A line that is already short, or that begins a list item, is left alone: reflowing a bullet list
/// into a paragraph loses the structure that made it readable. A word longer than the width goes on
/// its own line whole: it is a path or an identifier.
pub fn wrapped(prose: &str) -> (r: String)
    ensures
        r@ == text::joined(rewrapped(text::lines(prose@)), "\n"@),
{
    let lines = text::split_lines(prose);
    let mut out: Vec<String> = Vec::new();
    let ghost all = text::views(lines@);
    let mut i: usize = 0;
    assert(text::views(out@) =~= rewrapped(all.take(0)));
    while i < lines.len()
        invariant
            i <= lines@.len(),
            all == text::views(lines@),
            text::views(out@) == rewrapped(all.take(i as int)),
        decreases lines@.len() - i,
    {
        let chars = text::chars_of(lines[i].as_str());
        let t = text::trim_end(chars.as_slice());
        let ghost had = text::views(out@);
        if t.len() <= BODY_WIDTH || is_list_item(t) {
            let line = text::string_of(t);
            let ghost seen = line@;
            out.push(line);
            proof {
                assert(text::views(out@) =~= had.push(seen));
                assert(had + seq![seen] =~= had.push(seen));
            }
        } else {
            let words = text::split_words(t);
            proof {
                text::words_are_words(t@);
                assert forall|j: int| 0 <= j < words@.len() implies (#[trigger] words@[j])@.len()
                    > 0 by {
                    assert(text::views(words@)[j].len() > 0);
                }
            }
            fill(words.as_slice(), &mut out);
        }
        i += 1;
        proof {
            assert(all.take(i as int).drop_last() =~= all.take(i - 1));
            assert(all.take(i as int).last() == all[i - 1]);
        }
    }
    assert(all.take(i as int) =~= all);
    text::join(out.as_slice(), "\n")
}

/// Gathering words into lines keeps every word, whole and in order, and makes no empty line; and a
/// line longer than the width is a single word.
pub proof fn wrapping_keeps_every_word(words: Seq<Seq<char>>, current: Seq<Seq<char>>)
    requires
        current.len() > 1 ==> text::joined(current, " "@).len() <= 72,
    ensures
        gathered(words, current).flatten() == current + words,
        forall|i: int|
            0 <= i < gathered(words, current).len() ==> (#[trigger] gathered(words, current)[i]).len()
                > 0,
        forall|i: int|
            0 <= i < gathered(words, current).len() ==> (#[trigger] gathered(
                words,
                current,
            )[i]).len() > 1 ==> text::joined(gathered(words, current)[i], " "@).len() <= 72,
    decreases words.len(),
{
    reveal_strlit(" ");
    let all = gathered(words, current);
    if words.len() == 0 {
        assert(current + words =~= current);
        if current.len() > 0 {
            assert(all =~= seq![current]);
            all.lemma_flatten_one_element();
        } else {
            assert(all =~= Seq::empty());
            assert(all.flatten() =~= current);
        }
    } else {
        let rest = words.drop_first();
        assert(words =~= seq![words[0]] + rest);
        if current.len() > 0 && text::joined(current, " "@).len() + 1 + words[0].len() > BODY_WIDTH {
            let later = gathered(rest, seq![words[0]]);
            wrapping_keeps_every_word(rest, seq![words[0]]);
            assert(all =~= seq![current] + later);
            assert(all.first() == current);
            assert(all.drop_first() =~= later);
            assert(all.flatten() == current + later.flatten());
            assert(current + (seq![words[0]] + rest) =~= current + words);
            assert forall|i: int| 0 <= i < all.len() implies (#[trigger] all[i]).len() > 0 by {
                if i > 0 {
                    assert(all[i] == later[i - 1]);
                }
            }
            assert forall|i: int| 0 <= i < all.len() && (#[trigger] all[i]).len() > 1 implies text::joined(
                all[i],
                " "@,
            ).len() <= BODY_WIDTH by {
                if i > 0 {
                    assert(all[i] == later[i - 1]);
                }
            }
        } else {
            joining_one_more(current, words[0]);
            wrapping_keeps_every_word(rest, current.push(words[0]));
            assert(current.push(words[0]) + rest =~= current + words);
        }
    }
}

/// What a commit's subject is composed from.
#[derive(Clone, Debug)]
pub struct SubjectParts {
    pub kind: String,
    pub scope: String,
    pub subject: String,
}

/// The first line of a text that is not blank.
pub open spec fn first_written(lines: Seq<Seq<char>>) -> Option<Seq<char>>
    decreases lines.len(),
{
    if lines.len() == 0 {
        None
    } else if !text::blank(lines[0]) {
        Some(lines[0])
    } else {
        first_written(lines.drop_first())
    }
}

/// What a commit's subject is composed from: what the implementer said of its own change, or, where
/// it reported nothing usable, the issue's first written line as a chore.
pub fn subject_parts(issue: &str, out: &ImplementerOutput) -> (r: SubjectParts)
    ensures
        if !text::blank(out.commit_subject@) {
            &&& r.kind@ == out.commit_kind@
            &&& r.scope@ == out.commit_scope@
            &&& r.subject@ == out.commit_subject@
        } else {
            &&& r.kind@ == "chore"@
            &&& r.scope@.len() == 0
            &&& r.subject@ == (match first_written(text::lines(issue@)) {
                Some(line) => line,
                None => "a change"@,
            })
        },
{
    if !text::is_blank(out.commit_subject.as_str()) {
        return SubjectParts {
            kind: out.commit_kind.clone(),
            scope: out.commit_scope.clone(),
            subject: out.commit_subject.clone(),
        };
    }
    let lines = text::split_lines(issue);
    let ghost all = text::views(lines@);
    let mut subject = "a change".to_owned();
    let mut i: usize = 0;
    let mut found: bool = false;
    assert(all.skip(0) =~= all);
    while i < lines.len() && !found
        invariant
            i <= lines@.len(),
            all == text::views(lines@),
            found ==> first_written(all) == Some(subject@),
            !found ==> first_written(all) == first_written(all.skip(i as int)) && subject@
                == "a change"@,
        decreases lines@.len() - i + (if found { 0int } else { 1int }),
    {
        assert(all.skip(i as int)[0] == all[i as int]);
        assert(all.skip(i as int).drop_first() =~= all.skip(i + 1));
        if !text::is_blank(lines[i].as_str()) {
            subject = lines[i].clone();
            found = true;
        } else {
            i += 1;
        }
    }
    SubjectParts { kind: "chore".to_owned(), scope: String::new(), subject }
}

/// The message a commit carries.
pub open spec fn message(subject: Seq<char>, narrative: Option<String>) -> Seq<char> {
    match narrative {
        Some(said) if !text::blank(said@) => subject + ("\n\n"@ + text::joined(
            rewrapped(text::lines(text::trimmed(said@))),
            "\n"@,
        )),
        _ => subject,
    }
}

/// The message a run's commit carries: the subject as it was rendered, and as its body the
/// implementer's own account of what it changed and why, wrapped. An implementer that reported
/// nothing gets a subject with no body.
pub fn commit_message(subject: &str, out: &ImplementerOutput) -> (r: String)
    ensures
        r@ == message(subject@, out.narrative),
{
    let mut m = subject.to_owned();
    if let Some(said) = &out.narrative {
        if !text::is_blank(said.as_str()) {
            let mut body = "\n\n".to_owned();
            body.append(wrapped(text::trim(said.as_str()).as_str()).as_str());
            m.append(body.as_str());
        }
    }
    m
}

/// A line begins a list item exactly when, after the space it starts with, there is a dash, a star or a
/// bullet; or at least one digit and nothing but digits up to a full stop.
pub proof fn a_list_item_starts_with_a_mark_or_a_number(line: Seq<char>)
    ensures
        list_item(line) <==> {
            let t = text::trimmed_start(line);
            ||| t.len() > 0 && (t[0] == '-' || t[0] == '*' || t[0] == '•')
            ||| exists|n: int|
                {
                    &&& 0 < n < t.len()
                    &&& #[trigger] t[n] == '.'
                    &&& forall|i: int| 0 <= i < n ==> '0' <= #[trigger] t[i] && t[i] <= '9'
                }
        },
{
    let t = text::trimmed_start(line);
    let n = stop_at(t);
    stop_is_first(t);
    if 0 < n < t.len() && digits(t.take(n)) {
        assert forall|i: int| 0 <= i < n implies '0' <= #[trigger] t[i] && t[i] <= '9' by {
            assert(t.take(n)[i] == t[i]);
        }
        assert(t[n] == '.');
    }
    if exists|m: int|
        {
            &&& 0 < m < t.len()
            &&& #[trigger] t[m] == '.'
            &&& forall|i: int| 0 <= i < m ==> '0' <= #[trigger] t[i] && t[i] <= '9'
        } {
        let m = choose|m: int|
            {
                &&& 0 < m < t.len()
                &&& #[trigger] t[m] == '.'
                &&& forall|i: int| 0 <= i < m ==> '0' <= #[trigger] t[i] && t[i] <= '9'
            };
        if n < m {
            assert('0' <= t[n]);
        }
        assert(n == m);
        assert forall|i: int| 0 <= i < n implies '0' as int <= #[trigger] t.take(n)[i] as int
            <= '9' as int by {
            assert(t.take(n)[i] == t[i]);
        }
    }
}

proof fn stop_is_first(s: Seq<char>)
    ensures
        0 <= stop_at(s) <= s.len(),
        stop_at(s) < s.len() ==> s[stop_at(s)] == '.',
        forall|j: int| 0 <= j < stop_at(s) ==> s[j] != '.',
    decreases s.len(),
{
    if s.len() > 0 && s[0] != '.' {
        let rest = s.drop_first();
        stop_is_first(rest);
        assert forall|j: int| 0 <= j < stop_at(s) implies s[j] != '.' by {
            if j > 0 {
                assert(rest[j - 1] == s[j]);
            }
        }
    }
}

proof fn the_first_line_starts_with_the_first_word(
    words: Seq<Seq<char>>,
    current: Seq<Seq<char>>,
)
    requires
        current.len() + words.len() > 0,
    ensures
        gathered(words, current).len() > 0,
        gathered(words, current)[0].len() > 0,
        gathered(words, current)[0][0] == (current + words)[0],
    decreases words.len(),
{
    if words.len() > 0 && !(current.len() > 0 && text::joined(current, " "@).len() + 1
        + words[0].len() > BODY_WIDTH) {
        the_first_line_starts_with_the_first_word(words.drop_first(), current.push(words[0]));
        assert((current.push(words[0]) + words.drop_first())[0] == (current + words)[0]);
    }
}

/// A line is never broken early: where one ends, the word that starts the next would not have fitted
/// within the seventy-two characters of a line.
pub proof fn a_line_is_filled_before_the_next_begins(
    words: Seq<Seq<char>>,
    current: Seq<Seq<char>>,
    i: int,
)
    requires
        0 <= i < gathered(words, current).len() - 1,
    ensures
        gathered(words, current)[i + 1].len() > 0,
        text::joined(gathered(words, current)[i], " "@).len() + 1 + gathered(
            words,
            current,
        )[i + 1][0].len() > 72,
    decreases words.len(),
{
    if words.len() > 0 {
        let rest = words.drop_first();
        if current.len() > 0 && text::joined(current, " "@).len() + 1 + words[0].len() > BODY_WIDTH {
            let all = gathered(words, current);
            let later = gathered(rest, seq![words[0]]);
            assert(all == seq![current] + later);
            assert(all[i + 1] == later[i]);
            if i == 0 {
                the_first_line_starts_with_the_first_word(rest, seq![words[0]]);
                assert((seq![words[0]] + rest)[0] == words[0]);
                assert(all[0] == current);
            } else {
                assert(all[i] == later[i - 1]);
                a_line_is_filled_before_the_next_begins(rest, seq![words[0]], i - 1);
            }
        } else {
            a_line_is_filled_before_the_next_begins(rest, current.push(words[0]), i);
        }
    }
}

/// What becomes of one line: without the space it ends with it stays as it is where it is at most
/// seventy-two characters or begins a list item, and otherwise its words are put into lines.
pub proof fn a_short_line_or_a_list_item_is_left_alone(line: Seq<char>)
    ensures
        ({
            let t = text::trimmed_end(line);
            &&& t.len() <= 72 || list_item(t) ==> rewrapped_line(line) == seq![t]
            &&& t.len() > 72 && !list_item(t) ==> {
                let groups = gathered(text::words(t), Seq::empty());
                &&& rewrapped_line(line).len() == groups.len()
                &&& forall|i: int|
                    0 <= i < groups.len() ==> #[trigger] rewrapped_line(line)[i] == text::joined(
                        groups[i],
                        " "@,
                    )
            }
        }),
{
}

/// The first line of a list that is not blank is found, wherever it stands, and nothing is exactly
/// where all are blank.
pub proof fn the_first_written_line_is_found(lines: Seq<Seq<char>>, i: int)
    requires
        0 <= i <= lines.len(),
        forall|j: int| 0 <= j < i ==> text::blank(#[trigger] lines[j]),
        i < lines.len() ==> !text::blank(lines[i]),
    ensures
        i < lines.len() ==> first_written(lines) == Some(lines[i]),
        i == lines.len() ==> first_written(lines) is None,
    decreases lines.len(),
{
    if i > 0 {
        let rest = lines.drop_first();
        assert(text::blank(lines[0]));
        assert forall|j: int| 0 <= j < i - 1 implies text::blank(#[trigger] rest[j]) by {
            assert(rest[j] == lines[j + 1]);
        }
        the_first_written_line_is_found(rest, i - 1);
    }
}

/// A message is its subject alone exactly where there is nothing to add, and otherwise its subject, a
/// blank line, and every line of what was said, rewrapped.
pub proof fn a_message_has_a_body_where_something_was_said(
    subject: Seq<char>,
    narrative: Option<String>,
)
    ensures
        subject.is_prefix_of(message(subject, narrative)),
        narrative is None || text::blank(narrative->0@) ==> message(subject, narrative) == subject,
        narrative is Some && !text::blank(narrative->0@) ==> message(subject, narrative) == subject
            + "\n\n"@ + text::joined(
            rewrapped(text::lines(text::trimmed(narrative->0@))),
            "\n"@,
        ),
{
    if narrative is Some && !text::blank(narrative->0@) {
        let body = text::joined(rewrapped(text::lines(text::trimmed(narrative->0@))), "\n"@);
        assert(subject + ("\n\n"@ + body) =~= subject + "\n\n"@ + body);
    }
    assert(message(subject, narrative).subrange(0, subject.len() as int) =~= subject);
}

/// Every line is rewrapped on its own, in order, and none is lost.
pub proof fn every_line_is_rewrapped_on_its_own(a: Seq<Seq<char>>, b: Seq<Seq<char>>, line: Seq<char>)
    ensures
        rewrapped(a + b) == rewrapped(a) + rewrapped(b),
        rewrapped(seq![line]) == rewrapped_line(line),
    decreases b.len(),
{
    let one = seq![line];
    assert(one.drop_last() =~= Seq::empty());
    assert(rewrapped(one.drop_last()) =~= Seq::empty());
    assert(rewrapped(one) =~= rewrapped_line(line));
    if b.len() == 0 {
        assert(a + b =~= a);
        assert(rewrapped(a) + rewrapped(b) =~= rewrapped(a));
    } else {
        assert((a + b).drop_last() =~= a + b.drop_last());
        assert((a + b).last() == b.last());
        every_line_is_rewrapped_on_its_own(a, b.drop_last(), line);
        assert(rewrapped(a + b) =~= rewrapped(a) + rewrapped(b));
    }
}

} // verus!
