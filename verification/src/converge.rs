//! Converge: decide whether the implementer's change is done. Pure data comparison.
//!
//! The signal is *newly-introduced* failures: tests failing after the change that were not failing
//! in the baseline. A pre-existing failure is not the implementer's problem; a new one is.

use vstd::prelude::*;
use vstd::string::StringExecFns;

use crate::implementer::AcceptanceResult;
use crate::lists;
use crate::text;

verus! {

broadcast use vstd::string::group_string_axioms;

/// The tests of a list that are in another.
pub open spec fn among(list: Seq<String>, of: Seq<String>) -> Seq<String> {
    list.filter(|test: String| text::views(of).contains(test@))
}

/// The tests of a list that are not in another.
pub open spec fn not_among(list: Seq<String>, of: Seq<String>) -> Seq<String> {
    list.filter(|test: String| !text::views(of).contains(test@))
}

/// Tests failing after the change that were not failing in the baseline, in the order they failed.
pub fn newly_introduced_failures(baseline_failing: &[String], post_failing: &[String]) -> (r: Vec<
    String,
>)
    ensures
        r@ == not_among(post_failing@, baseline_failing@),
        r@.len() == 0 <==> forall|i: int|
            0 <= i < post_failing@.len() ==> text::named(
                baseline_failing@,
                (#[trigger] post_failing@[i])@,
            ),
{
    let mut out: Vec<String> = Vec::new();
    let ghost of = baseline_failing@;
    let ghost keep = |test: String| !text::views(of).contains(test@);
    let mut i: usize = 0;
    assert(post_failing@.take(0).filter(keep) =~= Seq::empty()) by {
        reveal(Seq::filter);
    }
    while i < post_failing.len()
        invariant
            i <= post_failing@.len(),
            of == baseline_failing@,
            keep == (|test: String| !text::views(of).contains(test@)),
            out@ == post_failing@.take(i as int).filter(keep),
        decreases post_failing@.len() - i,
    {
        if !text::contains(baseline_failing, post_failing[i].as_str()) {
            out.push(post_failing[i].clone());
        }
        i += 1;
        proof {
            reveal(Seq::filter);
            assert(post_failing@.take(i as int).drop_last() =~= post_failing@.take(i - 1));
            assert(post_failing@.take(i as int).last() == post_failing@[i - 1]);
        }
    }
    assert(post_failing@.take(i as int) =~= post_failing@);
    proof {
        new_failures_are_those_the_baseline_lacks(baseline_failing@, post_failing@);
        nothing_is_new_when_all_failed_before(baseline_failing@, post_failing@);
    }
    out
}

/// Authored tests that are still failing after the change, in the order they were written.
///
/// These need their own gate. They were written before the code, so they fail in the baseline as a
/// matter of course, and [`is_converged`] asks only whether anything *newly* fails. A test written
/// to specify the change is the one test the change is not allowed to leave failing.
pub fn unsatisfied(authored: &[String], post_failing: &[String]) -> (r: Vec<String>)
    ensures
        r@ == among(authored@, post_failing@),
{
    let mut out: Vec<String> = Vec::new();
    let ghost of = post_failing@;
    let ghost keep = |test: String| text::views(of).contains(test@);
    let mut i: usize = 0;
    assert(authored@.take(0).filter(keep) =~= Seq::empty()) by {
        reveal(Seq::filter);
    }
    while i < authored.len()
        invariant
            i <= authored@.len(),
            of == post_failing@,
            keep == (|test: String| text::views(of).contains(test@)),
            out@ == authored@.take(i as int).filter(keep),
        decreases authored@.len() - i,
    {
        if text::contains(post_failing, authored[i].as_str()) {
            out.push(authored[i].clone());
        }
        i += 1;
        proof {
            reveal(Seq::filter);
            assert(authored@.take(i as int).drop_last() =~= authored@.take(i - 1));
            assert(authored@.take(i as int).last() == authored@[i - 1]);
        }
    }
    assert(authored@.take(i as int) =~= authored@);
    out
}

/// A change converged: it exists, and nothing fails after it that did not fail before.
pub open spec fn converged(
    produced_change: bool,
    baseline_failing: Seq<String>,
    post_failing: Seq<String>,
) -> bool {
    produced_change && forall|i: int|
        0 <= i < post_failing.len() ==> text::views(baseline_failing).contains(
            (#[trigger] post_failing[i])@,
        )
}

/// Whether the change converged: it introduced no new failures.
///
/// An implementer that wrote nothing ran no suite, and the empty failing set standing in for its
/// result introduces no new failures by construction. A change that does not exist has not
/// converged; it has not happened.
pub fn is_converged(
    produced_change: bool,
    baseline_failing: &[String],
    post_failing: &[String],
) -> (r: bool)
    ensures
        r == converged(produced_change, baseline_failing@, post_failing@),
        r <==> produced_change && forall|i: int|
            0 <= i < post_failing@.len() ==> text::named(
                baseline_failing@,
                (#[trigger] post_failing@[i])@,
            ),
{
    let new = newly_introduced_failures(baseline_failing, post_failing);
    proof {
        let keep = |test: String| !text::views(baseline_failing@).contains(test@);
        assert(new@ == post_failing@.filter(keep));
        post_failing@.filter_lemma(keep);
        if new@.len() > 0 {
            assert(keep(new@[0]));
            assert(new@.contains(new@[0]));
            post_failing@.lemma_filter_contains_rev(keep, new@[0]);
            let k = choose|k: int| 0 <= k < post_failing@.len() && post_failing@[k] == new@[0];
            assert(!text::views(baseline_failing@).contains(post_failing@[k]@));
        } else {
            assert forall|i: int| 0 <= i < post_failing@.len() implies text::views(
                baseline_failing@,
            ).contains((#[trigger] post_failing@[i])@) by {
                if keep(post_failing@[i]) {
                    assert(new@.contains(post_failing@[i]));
                }
            }
        }
    }
    proof {
        convergence_is_failing_nothing_new(produced_change, baseline_failing@, post_failing@);
    }
    produced_change && new.len() == 0
}

/// Whether a test run actually produced results. Nothing failing, nothing passing *and* a non-zero
/// exit means the command did not run to completion, NOT "no failures".
///
/// `produced_change` is asked for because an implementer that wrote nothing has no acceptance run at
/// all, and the zeros standing in for its result read as a command that exited cleanly.
pub fn test_command_ran(produced_change: bool, failing: &[String], passed: usize, exit_code: i32) -> (r:
    bool)
    ensures
        r == (produced_change && (failing@.len() > 0 || passed > 0 || exit_code == 0)),
{
    produced_change && (failing.len() > 0 || passed > 0 || exit_code == 0)
}

/// A path without the slashes at its end.
pub open spec fn without_slashes(path: Seq<char>) -> Seq<char>
    decreases path.len(),
{
    if path.len() > 0 && path.last() == '/' {
        without_slashes(path.drop_last())
    } else {
        path
    }
}

/// Being at or under a prefix, by segment.
pub open spec fn at_or_under(path: Seq<char>, prefix: Seq<char>) -> bool {
    let dir = without_slashes(prefix);
    path == dir || dir.push('/').is_prefix_of(path)
}

/// Whether `path` is at or under `prefix`, by segment, so that exempting `tests` does not also
/// exempt `tests_helper.rs`.
pub fn under(path: &str, prefix: &str) -> (r: bool)
    ensures
        r == at_or_under(path@, prefix@),
{
    let chars = text::chars_of(prefix);
    let mut n: usize = chars.len();
    assert(chars@.take(n as int) =~= chars@);
    while n > 0 && chars[n - 1] == '/'
        invariant
            n <= chars@.len(),
            without_slashes(chars@.take(n as int)) == without_slashes(chars@),
        decreases n,
    {
        assert(chars@.take(n as int).drop_last() =~= chars@.take(n - 1));
        n -= 1;
    }
    let dir = text::string_of(vstd::slice::slice_subrange(chars.as_slice(), 0, n));
    assert(chars@.subrange(0, n as int) =~= chars@.take(n as int));
    if text::same(path, dir.as_str()) {
        return true;
    }
    let mut below = dir;
    below.push('/');
    text::starts_with(path, below.as_str())
}

/// Whether a path is exempt: at or under one of the exempted prefixes.
pub open spec fn exempted(path: Seq<char>, exempt: Seq<String>) -> bool {
    exists|i: int| 0 <= i < exempt.len() && at_or_under(path, (#[trigger] exempt[i])@)
}

fn is_exempted(path: &str, exempt: &[String]) -> (r: bool)
    ensures
        r == exempted(path@, exempt@),
{
    let mut i: usize = 0;
    while i < exempt.len()
        invariant
            i <= exempt@.len(),
            forall|j: int| 0 <= j < i ==> !at_or_under(path@, (#[trigger] exempt@[j])@),
        decreases exempt@.len() - i,
    {
        if under(path, exempt[i].as_str()) {
            return true;
        }
        i += 1;
    }
    false
}

/// The files that are not exempt.
pub open spec fn candidates(rewritten: Seq<String>, exempt: Seq<String>) -> Seq<String> {
    rewritten.filter(|path: String| !exempted(path@, exempt))
}

/// Files whose diff removed or replaced existing lines and are not exempted by the task's up-front
/// declaration. The model referee judges these candidates; this deterministic half intentionally has
/// no language-specific path rules.
pub fn referee_candidates(rewritten: &[String], exempt: &[String]) -> (r: Vec<String>)
    ensures
        r@ == candidates(rewritten@, exempt@),
{
    let mut out: Vec<String> = Vec::new();
    let ghost dirs = exempt@;
    let ghost keep = |path: String| !exempted(path@, dirs);
    let mut i: usize = 0;
    assert(rewritten@.take(0).filter(keep) =~= Seq::empty()) by {
        reveal(Seq::filter);
    }
    while i < rewritten.len()
        invariant
            i <= rewritten@.len(),
            dirs == exempt@,
            keep == (|path: String| !exempted(path@, dirs)),
            out@ == rewritten@.take(i as int).filter(keep),
        decreases rewritten@.len() - i,
    {
        if !is_exempted(rewritten[i].as_str(), exempt) {
            out.push(rewritten[i].clone());
        }
        i += 1;
        proof {
            reveal(Seq::filter);
            assert(rewritten@.take(i as int).drop_last() =~= rewritten@.take(i - 1));
            assert(rewritten@.take(i as int).last() == rewritten@[i - 1]);
        }
    }
    assert(rewritten@.take(i as int) =~= rewritten@);
    out
}

/// A failure is new exactly when no test of the baseline has its name: whatever its place in the
/// list, it is reported, in its order and as often as it failed; and nothing else is.
pub proof fn new_failures_are_those_the_baseline_lacks(
    baseline: Seq<String>,
    post_failing: Seq<String>,
)
    ensures
        lists::kept(
            not_among(post_failing, baseline),
            post_failing,
            |test: String|
                forall|j: int| 0 <= j < baseline.len() ==> (#[trigger] baseline[j])@ != test@,
        ),
{
    let keep = |test: String| !text::views(baseline).contains(test@);
    let stays = |test: String|
        forall|j: int| 0 <= j < baseline.len() ==> (#[trigger] baseline[j])@ != test@;
    assert forall|i: int| 0 <= i < post_failing.len() implies keep(#[trigger] post_failing[i])
        == stays(post_failing[i]) by {
        text::named_somewhere(baseline, post_failing[i]@);
    }
    lists::a_filter_keeps(post_failing, keep, stays);
}

/// An authored test is unsatisfied exactly when a failing test has its name.
pub proof fn unsatisfied_tests_are_those_that_fail(
    authored: Seq<String>,
    post_failing: Seq<String>,
)
    ensures
        lists::kept(
            among(authored, post_failing),
            authored,
            |test: String|
                exists|j: int|
                    0 <= j < post_failing.len() && (#[trigger] post_failing[j])@ == test@,
        ),
{
    let keep = |test: String| text::views(post_failing).contains(test@);
    let stays = |test: String|
        exists|j: int| 0 <= j < post_failing.len() && (#[trigger] post_failing[j])@ == test@;
    assert forall|i: int| 0 <= i < authored.len() implies keep(#[trigger] authored[i]) == stays(
        authored[i],
    ) by {
        text::named_somewhere(post_failing, authored[i]@);
    }
    lists::a_filter_keeps(authored, keep, stays);
}

/// Nothing is new exactly when every failure, at every place, was a failure of the baseline.
pub proof fn nothing_is_new_when_all_failed_before(
    baseline: Seq<String>,
    post_failing: Seq<String>,
)
    ensures
        not_among(post_failing, baseline).len() == 0 <==> forall|i: int|
            0 <= i < post_failing.len() ==> text::named(
                baseline,
                (#[trigger] post_failing[i])@,
            ),
{
    let new = not_among(post_failing, baseline);
    let stays = |test: String|
        forall|j: int| 0 <= j < baseline.len() ==> (#[trigger] baseline[j])@ != test@;
    new_failures_are_those_the_baseline_lacks(baseline, post_failing);
    assert(lists::kept(new, post_failing, stays));
    if new.len() == 0 {
        assert forall|i: int| 0 <= i < post_failing.len() implies text::named(
            baseline,
            (#[trigger] post_failing[i])@,
        ) by {
            lists::kept_is_membership(new, post_failing, stays, post_failing[i]);
            assert(post_failing.contains(post_failing[i]));
            assert(!stays(post_failing[i]));
        }
    } else {
        lists::kept_is_membership(new, post_failing, stays, new[0]);
        assert(new.contains(new[0]));
        let i = choose|i: int| 0 <= i < post_failing.len() && post_failing[i] == new[0];
        assert(stays(post_failing[i]));
    }
}

/// A change converged exactly when it was made and no failure is new: every test that fails after
/// it, at every place of the list, is named in the baseline.
pub proof fn convergence_is_failing_nothing_new(
    produced_change: bool,
    baseline: Seq<String>,
    post_failing: Seq<String>,
)
    ensures
        converged(produced_change, baseline, post_failing) <==> produced_change && not_among(
            post_failing,
            baseline,
        ).len() == 0,
        converged(produced_change, baseline, post_failing) <==> produced_change && forall|i: int|
            0 <= i < post_failing.len() ==> text::named(
                baseline,
                (#[trigger] post_failing[i])@,
            ),
{
    nothing_is_new_when_all_failed_before(baseline, post_failing);
    assert forall|i: int| 0 <= i < post_failing.len() implies text::views(baseline).contains(
        (#[trigger] post_failing[i])@,
    ) == text::named(baseline, post_failing[i]@) by {
        text::named_somewhere(baseline, post_failing[i]@);
    }
}

/// Convergence does not depend on the order the failing tests are listed in, nor on how often one is:
/// two lists of the same tests converge together.
pub proof fn convergence_ignores_the_order_of_failures(
    produced_change: bool,
    baseline: Seq<String>,
    post_failing: Seq<String>,
    reordered: Seq<String>,
)
    requires
        forall|test: String| post_failing.contains(test) <==> reordered.contains(test),
    ensures
        converged(produced_change, baseline, post_failing) == converged(
            produced_change,
            baseline,
            reordered,
        ),
{
    convergence_is_failing_nothing_new(produced_change, baseline, post_failing);
    convergence_is_failing_nothing_new(produced_change, baseline, reordered);
    assert forall|i: int| 0 <= i < post_failing.len() implies reordered.contains(
        #[trigger] post_failing[i],
    ) by {
        assert(post_failing.contains(post_failing[i]));
    }
    assert forall|i: int| 0 <= i < reordered.len() implies post_failing.contains(
        #[trigger] reordered[i],
    ) by {
        assert(reordered.contains(reordered[i]));
    }
}

/// What it is to be at or under a prefix: the prefix less its trailing slashes is the whole path, or
/// is all of the path before one of its slashes.
pub proof fn being_under_is_sharing_whole_segments(path: Seq<char>, prefix: Seq<char>)
    ensures
        at_or_under(path, prefix) <==> exists|n: int|
            {
                &&& 0 <= n <= prefix.len()
                &&& n == 0 || prefix[n - 1] != '/'
                &&& forall|i: int| n <= i < prefix.len() ==> prefix[i] == '/'
                &&& n <= path.len()
                &&& path.take(n) == #[trigger] prefix.take(n)
                &&& path.len() == n || path[n] == '/'
            },
{
    let dir = without_slashes(prefix);
    let n = dir.len() as int;
    slashes_are_at_the_end(prefix);
    assert(dir == prefix.take(n));
    if at_or_under(path, prefix) {
        if path == dir {
            assert(path.take(n) =~= path);
        } else {
            let below = dir.push('/');
            assert(path.take(n) =~= dir) by {
                assert forall|i: int| 0 <= i < n implies path[i] == dir[i] by {
                    assert(path.take(below.len() as int)[i] == below[i]);
                }
            }
            assert(path.take(below.len() as int)[n] == below[n]);
        }
        assert(path.take(n) == prefix.take(n));
    }
    if exists|m: int|
        {
            &&& 0 <= m <= prefix.len()
            &&& m == 0 || prefix[m - 1] != '/'
            &&& forall|i: int| m <= i < prefix.len() ==> prefix[i] == '/'
            &&& m <= path.len()
            &&& path.take(m) == #[trigger] prefix.take(m)
            &&& path.len() == m || path[m] == '/'
        } {
        let m = choose|m: int|
            {
                &&& 0 <= m <= prefix.len()
                &&& m == 0 || prefix[m - 1] != '/'
                &&& forall|i: int| m <= i < prefix.len() ==> prefix[i] == '/'
                &&& m <= path.len()
                &&& path.take(m) == #[trigger] prefix.take(m)
                &&& path.len() == m || path[m] == '/'
            };
        assert(m == n);
        if path.len() == n {
            assert(path =~= path.take(n));
        } else {
            assert(path.take(n + 1) =~= dir.push('/'));
        }
    }
}

proof fn slashes_are_at_the_end(prefix: Seq<char>)
    ensures
        without_slashes(prefix).len() <= prefix.len(),
        without_slashes(prefix) == prefix.take(without_slashes(prefix).len() as int),
        without_slashes(prefix).len() == 0 || without_slashes(prefix).last() != '/',
        forall|i: int| without_slashes(prefix).len() <= i < prefix.len() ==> prefix[i] == '/',
    decreases prefix.len(),
{
    if prefix.len() > 0 && prefix.last() == '/' {
        let front = prefix.drop_last();
        slashes_are_at_the_end(front);
        let n = without_slashes(front).len() as int;
        assert(front.take(n) =~= prefix.take(n));
        assert forall|i: int| n <= i < prefix.len() implies prefix[i] == '/' by {
            if i < front.len() {
                assert(front[i] == prefix[i]);
            }
        }
    } else {
        assert(prefix =~= prefix.take(prefix.len() as int));
    }
}

/// A rewritten file is judged exactly when it is at or under none of the declared exemptions,
/// whichever of them it is: the others stay, in their order.
pub proof fn candidates_are_under_no_exemption(rewritten: Seq<String>, exempt: Seq<String>)
    ensures
        lists::kept(
            candidates(rewritten, exempt),
            rewritten,
            |path: String|
                forall|i: int|
                    0 <= i < exempt.len() ==> !at_or_under(path@, (#[trigger] exempt[i])@),
        ),
{
    let keep = |path: String| !exempted(path@, exempt);
    let stays = |path: String|
        forall|i: int| 0 <= i < exempt.len() ==> !at_or_under(path@, (#[trigger] exempt[i])@);
    lists::a_filter_keeps(rewritten, keep, stays);
}

/// An exemption takes its files out wherever it stands in the list, and no exemption ever makes a
/// file a candidate that was none.
pub proof fn every_exemption_counts(
    rewritten: Seq<String>,
    exempt: Seq<String>,
    more: Seq<String>,
    path: String,
)
    requires
        forall|prefix: String| exempt.contains(prefix) ==> more.contains(prefix),
    ensures
        candidates(rewritten, exempt).contains(path) <==> rewritten.contains(path) && forall|i: int|
            0 <= i < exempt.len() ==> !at_or_under(path@, (#[trigger] exempt[i])@),
        candidates(rewritten, more).contains(path) ==> candidates(rewritten, exempt).contains(path),
{
    let free = |list: Seq<String>|
        |path: String|
            forall|i: int| 0 <= i < list.len() ==> !at_or_under(path@, (#[trigger] list[i])@);
    candidates_are_under_no_exemption(rewritten, exempt);
    candidates_are_under_no_exemption(rewritten, more);
    lists::kept_is_membership(candidates(rewritten, exempt), rewritten, free(exempt), path);
    lists::kept_is_membership(candidates(rewritten, more), rewritten, free(more), path);
    if candidates(rewritten, more).contains(path) {
        assert forall|i: int| 0 <= i < exempt.len() implies !at_or_under(
            path@,
            (#[trigger] exempt[i])@,
        ) by {
            assert(exempt.contains(exempt[i]));
            let k = choose|k: int| 0 <= k < more.len() && more[k] == exempt[i];
            assert(!at_or_under(path@, more[k]@));
        }
    }
}

/// A change that was never made has not converged and ran no suite, whatever its empty result looks
/// like.
pub proof fn a_missing_change_never_converges(
    baseline_failing: Seq<String>,
    post_failing: Seq<String>,
)
    ensures
        !converged(false, baseline_failing, post_failing),
{
}

/// Convergence is about new failures alone: it depends on which tests failed before, never on their
/// order or how often they are named, and a failure more in the baseline never turns a converged
/// change into one that is not.
pub proof fn convergence_follows_the_baseline_set(
    produced_change: bool,
    baseline: Seq<String>,
    larger: Seq<String>,
    post_failing: Seq<String>,
)
    requires
        forall|name: Seq<char>| #[trigger]
            text::views(baseline).contains(name) ==> text::views(larger).contains(name),
        converged(produced_change, baseline, post_failing),
    ensures
        converged(produced_change, larger, post_failing),
{
}

/// An exemption holds at a segment boundary only: a path that merely starts with the same characters
/// is still a candidate.
pub proof fn exemption_is_segment_boundaried(dir: Seq<char>, rest: Seq<char>)
    requires
        dir.len() > 0,
        dir.last() != '/',
        rest.len() > 0,
        rest[0] != '/',
    ensures
        at_or_under(dir, dir),
        at_or_under(dir.push('/') + rest, dir),
        !at_or_under(dir + rest, dir),
{
    assert(without_slashes(dir) == dir);
    assert(dir.push('/') =~= (dir.push('/') + rest).subrange(0, dir.push('/').len() as int));
    let path = dir + rest;
    assert(path.len() > dir.len());
    if dir.push('/').is_prefix_of(path) {
        assert(path.subrange(0, dir.push('/').len() as int)[dir.len() as int] == rest[0]);
    }
}

/// Whether an attempt converged against a baseline, from the result it carries. No result means no
/// change was made, and that has not converged.
pub fn acceptance_converged(baseline_failing: &[String], acceptance: &Option<AcceptanceResult>) -> (r:
    bool)
    ensures
        r == (acceptance matches Some(result) && converged(
            true,
            baseline_failing@,
            result.failing_tests@,
        )),
{
    match acceptance {
        Some(result) => is_converged(true, baseline_failing, result.failing_tests.as_slice()),
        None => false,
    }
}

/// Whether an attempt's checks actually ran, from the result it carries.
pub fn acceptance_ran(acceptance: &Option<AcceptanceResult>) -> (r: bool)
    ensures
        r == (acceptance matches Some(result) && (result.failing_tests@.len() > 0
            || result.passed_tests > 0 || result.exit_code == 0)),
{
    match acceptance {
        Some(result) => test_command_ran(
            true,
            result.failing_tests.as_slice(),
            result.passed_tests,
            result.exit_code,
        ),
        None => false,
    }
}

} // verus!
