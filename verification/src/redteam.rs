//! Red-team: characterize the baseline test run, and write the tests the change is judged against.
//!
//! No model in the core path: the repo's tests run in a worktree of their own, and pass/fail is read
//! from them deterministically. That is what converge compares the implementer's run against. An
//! optional classifier labels each baseline failure flaky or real, and an optional author writes
//! tests before any code exists to satisfy them; neither touches the strict pass/fail.

use vstd::prelude::*;
use vstd::string::StringExecFns;

use crate::analyst::InterfaceItem;
use crate::config::Capability;
use crate::error::NodeError;
use crate::implementer::StageResources;
use crate::testrun;
use crate::testrun::CharacterizerOutput;
use crate::testrun::StepOutcome;
use crate::testrun::TestResults;
use crate::lists;
use crate::text;

verus! {

broadcast use vstd::string::group_string_axioms;

/// One baseline failure's classification. Additive context, not part of the strict pass/fail.
#[derive(Clone, Debug)]
pub struct FailureClassification {
    pub test: String,
    /// "flaky" or "real"; anything else is treated as unknown.
    pub category: String,
    pub reason: String,
}

/// The classifier's output.
#[derive(Clone, Debug)]
pub struct Classification {
    pub classifications: Vec<FailureClassification>,
}

/// What the classifier is given.
#[derive(Clone, Debug)]
pub struct ClassifierInput {
    pub failing: Vec<String>,
    pub raw_output: String,
}

/// What the test author is given.
#[derive(Clone, Debug)]
pub struct TestAuthorInput {
    pub issue: String,
    pub interface: Vec<InterfaceItem>,
}

/// Deterministic baseline characterization, built from a real test run. `classifications` is empty
/// unless a classifier ran.
#[derive(Clone, Debug)]
pub struct RedTeamOutput {
    /// Tests written for this change before the code was.
    pub authored: Option<AuthoredTests>,
    pub failing_tests: Vec<String>,
    /// How many checks passed. Only the count is carried: nothing reads a passing check's name.
    pub passed_tests: usize,
    pub exit_code: i32,
    pub classifications: Vec<FailureClassification>,
}

/// What the red team wrote, and what it says those tests cover.
#[derive(Clone, Debug)]
pub struct AuthoredTests {
    /// Files written or extended, as repository-relative paths.
    pub files: Vec<String>,
    /// The tests written, named as the test runner will report them. A test written before the code
    /// fails in the baseline by construction, so naming them is what lets the run require them to
    /// pass.
    pub tests: Vec<String>,
    /// One line per file on what it covers, or why nothing was written.
    pub covers: String,
    /// Authored tests that did **not** fail on the baseline, and so gate nothing. Kept rather than
    /// discarded because the fallback has to be *said*.
    pub unproven: Vec<String>,
}

/// The tests of a list that failed in a run.
pub open spec fn failing_in(tests: Seq<String>, run: RedTeamOutput) -> Seq<String> {
    tests.filter(|test: String| text::views(run.failing_tests@).contains(test@))
}

/// The tests of a list that did not fail in a run.
pub open spec fn passing_in(tests: Seq<String>, run: RedTeamOutput) -> Seq<String> {
    tests.filter(|test: String| !text::views(run.failing_tests@).contains(test@))
}

/// Whether putting the authored files in stopped a suite that ran from running at all.
pub open spec fn broke_the_build(seeded: RedTeamOutput, clean: RedTeamOutput) -> bool {
    clean.passed_tests > 0 && seeded.passed_tests == 0
}

/// The authored tests as a proving run leaves them.
pub open spec fn proven(
    before: AuthoredTests,
    seeded: RedTeamOutput,
    clean: RedTeamOutput,
    after: AuthoredTests,
) -> bool {
    &&& after.files == before.files
    &&& after.covers == before.covers
    &&& if broke_the_build(seeded, clean) {
        after == before
    } else {
        &&& after.tests@ == failing_in(before.tests@, seeded)
        &&& after.unproven@ == before.unproven@ + passing_in(before.tests@, seeded)
    }
}

/// The authored tests where nothing could be proven.
pub open spec fn unproved(before: AuthoredTests, after: AuthoredTests) -> bool {
    &&& after.files == before.files
    &&& after.covers == before.covers
    &&& after.tests@.len() == 0
    &&& after.unproven@ == before.unproven@ + before.tests@
}

impl AuthoredTests {
    /// Keep only the tests the proving run showed fail without the change.
    ///
    /// `seeded` is the pass that had these files copied in; `clean` is the pass that never saw them.
    /// A suite that ran clean and then ran nothing at all with these files in it had its build
    /// broken by them: that is proof, not absence, as a test that cannot compile certainly does not
    /// pass without the change.
    pub fn proven_by(self, seeded: &RedTeamOutput, clean: &RedTeamOutput) -> (r: AuthoredTests)
        ensures
            proven(self, *seeded, *clean, r),
    {
        if clean.passed_tests > 0 && seeded.passed_tests == 0 {
            return self;
        }
        let mut tests: Vec<String> = Vec::new();
        let mut unproven: Vec<String> = text::copies(self.unproven.as_slice());
        let ghost all = self.tests@;
        let ghost had = self.unproven@;
        let ghost failed = |test: String| text::views(seeded.failing_tests@).contains(test@);
        let ghost passed = |test: String| !text::views(seeded.failing_tests@).contains(test@);
        let mut i: usize = 0;
        proof {
            assert(all.take(0).filter(failed) =~= Seq::empty()) by {
                reveal(Seq::filter);
            }
            assert(all.take(0).filter(passed) =~= Seq::empty()) by {
                reveal(Seq::filter);
            }
            assert(had + all.take(0).filter(passed) =~= had);
        }
        while i < self.tests.len()
            invariant
                i <= self.tests@.len(),
                all == self.tests@,
                failed == (|test: String| text::views(seeded.failing_tests@).contains(test@)),
                passed == (|test: String| !text::views(seeded.failing_tests@).contains(test@)),
                tests@ == all.take(i as int).filter(failed),
                unproven@ == had + all.take(i as int).filter(passed),
            decreases self.tests@.len() - i,
        {
            let ghost kept = all.take(i as int).filter(passed);
            if text::contains(seeded.failing_tests.as_slice(), self.tests[i].as_str()) {
                tests.push(self.tests[i].clone());
            } else {
                unproven.push(self.tests[i].clone());
                assert((had + kept).push(all[i as int]) =~= had + kept.push(all[i as int]));
            }
            i += 1;
            proof {
                reveal(Seq::filter);
                assert(all.take(i as int).drop_last() =~= all.take(i - 1));
                assert(all.take(i as int).last() == all[i - 1]);
            }
        }
        assert(all.take(i as int) =~= all);
        AuthoredTests { files: self.files, tests, covers: self.covers, unproven }
    }

    /// Nothing could be proven, so nothing gates, and the run can still say which tests those were.
    pub fn none_proven(self) -> (r: AuthoredTests)
        ensures
            unproved(self, r),
    {
        let ghost had = self.unproven@;
        let ghost all = self.tests@;
        let mut unproven = self.unproven;
        let mut tests = self.tests;
        unproven.append(&mut tests);
        assert(unproven@ =~= had + all);
        AuthoredTests { files: self.files, tests: Vec::new(), covers: self.covers, unproven }
    }

    /// Whether there is anything to prove, and something to prove it with.
    pub fn provable(&self) -> (r: bool)
        ensures
            r == (self.files@.len() > 0 && self.tests@.len() > 0),
    {
        self.files.len() > 0 && self.tests.len() > 0
    }
}

/// A proving run keeps every authored test, either as one that gates or as one that does not: none
/// is lost, none is invented, and one that gates failed without the change, unless the tests stopped
/// the suite from building.
pub proof fn proving_keeps_every_test(
    before: AuthoredTests,
    seeded: RedTeamOutput,
    clean: RedTeamOutput,
    after: AuthoredTests,
)
    requires
        proven(before, seeded, clean, after),
    ensures
        (after.tests@ + after.unproven@).to_multiset() =~= (before.tests@
            + before.unproven@).to_multiset(),
        !broke_the_build(seeded, clean) ==> forall|i: int|
            0 <= i < after.tests@.len() ==> text::views(seeded.failing_tests@).contains(
                (#[trigger] after.tests@[i])@,
            ),
{
    broadcast use vstd::seq_lib::group_to_multiset_ensures;

    if !broke_the_build(seeded, clean) {
        let failed = |test: String| text::views(seeded.failing_tests@).contains(test@);
        let passed = |test: String| !text::views(seeded.failing_tests@).contains(test@);
        let all = before.tests@;
        assert(after.tests@ == all.filter(failed));
        assert(passing_in(all, seeded) == all.filter(passed));
        partition_keeps_multiset(all, failed, passed);
        vstd::seq_lib::lemma_multiset_commutative(all.filter(failed), all.filter(passed));
        vstd::seq_lib::lemma_multiset_commutative(before.unproven@, all.filter(passed));
        vstd::seq_lib::lemma_multiset_commutative(after.tests@, after.unproven@);
        vstd::seq_lib::lemma_multiset_commutative(before.tests@, before.unproven@);
        all.filter_lemma(failed);
        assert forall|i: int| 0 <= i < after.tests@.len() implies text::views(
            seeded.failing_tests@,
        ).contains((#[trigger] after.tests@[i])@) by {
            assert(failed(all.filter(failed)[i]));
        }
    }
}

proof fn partition_keeps_multiset(
    all: Seq<String>,
    yes: spec_fn(String) -> bool,
    no: spec_fn(String) -> bool,
)
    requires
        forall|test: String| #[trigger] yes(test) <==> !no(test),
    ensures
        all.filter(yes).to_multiset().add(all.filter(no).to_multiset()) =~= all.to_multiset(),
    decreases all.len(),
{
    broadcast use vstd::seq_lib::group_to_multiset_ensures;

    reveal(Seq::filter);
    if all.len() > 0 {
        let front = all.drop_last();
        let last = all.last();
        partition_keeps_multiset(front, yes, no);
        assert(all =~= front.push(last));
        assert(yes(last) <==> !no(last));
        assert(all.to_multiset() =~= front.to_multiset().insert(last));
        if yes(last) {
            assert(all.filter(yes) =~= front.filter(yes).push(last));
            assert(all.filter(no) =~= front.filter(no));
        } else {
            assert(all.filter(no) =~= front.filter(no).push(last));
            assert(all.filter(yes) =~= front.filter(yes));
        }
    }
}

/// Where the first slash of a path stands, its end where there is none.
pub open spec fn slash_at(path: Seq<char>) -> int
    decreases path.len(),
{
    if path.len() == 0 || path[0] == '/' {
        0
    } else {
        1 + slash_at(path.drop_first())
    }
}

/// The pieces of a path between its slashes.
pub open spec fn pieces(path: Seq<char>) -> Seq<Seq<char>>
    decreases path.len(),
{
    let n = slash_at(path);
    if 0 <= n < path.len() {
        seq![path.take(n)] + pieces(path.skip(n + 1))
    } else {
        seq![path]
    }
}

/// The path the pieces lead to, from where `out` is: nothing and a dot stay, two dots go back up as
/// far as this path itself came down, and anything else goes down. `None` where two dots would go
/// further up than that.
pub open spec fn resolved(parts: Seq<Seq<char>>, out: Seq<Seq<char>>) -> Option<Seq<Seq<char>>>
    decreases parts.len(),
{
    if parts.len() == 0 {
        Some(out)
    } else {
        let part = parts[0];
        let rest = parts.drop_first();
        if part.len() == 0 || part == "."@ {
            resolved(rest, out)
        } else if part == ".."@ {
            if out.len() == 0 {
                None
            } else {
                resolved(rest, out.drop_last())
            }
        } else {
            resolved(rest, out.push(part))
        }
    }
}

/// The pieces a relative path leads down, `None` where it leads out of where it starts, or nowhere.
pub open spec fn inside(rel: Seq<char>) -> Option<Seq<Seq<char>>> {
    if rel.len() > 0 && rel[0] == '/' {
        None
    } else {
        match resolved(pieces(rel), Seq::empty()) {
            Some(out) if out.len() > 0 => Some(out),
            _ => None,
        }
    }
}

/// A path below a root.
pub open spec fn below(root: Seq<char>, parts: Seq<Seq<char>>) -> Seq<char> {
    if root.len() == 0 || root.last() == '/' {
        root + text::joined(parts, "/"@)
    } else {
        root + "/"@ + text::joined(parts, "/"@)
    }
}

fn split_pieces(path: &str) -> (r: Vec<String>)
    ensures
        text::views(r@) == pieces(path@),
{
    let chars = text::chars_of(path);
    let mut out: Vec<String> = Vec::new();
    let mut at: usize = 0;
    let mut done: bool = false;
    proof {
        assert(chars@.skip(0) =~= chars@);
        assert(text::views(out@) + pieces(path@) =~= pieces(path@));
    }
    while !done
        invariant
            at <= chars@.len(),
            chars@ == path@,
            !done ==> text::views(out@) + pieces(chars@.skip(at as int)) == pieces(path@),
            done ==> text::views(out@) == pieces(path@),
        decreases chars@.len() - at + (if done { 0int } else { 1int }),
    {
        let ghost rest = chars@.skip(at as int);
        let ghost had = text::views(out@);
        let mut end: usize = at;
        assert(rest.skip(0) =~= rest);
        while end < chars.len() && chars[end] != '/'
            invariant
                at <= end <= chars@.len(),
                rest == chars@.skip(at as int),
                slash_at(rest) == (end - at) + slash_at(rest.skip(end - at)),
            decreases chars@.len() - end,
        {
            assert(rest.skip(end - at)[0] == chars@[end as int]);
            assert(rest.skip(end - at).drop_first() =~= rest.skip(end + 1 - at));
            end += 1;
        }
        let piece = text::string_of(vstd::slice::slice_subrange(chars.as_slice(), at, end));
        let ghost seen = piece@;
        out.push(piece);
        proof {
            assert(text::views(out@) =~= had.push(seen));
            assert(had.push(seen) =~= had + seq![seen]);
        }
        if end < chars.len() {
            proof {
                assert(rest.skip(end - at)[0] == chars@[end as int]);
                assert(seen =~= rest.take(end - at));
                assert(chars@.skip(end + 1) =~= rest.skip(end - at + 1));
                assert(had + (seq![seen] + pieces(chars@.skip(end + 1))) =~= had.push(seen)
                    + pieces(chars@.skip(end + 1)));
            }
            at = end + 1;
        } else {
            proof {
                assert(rest.skip(end - at) =~= Seq::empty());
                assert(seen =~= rest);
            }
            done = true;
        }
    }
    out
}

/// The pieces a relative path leads down.
fn resolve_inside(rel: &str) -> (r: Option<Vec<String>>)
    ensures
        match inside(rel@) {
            Some(parts) => r matches Some(list) && text::views(list@) == parts,
            None => r is None,
        },
{
    let chars = text::chars_of(rel);
    if chars.len() > 0 && chars[0] == '/' {
        return None;
    }
    let parts = split_pieces(rel);
    let ghost all = text::views(parts@);
    let mut out: Vec<String> = Vec::new();
    let mut i: usize = 0;
    proof {
        assert(all.skip(0) =~= all);
        assert(text::views(out@) =~= Seq::empty());
    }
    while i < parts.len()
        invariant
            i <= parts@.len(),
            all == text::views(parts@),
            all == pieces(rel@),
            resolved(all.skip(i as int), text::views(out@)) == resolved(all, Seq::empty()),
        decreases parts@.len() - i,
    {
        let part = &parts[i];
        let ghost had = text::views(out@);
        proof {
            assert(all.skip(i as int)[0] == part@);
            assert(all.skip(i as int).drop_first() =~= all.skip(i + 1));
        }
        if part.as_str().is_empty() || text::same(part.as_str(), ".") {
            i += 1;
        } else if text::same(part.as_str(), "..") {
            if out.len() == 0 {
                assert(had.len() == 0);
                return None;
            }
            assert(had.len() > 0);
            let _ = out.pop();
            assert(text::views(out@) =~= had.drop_last());
            i += 1;
        } else {
            out.push(part.clone());
            assert(text::views(out@) =~= had.push(part@));
            i += 1;
        }
    }
    assert(all.skip(i as int) =~= Seq::empty());
    assert(text::views(out@).len() == out@.len());
    if out.len() == 0 {
        None
    } else {
        Some(out)
    }
}

/// `root` joined with `rel`, but only when the result is genuinely under `root`.
///
/// Resolved piece by piece rather than against the filesystem: the destination does not exist yet,
/// and a `..` has to be cancelled against what precedes it. An absolute path, a `..` that escapes,
/// or a path that leads nowhere yields `None`.
pub fn contained(root: &str, rel: &str) -> (r: Option<String>)
    ensures
        match inside(rel@) {
            Some(parts) => r matches Some(path) && path@ == below(root@, parts),
            None => r is None,
        },
{
    let parts = match resolve_inside(rel) {
        Some(parts) => parts,
        None => return None,
    };
    let chars = text::chars_of(root);
    let mut path = root.to_owned();
    if chars.len() > 0 && chars[chars.len() - 1] != '/' {
        path.append("/");
    }
    path.append(text::join(parts.as_slice(), "/").as_str());
    Some(path)
}

/// What a path leads down never leads back up or stands still: no piece of it is empty, a dot or two
/// dots. So what is contained is under its root.
pub proof fn a_contained_path_never_escapes(rel: Seq<char>)
    ensures
        inside(rel) matches Some(parts) ==> parts.len() > 0 && forall|i: int|
            0 <= i < parts.len() ==> (#[trigger] parts[i]).len() > 0 && parts[i] != "."@ && parts[i]
                != ".."@,
        rel.len() > 0 && rel[0] == '/' ==> inside(rel) is None,
{
    resolving_only_goes_down(pieces(rel), Seq::empty());
}

proof fn resolving_only_goes_down(parts: Seq<Seq<char>>, out: Seq<Seq<char>>)
    requires
        forall|i: int|
            0 <= i < out.len() ==> (#[trigger] out[i]).len() > 0 && out[i] != "."@ && out[i] != ".."@,
    ensures
        resolved(parts, out) matches Some(all) ==> forall|i: int|
            0 <= i < all.len() ==> (#[trigger] all[i]).len() > 0 && all[i] != "."@ && all[i] != ".."@,
    decreases parts.len(),
{
    if parts.len() > 0 {
        let part = parts[0];
        let rest = parts.drop_first();
        if part.len() == 0 || part == "."@ {
            resolving_only_goes_down(rest, out);
        } else if part == ".."@ {
            if out.len() > 0 {
                resolving_only_goes_down(rest, out.drop_last());
            }
        } else {
            resolving_only_goes_down(rest, out.push(part));
        }
    }
}

/// The pieces of a path that lead somewhere: what is between two slashes that follow one another,
/// or a dot, does not.
pub open spec fn leading(parts: Seq<Seq<char>>) -> Seq<Seq<char>>
    decreases parts.len(),
{
    if parts.len() == 0 {
        Seq::empty()
    } else {
        let before = leading(parts.drop_last());
        let last = parts.last();
        if last.len() == 0 || last == "."@ {
            before
        } else {
            before.push(last)
        }
    }
}

/// Whether a path starts at the root.
pub open spec fn rooted(path: Seq<char>) -> bool {
    path.len() > 0 && path[0] == '/'
}

/// Whether two paths are the same, piece by piece: both from the root or neither, both from where
/// one stands or neither, and through the same names. How often a slash is written does not matter.
pub open spec fn same_path(a: Seq<char>, b: Seq<char>) -> bool {
    &&& rooted(a) == rooted(b)
    &&& (pieces(a)[0] == "."@) == (pieces(b)[0] == "."@)
    &&& leading(pieces(a)) == leading(pieces(b))
}

fn leading_pieces(parts: &[String]) -> (r: Vec<String>)
    ensures
        text::views(r@) == leading(text::views(parts@)),
{
    let mut out: Vec<String> = Vec::new();
    let ghost all = text::views(parts@);
    let mut i: usize = 0;
    assert(text::views(out@) =~= leading(all.take(0)));
    while i < parts.len()
        invariant
            i <= parts@.len(),
            all == text::views(parts@),
            text::views(out@) == leading(all.take(i as int)),
        decreases parts@.len() - i,
    {
        let part = &parts[i];
        let ghost had = text::views(out@);
        if !part.as_str().is_empty() && !text::same(part.as_str(), ".") {
            out.push(part.clone());
            assert(text::views(out@) =~= had.push(part@));
        }
        i += 1;
        proof {
            assert(all.take(i as int).drop_last() =~= all.take(i - 1));
            assert(all.take(i as int).last() == part@);
        }
    }
    assert(all.take(i as int) =~= all);
    out
}

fn are_same(a: &[String], b: &[String]) -> (r: bool)
    ensures
        r == (text::views(a@) == text::views(b@)),
{
    let ghost x = text::views(a@);
    let ghost y = text::views(b@);
    if a.len() != b.len() {
        assert(x.len() != y.len());
        return false;
    }
    let mut i: usize = 0;
    while i < a.len()
        invariant
            i <= a@.len(),
            a@.len() == b@.len(),
            x == text::views(a@),
            y == text::views(b@),
            forall|j: int| 0 <= j < i ==> x[j] == y[j],
        decreases a@.len() - i,
    {
        if !text::same(a[i].as_str(), b[i].as_str()) {
            assert(x[i as int] != y[i as int]);
            return false;
        }
        i += 1;
    }
    assert(x =~= y);
    true
}

/// Whether two paths are the same, piece by piece.
pub fn is_same_path(a: &str, b: &str) -> (r: bool)
    ensures
        r == same_path(a@, b@),
{
    let x = text::chars_of(a);
    let y = text::chars_of(b);
    let a_rooted = x.len() > 0 && x[0] == '/';
    let b_rooted = y.len() > 0 && y[0] == '/';
    if a_rooted != b_rooted {
        return false;
    }
    let p = split_pieces(a);
    let q = split_pieces(b);
    proof {
        a_path_has_a_piece(a@);
        a_path_has_a_piece(b@);
        assert(text::views(p@)[0] == p@[0]@);
        assert(text::views(q@)[0] == q@[0]@);
    }
    if text::same(p[0].as_str(), ".") != text::same(q[0].as_str(), ".") {
        return false;
    }
    are_same(
        leading_pieces(p.as_slice()).as_slice(),
        leading_pieces(q.as_slice()).as_slice(),
    )
}

proof fn a_path_has_a_piece(path: Seq<char>)
    ensures
        pieces(path).len() > 0,
{
}

/// Where one authored file is copied from and to.
#[derive(Clone, Debug)]
pub struct Planting {
    pub src: String,
    pub dst: String,
}

/// Where one authored file is copied from and to, or why it is not copied. Every path here comes
/// from a model, so each is contained before it is touched, in both trees; and a file is never
/// copied onto itself, which would leave it empty.
pub fn plant(from: &str, into: &str, file: &str) -> (r: Result<Planting, String>)
    ensures
        match inside(file@) {
            None => r matches Err(why) && why@ == file@ + " is not inside the worktree"@,
            Some(parts) => if same_path(below(from@, parts), below(into@, parts)) {
                r matches Err(why) && why@ == file@ + " resolves to one file in both trees"@
            } else {
                r matches Ok(planting) && planting.src@ == below(from@, parts) && planting.dst@
                    == below(into@, parts)
            },
        },
{
    match (contained(from, file), contained(into, file)) {
        (Some(src), Some(dst)) => {
            if is_same_path(src.as_str(), dst.as_str()) {
                let mut m = file.to_owned();
                m.append(" resolves to one file in both trees");
                return Err(m);
            }
            Ok(Planting { src, dst })
        },
        _ => {
            let mut m = file.to_owned();
            m.append(" is not inside the worktree");
            Err(m)
        },
    }
}

/// What planting came to: every file that could not be planted is named, and one of them does not
/// discard the rest.
pub fn planted(refused: &[String]) -> (r: Result<(), String>)
    ensures
        refused@.len() == 0 ==> r is Ok,
        refused@.len() > 0 ==> (r matches Err(why) && why@ == text::joined(
            text::views(refused@),
            "; "@,
        )),
{
    if refused.len() == 0 {
        Ok(())
    } else {
        Err(text::join(refused, "; "))
    }
}

/// Whether tests are written at all: there has to be an author, and a surface to write against.
pub fn worth_authoring(has_author: bool, interface: &[InterfaceItem]) -> (r: bool)
    ensures
        r == (has_author && interface@.len() > 0),
{
    has_author && interface.len() > 0
}

/// What the author's turn may use: it writes within the implementer's worktree, before the change,
/// and runs nothing.
pub fn author_resources(worktree: &str) -> (r: StageResources)
    ensures
        r.resource_root@ == worktree@,
        r.capability_ceiling == Capability::Write,
        r.rag_rat_worktree matches Some(tree) && tree@ == worktree@,
        r.shell is None,
        r.guidance is None,
{
    StageResources {
        resource_root: worktree.to_owned(),
        capability_ceiling: Capability::Write,
        rag_rat_worktree: Some(worktree.to_owned()),
        shell: None,
        guidance: None,
    }
}

/// What the classifier is asked about a run.
pub fn to_classify(results: &TestResults) -> (r: ClassifierInput)
    ensures
        r.failing@ == results.failing@,
        r.raw_output == results.raw_output,
{
    ClassifierInput {
        failing: text::copies(results.failing.as_slice()),
        raw_output: results.raw_output.clone(),
    }
}

/// The baseline as it is recorded. Classification is best-effort: `None` where none was made, and a
/// failed one is as good as none; it never fails the deterministic characterization.
pub fn red_team_output(
    results: TestResults,
    classified: Option<Result<Vec<FailureClassification>, NodeError>>,
) -> (r: RedTeamOutput)
    ensures
        r.authored is None,
        r.failing_tests == results.failing,
        r.passed_tests == results.passed,
        r.exit_code == results.exit_code,
        match classified {
            Some(Ok(list)) => r.classifications == list,
            _ => r.classifications@.len() == 0,
        },
{
    let classifications = match classified {
        Some(Ok(list)) => list,
        _ => Vec::new(),
    };
    RedTeamOutput {
        authored: None,
        failing_tests: results.failing,
        passed_tests: results.passed,
        exit_code: results.exit_code,
        classifications,
    }
}

/// How far a baseline run has come, and so what is to be done next.
#[derive(Debug)]
pub enum Baseline {
    /// Create the baseline's own worktree, at the commit the implementer forks from.
    Forking,
    /// Copy the authored tests into it.
    Planting,
    /// Run the acceptance checks there, and then remove it.
    Accepting,
    /// Have the characterizer read what the checks did.
    Reading { outcomes: Vec<StepOutcome> },
    /// Have the classifier label what failed.
    Classifying { results: TestResults },
    /// Nothing more: this is what the run came to.
    Finished(Result<RedTeamOutput, NodeError>),
}

/// What came of the last thing that was done.
#[derive(Debug)]
pub enum BaselineEvent {
    Forked(Result<(), String>),
    /// The tests were copied in as far as they could be. One that could not be leaves its tests
    /// unproven rather than failing the run.
    Planted,
    Checked(Result<Vec<StepOutcome>, String>),
    /// What the characterizer made of the checks; `None` where there is none or it had no answer.
    Read(Option<CharacterizerOutput>),
    Classified(Result<Vec<FailureClassification>, NodeError>),
}

/// A baseline as it is recorded.
pub open spec fn recorded(
    out: RedTeamOutput,
    results: TestResults,
    classifications: Seq<FailureClassification>,
) -> bool {
    &&& out.authored is None
    &&& out.failing_tests == results.failing
    &&& out.passed_tests == results.passed
    &&& out.exit_code == results.exit_code
    &&& out.classifications@ == classifications
}

/// How a baseline run moves on. `seeded` says whether the authored tests go in, `classifies` whether
/// there is a classifier.
pub open spec fn moves(
    seeded: bool,
    classifies: bool,
    from: Baseline,
    event: BaselineEvent,
    to: Baseline,
) -> bool {
    match (from, event) {
        (Baseline::Forking, BaselineEvent::Forked(Err(error))) => to matches Baseline::Finished(
            Err(NodeError::Failed(why)),
        ) && why@ == "baseline worktree create failed: "@ + error@,
        (Baseline::Forking, BaselineEvent::Forked(Ok(_))) => if seeded {
            to is Planting
        } else {
            to is Accepting
        },
        (Baseline::Planting, BaselineEvent::Planted) => to is Accepting,
        (Baseline::Accepting, BaselineEvent::Checked(Err(error))) => to matches Baseline::Finished(
            Err(NodeError::Failed(why)),
        ) && why == error,
        (Baseline::Accepting, BaselineEvent::Checked(Ok(outcomes))) => to matches Baseline::Reading {
            outcomes: kept,
        } && kept == outcomes,
        (Baseline::Reading { outcomes }, BaselineEvent::Read(read)) => match to {
            Baseline::Classifying { results } => {
                &&& testrun::characterizes(outcomes@, read, results)
                &&& classifies && results.failing@.len() > 0
            },
            Baseline::Finished(Ok(out)) => exists|results: TestResults|
                #[trigger] testrun::characterizes(outcomes@, read, results) && !(classifies
                    && results.failing@.len() > 0) && recorded(out, results, Seq::empty()),
            _ => false,
        },
        (Baseline::Classifying { results }, BaselineEvent::Classified(labelled)) => to matches Baseline::Finished(
            Ok(out),
        ) && recorded(
            out,
            results,
            match labelled {
                Ok(list) => list@,
                Err(_) => Seq::empty(),
            },
        ),
        _ => to == from,
    }
}

impl Baseline {
    /// Moves a baseline run on. No model decides what passed: a characterizer may name the checks,
    /// and a classifier may label what failed, but neither can fail the run. Anything that is not an
    /// answer to what was to be done leaves the run where it is.
    pub fn next(self, seeded: bool, classifies: bool, event: BaselineEvent) -> (r: Baseline)
        ensures
            moves(seeded, classifies, self, event, r),
    {
        match (self, event) {
            (Baseline::Forking, BaselineEvent::Forked(Err(error))) => {
                let mut m = "baseline worktree create failed: ".to_owned();
                m.append(error.as_str());
                Baseline::Finished(Err(NodeError::Failed(m)))
            },
            (Baseline::Forking, BaselineEvent::Forked(Ok(_))) => if seeded {
                Baseline::Planting
            } else {
                Baseline::Accepting
            },
            (Baseline::Planting, BaselineEvent::Planted) => Baseline::Accepting,
            (Baseline::Accepting, BaselineEvent::Checked(Err(error))) => Baseline::Finished(
                Err(NodeError::Failed(error)),
            ),
            (Baseline::Accepting, BaselineEvent::Checked(Ok(outcomes))) => Baseline::Reading {
                outcomes,
            },
            (Baseline::Reading { outcomes }, BaselineEvent::Read(read)) => {
                let results = testrun::characterized(outcomes.as_slice(), read);
                assert(testrun::characterizes(outcomes@, read, results));
                if classifies && results.failing.len() > 0 {
                    Baseline::Classifying { results }
                } else {
                    let out = red_team_output(results, None);
                    assert(out.classifications@ =~= Seq::empty());
                    Baseline::Finished(Ok(out))
                }
            },
            (Baseline::Classifying { results }, BaselineEvent::Classified(labelled)) => {
                let out = red_team_output(results, Some(labelled));
                assert(labelled is Err ==> out.classifications@ =~= Seq::empty());
                Baseline::Finished(Ok(out))
            },
            (from, _) => from,
        }
    }
}

/// A baseline run that could be made ends in a record, whatever the characterizer and the classifier
/// did, and the classifier changes nothing of its numbers.
pub proof fn a_baseline_is_never_lost_to_a_model(
    seeded: bool,
    classifies: bool,
    results: TestResults,
    labelled: Result<Vec<FailureClassification>, NodeError>,
    to: Baseline,
)
    requires
        moves(
            seeded,
            classifies,
            Baseline::Classifying { results },
            BaselineEvent::Classified(labelled),
            to,
        ),
    ensures
        to matches Baseline::Finished(Ok(out)) && out.failing_tests == results.failing
            && out.passed_tests == results.passed && out.exit_code == results.exit_code,
{
}

/// Puts the authored tests beside the clean baseline. `proving` is what the separate proving run
/// came to, asked for only where there is something to prove; where it failed, or was not made,
/// nothing is proven. The baseline's own numbers stay those of the clean run, which never saw the
/// authored files: converge compares against nothing else.
pub fn with_authored(
    clean: RedTeamOutput,
    authored: Option<AuthoredTests>,
    proving: Option<Result<RedTeamOutput, NodeError>>,
) -> (r: RedTeamOutput)
    ensures
        r.failing_tests == clean.failing_tests,
        r.passed_tests == clean.passed_tests,
        r.exit_code == clean.exit_code,
        r.classifications == clean.classifications,
        match authored {
            None => r.authored == clean.authored,
            Some(before) => r.authored matches Some(after) && (if before.files@.len() > 0
                && before.tests@.len() > 0 && (proving matches Some(Ok(_))) {
                proven(before, proving->0->Ok_0, clean, after)
            } else {
                unproved(before, after)
            }),
        },
{
    let settled = match authored {
        None => return clean,
        Some(before) => {
            if !before.provable() {
                before.none_proven()
            } else {
                match proving {
                    Some(Ok(seeded)) => before.proven_by(&seeded, &clean),
                    _ => before.none_proven(),
                }
            }
        },
    };
    RedTeamOutput {
        authored: Some(settled),
        failing_tests: clean.failing_tests,
        passed_tests: clean.passed_tests,
        exit_code: clean.exit_code,
        classifications: clean.classifications,
    }
}

/// A proving run keeps, in order, exactly the authored tests that failed without the change, wherever
/// they stand in its list of failures, and adds all the others to those that gate nothing; where the
/// tests stopped a suite that ran from running at all, it keeps every one.
pub proof fn a_test_gates_exactly_when_it_failed_without_the_change(
    before: AuthoredTests,
    seeded: RedTeamOutput,
    clean: RedTeamOutput,
    after: AuthoredTests,
)
    requires
        proven(before, seeded, clean, after),
    ensures
        clean.passed_tests > 0 && seeded.passed_tests == 0 ==> after.tests@ == before.tests@
            && after.unproven@ == before.unproven@,
        !(clean.passed_tests > 0 && seeded.passed_tests == 0) ==> {
            &&& lists::kept(
                after.tests@,
                before.tests@,
                |test: String| text::named(seeded.failing_tests@, test@),
            )
            &&& before.unproven@.len() <= after.unproven@.len()
            &&& after.unproven@.take(before.unproven@.len() as int) == before.unproven@
            &&& lists::kept(
                after.unproven@.skip(before.unproven@.len() as int),
                before.tests@,
                |test: String| !text::named(seeded.failing_tests@, test@),
            )
        },
        after.files == before.files && after.covers == before.covers,
{
    if !(clean.passed_tests > 0 && seeded.passed_tests == 0) {
        let tests = before.tests@;
        let failed = |test: String| text::views(seeded.failing_tests@).contains(test@);
        let passed = |test: String| !text::views(seeded.failing_tests@).contains(test@);
        let named = |test: String| text::named(seeded.failing_tests@, test@);
        let unnamed = |test: String| !text::named(seeded.failing_tests@, test@);
        assert forall|i: int| 0 <= i < tests.len() implies failed(#[trigger] tests[i]) == named(
            tests[i],
        ) && passed(tests[i]) == unnamed(tests[i]) by {
            text::named_somewhere(seeded.failing_tests@, tests[i]@);
        }
        lists::a_filter_keeps(tests, failed, named);
        lists::a_filter_keeps(tests, passed, unnamed);
        let n = before.unproven@.len() as int;
        assert(after.unproven@.take(n) =~= before.unproven@);
        assert(after.unproven@.skip(n) =~= tests.filter(passed));
    }
}

/// The pieces of a path are what its slashes separate: put together again with a slash between each
/// two they are the path, and none of them holds a slash.
pub proof fn pieces_are_what_slashes_separate(path: Seq<char>)
    ensures
        pieces(path).len() > 0,
        text::joined(pieces(path), "/"@) == path,
        forall|i: int| 0 <= i < pieces(path).len() ==> !(#[trigger] pieces(path)[i]).contains('/'),
    decreases path.len(),
{
    let n = slash_at(path);
    slash_is_first(path);
    reveal_strlit("/");
    if n < path.len() {
        let rest = path.skip(n + 1);
        let first = path.take(n);
        pieces_are_what_slashes_separate(rest);
        text::joined_from_the_front(first, pieces(rest), "/"@);
        assert(seq![first] + pieces(rest) =~= pieces(path));
        assert(path =~= first + "/"@ + rest);
        assert forall|i: int| 0 <= i < pieces(path).len() implies !(
        #[trigger] pieces(path)[i]).contains('/') by {
            if i > 0 {
                assert(pieces(path)[i] == pieces(rest)[i - 1]);
            } else if first.contains('/') {
                let k = choose|k: int| 0 <= k < first.len() && first[k] == '/';
                assert(path[k] == '/');
            }
        }
    } else {
        text::joined_of_one(path, "/"@);
        assert(pieces(path) =~= seq![path]);
        if path.contains('/') {
            let k = choose|k: int| 0 <= k < path.len() && path[k] == '/';
            assert(path[k] == '/');
        }
    }
}

proof fn slash_is_first(path: Seq<char>)
    ensures
        0 <= slash_at(path) <= path.len(),
        slash_at(path) < path.len() ==> path[slash_at(path)] == '/',
        forall|j: int| 0 <= j < slash_at(path) ==> path[j] != '/',
    decreases path.len(),
{
    if path.len() > 0 && path[0] != '/' {
        let rest = path.drop_first();
        slash_is_first(rest);
        assert forall|j: int| 0 <= j < slash_at(path) implies path[j] != '/' by {
            if j > 0 {
                assert(rest[j - 1] == path[j]);
            }
        }
    }
}

/// Where a path leads with one more piece: nowhere where it led out already; to the same place where
/// the piece is empty or a dot; back up one where it is two dots, and out where there is nothing to go
/// back up; and otherwise down one, by that name.
pub proof fn each_piece_of_a_path_counts(
    parts: Seq<Seq<char>>,
    out: Seq<Seq<char>>,
    piece: Seq<char>,
)
    ensures
        resolved(Seq::empty(), out) == Some(out),
        resolved(parts, out) is None ==> resolved(parts.push(piece), out) is None,
        resolved(parts, out) is Some ==> {
            let so_far = resolved(parts, out)->0;
            let then = resolved(parts.push(piece), out);
            &&& piece.len() == 0 || piece == "."@ ==> then == Some(so_far)
            &&& piece == ".."@ && so_far.len() == 0 ==> then is None
            &&& piece == ".."@ && so_far.len() > 0 ==> then == Some(so_far.drop_last())
            &&& piece.len() > 0 && piece != "."@ && piece != ".."@ ==> then == Some(
                so_far.push(piece),
            )
        },
    decreases parts.len(),
{
    let more = parts.push(piece);
    reveal_strlit(".");
    reveal_strlit("..");
    assert("."@.len() == 1 && ".."@.len() == 2);
    if parts.len() == 0 {
        assert(more.drop_first() =~= Seq::empty());
        assert(more[0] == piece);
        reveal_with_fuel(resolved, 2);
    } else {
        let rest = parts.drop_first();
        let part = parts[0];
        assert(more.drop_first() =~= rest.push(piece));
        assert(more[0] == part);
        if part.len() == 0 || part == "."@ {
            each_piece_of_a_path_counts(rest, out, piece);
        } else if part == ".."@ {
            if out.len() > 0 {
                each_piece_of_a_path_counts(rest, out.drop_last(), piece);
            }
        } else {
            each_piece_of_a_path_counts(rest, out.push(part), piece);
        }
    }
}

/// A path is inside exactly when it does not start at the root, its pieces never lead further up than
/// it came down, and it comes down at all; and what it leads down is where its pieces lead.
pub proof fn a_path_is_inside_when_it_comes_down(rel: Seq<char>)
    ensures
        inside(rel) is Some <==> !(rel.len() > 0 && rel[0] == '/') && resolved(
            pieces(rel),
            Seq::empty(),
        ) is Some && resolved(pieces(rel), Seq::empty())->0.len() > 0,
        inside(rel) is Some ==> inside(rel) == resolved(pieces(rel), Seq::empty()),
{
}

/// A path below a root is the root, one slash where it does not end in one, and what it leads down
/// with a slash between each two.
pub proof fn a_path_below_starts_with_its_root(root: Seq<char>, parts: Seq<Seq<char>>)
    ensures
        root.is_prefix_of(below(root, parts)),
        root.len() > 0 && root.last() != '/' ==> below(root, parts) == root.push('/') + text::joined(
            parts,
            "/"@,
        ),
        root.len() == 0 || root.last() == '/' ==> below(root, parts) == root + text::joined(
            parts,
            "/"@,
        ),
{
    reveal_strlit("/");
    assert("/"@ =~= seq!['/']);
    assert(below(root, parts).subrange(0, root.len() as int) =~= root);
    if root.len() > 0 && root.last() != '/' {
        assert(below(root, parts) =~= root.push('/') + text::joined(parts, "/"@));
    }
}

/// The pieces that lead somewhere are all those that are neither empty nor a dot, in order.
pub proof fn every_piece_but_dots_leads(parts: Seq<Seq<char>>)
    ensures
        lists::gathered(
            leading(parts),
            parts,
            |part: Seq<char>| part.len() > 0 && part != "."@,
            |part: Seq<char>| part,
        ),
{
    let gives = |part: Seq<char>| part.len() > 0 && part != "."@;
    let what = |part: Seq<char>| part;
    leading_is_gathered(parts, gives, what);
    lists::going_through_gathers(parts, gives, what);
}

proof fn leading_is_gathered(
    parts: Seq<Seq<char>>,
    gives: spec_fn(Seq<char>) -> bool,
    what: spec_fn(Seq<char>) -> Seq<char>,
)
    requires
        forall|part: Seq<char>| #[trigger] gives(part) <==> part.len() > 0 && part != "."@,
        forall|part: Seq<char>| #[trigger] what(part) == part,
    ensures
        leading(parts) == lists::gather(parts, gives, what),
    decreases parts.len(),
{
    if parts.len() > 0 {
        leading_is_gathered(parts.drop_last(), gives, what);
        assert(gives(parts.last()) <==> parts.last().len() > 0 && parts.last() != "."@);
        assert(what(parts.last()) == parts.last());
    }
}

/// Two spellings are of one path exactly when both start at the root or neither does, both start with
/// a dot or neither does, and they lead through the same names.
pub proof fn spelling_does_not_make_another_path(a: Seq<char>, b: Seq<char>)
    ensures
        same_path(a, b) <==> {
            &&& (a.len() > 0 && a[0] == '/') == (b.len() > 0 && b[0] == '/')
            &&& (pieces(a)[0] == "."@) == (pieces(b)[0] == "."@)
            &&& leading(pieces(a)) == leading(pieces(b))
        },
        same_path(a, a),
        same_path(a, b) == same_path(b, a),
{
}

/// How a baseline run goes: its own tree first, the authored tests in it only where there are any, the
/// checks, then their reading, and the labels only where something failed and someone labels. A tree
/// that cannot be made and checks that cannot be run end it in failure, and nothing else does.
pub proof fn a_baseline_goes_step_by_step(
    seeded: bool,
    classifies: bool,
    from: Baseline,
    event: BaselineEvent,
    to: Baseline,
)
    requires
        moves(seeded, classifies, from, event, to),
    ensures
        from is Finished ==> to == from,
        from is Forking && event is Forked && event->Forked_0 is Ok ==> (if seeded {
            to is Planting
        } else {
            to is Accepting
        }),
        from is Planting && event is Planted ==> to is Accepting,
        from is Accepting && event is Checked && event->Checked_0 is Ok ==> to is Reading
            && to->Reading_outcomes == event->Checked_0->Ok_0,
        to is Finished && to->Finished_0 is Err ==> {
            ||| from == to
            ||| from is Forking && event is Forked && event->Forked_0 is Err
            ||| from is Accepting && event is Checked && event->Checked_0 is Err
        },
        from is Forking && event is Forked && event->Forked_0 is Err ==> to is Finished
            && to->Finished_0 is Err,
        from is Accepting && event is Checked && event->Checked_0 is Err ==> to is Finished
            && to->Finished_0 is Err,
        from is Reading && event is Read ==> to is Classifying || (to is Finished
            && to->Finished_0 is Ok),
        from is Reading && event is Read && to is Classifying ==> classifies
            && to->Classifying_results.failing@.len() > 0 && testrun::characterizes(
            from->Reading_outcomes@,
            event->Read_0,
            to->Classifying_results,
        ),
        from is Reading && event is Read && to is Finished ==> {
            let out = to->Finished_0->Ok_0;
            &&& !classifies || out.failing_tests@.len() == 0
            &&& out.authored is None
            &&& out.classifications@.len() == 0
            &&& exists|results: TestResults|
                #[trigger] testrun::characterizes(from->Reading_outcomes@, event->Read_0, results)
                    && out.failing_tests == results.failing && out.passed_tests == results.passed
                    && out.exit_code == results.exit_code
        },
        from is Classifying && event is Classified ==> to is Finished && to->Finished_0 is Ok && {
            let out = to->Finished_0->Ok_0;
            &&& event->Classified_0 is Ok ==> out.classifications@ == event->Classified_0->Ok_0@
            &&& event->Classified_0 is Err ==> out.classifications@.len() == 0
            &&& out.authored is None
            &&& out.failing_tests == from->Classifying_results.failing
            &&& out.passed_tests == from->Classifying_results.passed
            &&& out.exit_code == from->Classifying_results.exit_code
        },
        from is Forking && event is Forked && event->Forked_0 is Err
            ==> to->Finished_0->Err_0 is Failed && to->Finished_0->Err_0->Failed_0@
            == "baseline worktree create failed: "@ + event->Forked_0->Err_0@,
        from is Accepting && event is Checked && event->Checked_0 is Err
            ==> to->Finished_0->Err_0 is Failed && to->Finished_0->Err_0->Failed_0@
            == event->Checked_0->Err_0@,
        from is Forking && !(event is Forked) ==> to == from,
        from is Planting && !(event is Planted) ==> to == from,
        from is Accepting && !(event is Checked) ==> to == from,
        from is Reading && !(event is Read) ==> to == from,
        from is Classifying && !(event is Classified) ==> to == from,
{
}

/// Where nothing could be proven no test gates, and every one that was authored is among those that
/// gate nothing, after those that were there, in order.
pub proof fn what_is_not_proven_gates_nothing(before: AuthoredTests, after: AuthoredTests)
    requires
        unproved(before, after),
    ensures
        after.tests@.len() == 0,
        after.unproven@.len() == before.unproven@.len() + before.tests@.len(),
        after.unproven@.take(before.unproven@.len() as int) == before.unproven@,
        after.unproven@.skip(before.unproven@.len() as int) == before.tests@,
        after.files == before.files && after.covers == before.covers,
{
    let n = before.unproven@.len() as int;
    assert(after.unproven@.take(n) =~= before.unproven@);
    assert(after.unproven@.skip(n) =~= before.tests@);
}

} // verus!
