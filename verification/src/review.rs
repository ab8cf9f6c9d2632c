//! Verifier: read the change and say whether it is the right one.
//!
//! Converge asks one question: did the failing-test set grow. A change can be green and still be
//! wrong. This node asks the question the tests cannot. It runs **after** the test gate is clean,
//! never instead of it: a model's judgement is weaker evidence than a test result.

use vstd::prelude::*;
use vstd::string::StringExecFns;

use crate::analyst::AnalystOutput;
use crate::lists;
use crate::text;

verus! {

broadcast use vstd::string::group_string_axioms;

/// How bad a finding is, the worst first.
#[derive(Clone, Copy, Debug, PartialEq, Eq, Structural)]
pub enum Severity {
    /// Must fix: a correctness bug, a security issue, a silent regression, a defeated test.
    P1,
    /// Should fix: a missed case, a misleading name or doc, a poor error.
    P2,
    /// A nit.
    P3,
}

impl Severity {
    /// The place of a severity: the worst is lowest.
    pub open spec fn rank(self) -> int {
        match self {
            Severity::P1 => 1,
            Severity::P2 => 2,
            Severity::P3 => 3,
        }
    }

    /// Being at least as severe as a threshold.
    pub open spec fn blocks(self, threshold: Severity) -> bool {
        self.rank() <= threshold.rank()
    }

    /// What a severity is written as.
    pub open spec fn label(self) -> Seq<char> {
        match self {
            Severity::P1 => "P1"@,
            Severity::P2 => "P2"@,
            Severity::P3 => "P3"@,
        }
    }

    /// Whether this finding is at least as severe as `threshold`, and so blocks.
    pub fn blocks_at(self, threshold: Severity) -> (r: bool)
        ensures
            r == self.blocks(threshold),
    {
        match self {
            Severity::P1 => true,
            Severity::P2 => !matches!(threshold, Severity::P1),
            Severity::P3 => matches!(threshold, Severity::P3),
        }
    }

    /// What a severity is written as.
    pub fn name(self) -> (r: &'static str)
        ensures
            r@ == self.label(),
    {
        match self {
            Severity::P1 => "P1",
            Severity::P2 => "P2",
            Severity::P3 => "P3",
        }
    }
}

/// Who a finding belongs to.
#[derive(Clone, Copy, Debug, PartialEq, Eq, Structural)]
pub enum FindingKind {
    /// The plan was right; the code does not match it. The implementer can fix this alone.
    Execution,
    /// The requirement was wrong, missing, or impossible as written. It goes back to the analyst.
    Plan,
}

/// One thing wrong with the change.
#[derive(Clone, Debug)]
pub struct Finding {
    pub severity: Severity,
    pub kind: FindingKind,
    pub file: String,
    pub line: Option<u32>,
    pub summary: String,
    /// Concrete input or state, and the wrong result it produces. A finding without one is a
    /// preference.
    pub failure_scenario: String,
}

/// What the verifier concluded.
#[derive(Clone, Debug)]
pub struct VerifierOutput {
    pub findings: Vec<Finding>,
    /// What was checked, in a line or two. Present even when nothing was found.
    pub assessment: String,
    /// What this pass could not reach, named so the next one can continue over it. Empty for a
    /// review that finished.
    pub unchecked: Vec<String>,
}

impl Default for VerifierOutput {
    fn default() -> (r: VerifierOutput)
        ensures
            r.findings@.len() == 0,
            r.assessment@.len() == 0,
            r.unchecked@.len() == 0,
    {
        VerifierOutput { findings: Vec::new(), assessment: String::new(), unchecked: Vec::new() }
    }
}

/// The findings of one severity, in order.
pub open spec fn of_severity(findings: Seq<Finding>, severity: Severity) -> Seq<Finding> {
    findings.filter(|finding: Finding| finding.severity == severity)
}

/// The findings of one severity where it blocks, none where it does not.
pub open spec fn blocking_of(findings: Seq<Finding>, severity: Severity, threshold: Severity) -> Seq<
    Finding,
> {
    if severity.blocks(threshold) {
        of_severity(findings, severity)
    } else {
        Seq::empty()
    }
}

/// The findings that block: the most severe first, and those of one severity in the order they were
/// found.
pub open spec fn blocking_findings(findings: Seq<Finding>, threshold: Severity) -> Seq<Finding> {
    blocking_of(findings, Severity::P1, threshold) + blocking_of(findings, Severity::P2, threshold)
        + blocking_of(findings, Severity::P3, threshold)
}

/// The findings behind a list of references.
pub open spec fn behind(list: Seq<&Finding>) -> Seq<Finding> {
    Seq::new(list.len(), |i: int| *list[i])
}

fn gather<'a>(findings: &'a Vec<Finding>, severity: Severity, into: &mut Vec<&'a Finding>)
    ensures
        behind(final(into)@) == behind(old(into)@) + of_severity(findings@, severity),
{
    let ghost start = behind(into@);
    let ghost keep = |finding: Finding| finding.severity == severity;
    let mut i: usize = 0;
    assert(findings@.take(0).filter(keep) =~= Seq::empty()) by {
        reveal(Seq::filter);
    }
    assert(start + findings@.take(0).filter(keep) =~= start);
    while i < findings.len()
        invariant
            i <= findings@.len(),
            keep == (|finding: Finding| finding.severity == severity),
            behind(into@) == start + findings@.take(i as int).filter(keep),
        decreases findings@.len() - i,
    {
        let ghost had = behind(into@);
        let ghost kept = findings@.take(i as int).filter(keep);
        if findings[i].severity == severity {
            into.push(&findings[i]);
            assert(behind(into@) =~= had.push(findings@[i as int]));
            assert(start + kept.push(findings@[i as int]) =~= had.push(findings@[i as int]));
        }
        i += 1;
        proof {
            reveal(Seq::filter);
            assert(findings@.take(i as int).drop_last() =~= findings@.take(i - 1));
            assert(findings@.take(i as int).last() == findings@[i - 1]);
        }
    }
    assert(findings@.take(i as int) =~= findings@);
}

impl VerifierOutput {
    /// Whether this review reached the end of what it set out to check.
    ///
    /// A review that did not is not a clean one however few findings it carries, and nothing may
    /// read an empty `findings` as a verdict without asking this first.
    pub fn complete(&self) -> (r: bool)
        ensures
            r == (self.unchecked@.len() == 0),
    {
        self.unchecked.len() == 0
    }

    /// The findings that block, most severe first.
    pub fn blocking(&self, threshold: Severity) -> (r: Vec<&Finding>)
        ensures
            behind(r@) == blocking_findings(self.findings@, threshold),
    {
        let mut found: Vec<&Finding> = Vec::new();
        assert(behind(found@) =~= Seq::empty());
        let ghost all = self.findings@;
        if Severity::P1.blocks_at(threshold) {
            gather(&self.findings, Severity::P1, &mut found);
        }
        assert(behind(found@) =~= blocking_of(all, Severity::P1, threshold));
        if Severity::P2.blocks_at(threshold) {
            gather(&self.findings, Severity::P2, &mut found);
        }
        assert(behind(found@) =~= blocking_of(all, Severity::P1, threshold) + blocking_of(
            all,
            Severity::P2,
            threshold,
        ));
        if Severity::P3.blocks_at(threshold) {
            gather(&self.findings, Severity::P3, &mut found);
        }
        assert(behind(found@) =~= blocking_findings(all, threshold));
        found
    }
}

/// A finding blocks exactly when it was found and is severe enough: raising the threshold loses
/// none, and nothing that blocks was not found. What blocks comes worst first.
pub proof fn blocking_is_exact_and_ordered(findings: Seq<Finding>, threshold: Severity)
    ensures
        forall|f: Finding| #[trigger]
            blocking_findings(findings, threshold).contains(f) <==> findings.contains(f)
                && f.severity.blocks(threshold),
        forall|i: int, j: int|
            0 <= i < j < blocking_findings(findings, threshold).len() ==> (
            #[trigger] blocking_findings(findings, threshold)[i]).severity.rank() <= (
            #[trigger] blocking_findings(findings, threshold)[j]).severity.rank(),
{
    let all = blocking_findings(findings, threshold);
    let one = blocking_of(findings, Severity::P1, threshold);
    let two = blocking_of(findings, Severity::P2, threshold);
    let three = blocking_of(findings, Severity::P3, threshold);
    severity_filter(findings, Severity::P1);
    severity_filter(findings, Severity::P2);
    severity_filter(findings, Severity::P3);
    assert(forall|i: int| 0 <= i < one.len() ==> (#[trigger] one[i]).severity == Severity::P1);
    assert(forall|i: int| 0 <= i < two.len() ==> (#[trigger] two[i]).severity == Severity::P2);
    assert(forall|i: int| 0 <= i < three.len() ==> (#[trigger] three[i]).severity == Severity::P3);
    assert forall|f: Finding| #[trigger] all.contains(f) <==> findings.contains(f)
        && f.severity.blocks(threshold) by {
        if all.contains(f) {
            let k = choose|k: int| 0 <= k < all.len() && all[k] == f;
            if k < one.len() {
                assert(one[k] == f);
                assert(of_severity(findings, Severity::P1).contains(f));
            } else if k < one.len() + two.len() {
                assert(two[k - one.len()] == f);
                assert(of_severity(findings, Severity::P2).contains(f));
            } else {
                assert(three[k - one.len() - two.len()] == f);
                assert(of_severity(findings, Severity::P3).contains(f));
            }
        }
        if findings.contains(f) && f.severity.blocks(threshold) {
            assert(of_severity(findings, f.severity).contains(f));
            match f.severity {
                Severity::P1 => {
                    let k = choose|k: int| 0 <= k < one.len() && one[k] == f;
                    assert(all[k] == f);
                },
                Severity::P2 => {
                    let k = choose|k: int| 0 <= k < two.len() && two[k] == f;
                    assert(all[one.len() + k] == f);
                },
                Severity::P3 => {
                    let k = choose|k: int| 0 <= k < three.len() && three[k] == f;
                    assert(all[one.len() + two.len() + k] == f);
                },
            }
        }
    }
}

proof fn severity_filter(findings: Seq<Finding>, severity: Severity)
    ensures
        forall|f: Finding| #[trigger]
            of_severity(findings, severity).contains(f) <==> findings.contains(f) && f.severity
                == severity,
        forall|i: int|
            0 <= i < of_severity(findings, severity).len() ==> (#[trigger] of_severity(
                findings,
                severity,
            )[i]).severity == severity,
{
    let keep = |finding: Finding| finding.severity == severity;
    let kept = of_severity(findings, severity);
    assert(kept == findings.filter(keep));
    findings.filter_lemma(keep);
    assert forall|i: int| 0 <= i < kept.len() implies (#[trigger] kept[i]).severity == severity by {
        assert(keep(findings.filter(keep)[i]));
    }
    assert forall|f: Finding| #[trigger] kept.contains(f) <==> findings.contains(f) && f.severity
        == severity by {
        if kept.contains(f) {
            findings.lemma_filter_contains_rev(keep, f);
            let k = choose|k: int| 0 <= k < kept.len() && kept[k] == f;
            assert(kept[k].severity == severity);
        }
        if findings.contains(f) && f.severity == severity {
            let k = choose|k: int| 0 <= k < findings.len() && findings[k] == f;
            assert(kept.contains(findings[k]));
        }
    }
}

/// What the verifier is given: the change, and what it was for.
#[derive(Clone, Debug)]
pub struct VerifierInput {
    pub issue: String,
    pub analyst: AnalystOutput,
    /// The change as a patch. Not a summary: that cannot show a weakened assertion.
    pub diff: String,
    pub touched_files: Vec<String>,
    /// What earlier passes in this run already found, oldest first.
    pub previous_findings: Vec<Finding>,
    /// What an earlier pass in this run said it could not reach, when this call is continuing that
    /// review.
    pub unchecked: Vec<String>,
}

/// Where a finding is, in brackets; nothing where it names no file.
pub open spec fn place(finding: Finding) -> Seq<char> {
    if finding.file@.len() == 0 {
        Seq::empty()
    } else {
        match finding.line {
            Some(line) => " ("@ + finding.file@ + ":"@ + text::decimal(line as nat) + ")"@,
            None => " ("@ + finding.file@ + ")"@,
        }
    }
}

fn place_of(finding: &Finding) -> (r: String)
    ensures
        r@ == place(*finding),
{
    if finding.file.as_str().is_empty() {
        return String::new();
    }
    let mut out = " (".to_owned();
    out.append(finding.file.as_str());
    if let Some(line) = finding.line {
        out.append(":");
        out.append(text::number(line as u64).as_str());
    }
    out.append(")");
    out
}

/// One finding, as the implementer is told it.
pub open spec fn told(finding: Finding) -> Seq<char> {
    "- ["@ + finding.severity.label() + "]"@ + place(finding) + " "@ + finding.summary@ + "\n  Fails when: "@
        + finding.failure_scenario@ + "\n\n"@
}

/// Several findings, as the implementer is told them.
pub open spec fn told_all(findings: Seq<Finding>) -> Seq<char>
    decreases findings.len(),
{
    if findings.len() == 0 {
        Seq::empty()
    } else {
        told_all(findings.drop_last()) + told(findings.last())
    }
}

/// What a correction opens with.
pub const CORRECTION_HEADER: &'static str =
    "A review of your change found problems that the tests did not catch. Fix each of these without breaking anything that currently passes:\n\n";

/// Turn blocking findings into the correction the implementer is re-driven with.
///
/// The findings go over verbatim rather than summarised: the failure scenario is the part that makes
/// a finding actionable.
pub fn correction(findings: &[&Finding]) -> (r: String)
    ensures
        r@ == CORRECTION_HEADER@ + told_all(behind(findings@)),
{
    let mut out = CORRECTION_HEADER.to_owned();
    let ghost all = behind(findings@);
    let mut i: usize = 0;
    assert(out@ =~= CORRECTION_HEADER@ + told_all(all.take(0)));
    while i < findings.len()
        invariant
            i <= findings@.len(),
            all == behind(findings@),
            out@ == CORRECTION_HEADER@ + told_all(all.take(i as int)),
        decreases findings@.len() - i,
    {
        let f = findings[i];
        let ghost had = out@;
        let mut part = "- [".to_owned();
        part.append(f.severity.name());
        part.append("]");
        part.append(place_of(f).as_str());
        part.append(" ");
        part.append(f.summary.as_str());
        part.append("\n  Fails when: ");
        part.append(f.failure_scenario.as_str());
        part.append("\n\n");
        out.append(part.as_str());
        i += 1;
        proof {
            assert(all.take(i as int).drop_last() =~= all.take(i - 1));
            assert(all.take(i as int).last() == *f);
            assert(out@ =~= CORRECTION_HEADER@ + told_all(all.take(i as int)));
        }
    }
    assert(all.take(i as int) =~= all);
    out
}

/// The severity a threshold names, whatever its case; the default where it names none. A typo must
/// not quietly relax a gate.
pub open spec fn threshold_of(raw: Seq<char>) -> Severity {
    let named = text::lowered(text::trimmed(raw));
    if named == text::lowered("P1"@) {
        Severity::P1
    } else if named == text::lowered("P2"@) {
        Severity::P2
    } else if named == text::lowered("P3"@) {
        Severity::P3
    } else {
        Severity::P2
    }
}

/// Read a configured threshold. An unrecognised value is a typo, and falls back to the default.
pub fn parse_threshold(raw: &str) -> (r: Severity)
    ensures
        r == threshold_of(raw@),
{
    let named = text::trim(raw);
    if text::same_ignoring_case(named.as_str(), "P1") {
        Severity::P1
    } else if text::same_ignoring_case(named.as_str(), "P2") {
        Severity::P2
    } else if text::same_ignoring_case(named.as_str(), "P3") {
        Severity::P3
    } else {
        Severity::P2
    }
}

/// What an amended plan opens with.
pub const REPLAN_HEADER: &'static str =
    "A review of your change found that the PLAN was wrong, not just the code. The requirements have been amended. Bring your change in line with them:\n\n";

/// Requirements, one to a line.
pub open spec fn bulleted(requirements: Seq<String>) -> Seq<char>
    decreases requirements.len(),
{
    if requirements.len() == 0 {
        Seq::empty()
    } else {
        bulleted(requirements.drop_last()) + ("- "@ + requirements.last()@ + "\n"@)
    }
}

/// One finding, as the reason a plan was amended.
pub open spec fn reason(finding: Finding) -> Seq<char> {
    "- ["@ + finding.severity.label() + "] "@ + finding.summary@ + "\n  Fails when: "@
        + finding.failure_scenario@ + "\n"@
}

/// Several findings, as the reasons a plan was amended.
pub open spec fn reasons(findings: Seq<Finding>) -> Seq<char>
    decreases findings.len(),
{
    if findings.len() == 0 {
        Seq::empty()
    } else {
        reasons(findings.drop_last()) + reason(findings.last())
    }
}

/// What the amended plan is meant to achieve, where it says.
pub open spec fn aim(revised: AnalystOutput) -> Seq<char> {
    if revised.impact_summary@.len() == 0 {
        Seq::empty()
    } else {
        "\nWhat this is meant to achieve:\n"@ + revised.impact_summary@ + "\n"@
    }
}

fn bullets(requirements: &[String]) -> (r: String)
    ensures
        r@ == bulleted(requirements@),
{
    let mut out = String::new();
    let ghost all = requirements@;
    let mut i: usize = 0;
    assert(out@ =~= bulleted(all.take(0)));
    while i < requirements.len()
        invariant
            i <= requirements@.len(),
            all == requirements@,
            out@ == bulleted(all.take(i as int)),
        decreases requirements@.len() - i,
    {
        let mut line = "- ".to_owned();
        line.append(requirements[i].as_str());
        line.append("\n");
        out.append(line.as_str());
        i += 1;
        proof {
            assert(all.take(i as int).drop_last() =~= all.take(i - 1));
            assert(all.take(i as int).last() == all[i - 1]);
        }
    }
    assert(all.take(i as int) =~= all);
    out
}

/// What the implementer is told after the plan itself was amended.
///
/// The revised requirements come first and the findings after, because the implementer's job is now
/// to satisfy the new plan — the findings are why it changed, not a separate list of fixes.
pub fn replan(revised: &AnalystOutput, findings: &[&Finding]) -> (r: String)
    ensures
        r@ == REPLAN_HEADER@ + bulleted(revised.requirements@) + aim(*revised)
            + "\nWhat the review found, for context:\n"@ + reasons(behind(findings@)),
{
    let mut out = REPLAN_HEADER.to_owned();
    out.append(bullets(revised.requirements.as_slice()).as_str());
    if revised.impact_summary.as_str().is_empty() {
        assert(out@ + aim(*revised) =~= out@);
    } else {
        let mut meant = "\nWhat this is meant to achieve:\n".to_owned();
        meant.append(revised.impact_summary.as_str());
        meant.append("\n");
        out.append(meant.as_str());
    }
    out.append("\nWhat the review found, for context:\n");
    let ghost opening = out@;
    let ghost all = behind(findings@);
    let mut i: usize = 0;
    assert(out@ =~= opening + reasons(all.take(0)));
    while i < findings.len()
        invariant
            i <= findings@.len(),
            all == behind(findings@),
            out@ == opening + reasons(all.take(i as int)),
        decreases findings@.len() - i,
    {
        let f = findings[i];
        let mut part = "- [".to_owned();
        part.append(f.severity.name());
        part.append("] ");
        part.append(f.summary.as_str());
        part.append("\n  Fails when: ");
        part.append(f.failure_scenario.as_str());
        part.append("\n");
        out.append(part.as_str());
        i += 1;
        proof {
            assert(all.take(i as int).drop_last() =~= all.take(i - 1));
            assert(all.take(i as int).last() == *f);
            assert(out@ =~= opening + reasons(all.take(i as int)));
        }
    }
    assert(all.take(i as int) =~= all);
    out
}

/// What the run's last review still objected to, and what it never reached. Best-effort, and empty is
/// the ordinary answer: a repository with no verifier never reviews at all, and a failed read costs a
/// sentence in a pull request and must not cost the run.
pub fn unresolved_of(last_review: Result<Option<VerifierOutput>, String>) -> (r: (
    Vec<Finding>,
    Vec<String>,
))
    ensures
        match last_review {
            Ok(Some(review)) => r.0 == review.findings && r.1 == review.unchecked,
            _ => r.0@.len() == 0 && r.1@.len() == 0,
        },
{
    match last_review {
        Ok(Some(review)) => (review.findings, review.unchecked),
        _ => (Vec::new(), Vec::new()),
    }
}

/// How severities compare: the worst blocks at every threshold, everything blocks at the lowest, and
/// otherwise only the same blocks at the same.
pub proof fn severities_are_ordered(severity: Severity, threshold: Severity)
    ensures
        severity.blocks(threshold) <==> severity == threshold || severity == Severity::P1 || threshold
            == Severity::P3,
{
}

/// What blocks is every finding of the worst severity, then every one of the next where the threshold
/// reaches it, then every nit where the threshold is that low: each in the order it was found, as
/// often as it was found, and none left out.
pub proof fn every_finding_the_threshold_reaches_blocks(
    findings: Seq<Finding>,
    threshold: Severity,
)
    ensures
        exists|worst: Seq<Finding>, next: Seq<Finding>, nits: Seq<Finding>|
            {
                &&& blocking_findings(findings, threshold) == #[trigger] (worst + next + nits)
                &&& lists::kept(worst, findings, |f: Finding| f.severity == Severity::P1)
                &&& lists::kept(
                    next,
                    findings,
                    |f: Finding| f.severity == Severity::P2 && threshold != Severity::P1,
                )
                &&& lists::kept(
                    nits,
                    findings,
                    |f: Finding| f.severity == Severity::P3 && threshold == Severity::P3,
                )
            },
{
    let worst = blocking_of(findings, Severity::P1, threshold);
    let next = blocking_of(findings, Severity::P2, threshold);
    let nits = blocking_of(findings, Severity::P3, threshold);
    a_severity_is_gathered(
        findings,
        Severity::P1,
        threshold,
        |f: Finding| f.severity == Severity::P1,
    );
    a_severity_is_gathered(
        findings,
        Severity::P2,
        threshold,
        |f: Finding| f.severity == Severity::P2 && threshold != Severity::P1,
    );
    a_severity_is_gathered(
        findings,
        Severity::P3,
        threshold,
        |f: Finding| f.severity == Severity::P3 && threshold == Severity::P3,
    );
    assert(blocking_findings(findings, threshold) =~= worst + next + nits);
}

proof fn a_severity_is_gathered(
    findings: Seq<Finding>,
    severity: Severity,
    threshold: Severity,
    stays: spec_fn(Finding) -> bool,
)
    requires
        forall|f: Finding| #[trigger]
            stays(f) <==> f.severity == severity && severity.blocks(threshold),
    ensures
        lists::kept(blocking_of(findings, severity, threshold), findings, stays),
{
    let keep = |finding: Finding| finding.severity == severity;
    if severity.blocks(threshold) {
        lists::a_filter_keeps(findings, keep, stays);
    } else {
        let none = Seq::<int>::empty();
        assert(lists::places(none, findings.len() as int, lists::each(findings, stays)));
        assert(lists::taken(findings, none) =~= Seq::empty());
    }
}

/// A threshold is what it names, in either case and whatever space is around it; and the middle one
/// where it names none of the three.
pub proof fn a_threshold_is_what_it_names(raw: Seq<char>)
    ensures
        threshold_of(raw) == Severity::P1 <==> text::trimmed(raw) == "P1"@ || text::trimmed(raw)
            == "p1"@,
        threshold_of(raw) == Severity::P3 <==> text::trimmed(raw) == "P3"@ || text::trimmed(raw)
            == "p3"@,
{
    reveal_strlit("P1");
    reveal_strlit("P2");
    reveal_strlit("P3");
    reveal_strlit("p1");
    reveal_strlit("p3");
    let named = text::trimmed(raw);
    let low = text::lowered(named);
    let one = text::lowered("P1"@);
    let two = text::lowered("P2"@);
    let three = text::lowered("P3"@);
    assert("P1"@.len() == 2 && "P1"@[0] == 'P' && "P1"@[1] == '1');
    assert("P2"@.len() == 2 && "P2"@[0] == 'P' && "P2"@[1] == '2');
    assert("P3"@.len() == 2 && "P3"@[0] == 'P' && "P3"@[1] == '3');
    assert("p1"@.len() == 2 && "p1"@[0] == 'p' && "p1"@[1] == '1');
    assert("p3"@.len() == 2 && "p3"@[0] == 'p' && "p3"@[1] == '3');
    assert(one[0] == 'p' && one[1] == '1');
    assert(two[0] == 'p' && two[1] == '2');
    assert(three[0] == 'p' && three[1] == '3');
    assert(low.len() == named.len());
    assert(one.len() == 2 && two.len() == 2 && three.len() == 2);
    if low == one || low == three {
        assert(low[0] == text::ascii_lower(named[0]) && low[1] == text::ascii_lower(named[1]));
        assert(low[0] == 'p');
        assert(named[0] == 'p' || named[0] == 'P');
        assert(named[1] == low[1]);
        if low == one {
            assert(named =~= "P1"@ || named =~= "p1"@);
        } else {
            assert(named =~= "P3"@ || named =~= "p3"@);
        }
    }
    if named == "P1"@ || named == "p1"@ {
        assert(low =~= one);
    }
    if named == "P3"@ || named == "p3"@ {
        assert(low =~= three);
        assert(low[1] != one[1]);
        assert(low[1] != two[1]);
    }
}

/// Where a finding is, is told exactly where it names a file, with the line where it has one.
pub proof fn a_finding_is_placed_where_it_names_a_file(finding: Finding)
    ensures
        finding.file@.len() == 0 ==> place(finding).len() == 0,
        finding.file@.len() > 0 && finding.line is None ==> place(finding) == " ("@ + finding.file@
            + ")"@,
        finding.file@.len() > 0 && finding.line is Some ==> place(finding) == " ("@ + finding.file@
            + ":"@ + text::decimal(finding.line->0 as nat) + ")"@,
{
}

/// A correction tells every finding, in order: how bad it is, where, what, and when it fails.
pub proof fn every_finding_is_told(a: Seq<Finding>, b: Seq<Finding>, finding: Finding)
    ensures
        told_all(a + b) == told_all(a) + told_all(b),
        told_all(seq![finding]) == "- ["@ + finding.severity.label() + "]"@ + place(finding) + " "@ + finding.summary@ + "\n  Fails when: "@ + finding.failure_scenario@ + "\n\n"@,
    decreases b.len(),
{
    let one = seq![finding];
    assert(one.drop_last() =~= Seq::empty());
    assert(told_all(one.drop_last()) =~= Seq::empty());
    assert(told_all(one) =~= "- ["@ + finding.severity.label() + "]"@ + place(finding) + " "@ + finding.summary@ + "\n  Fails when: "@ + finding.failure_scenario@ + "\n\n"@);
    if b.len() == 0 {
        assert(a + b =~= a);
        assert(told_all(a) + told_all(b) =~= told_all(a));
    } else {
        assert((a + b).drop_last() =~= a + b.drop_last());
        assert((a + b).last() == b.last());
        every_finding_is_told(a, b.drop_last(), finding);
        assert(told_all(a + b) =~= told_all(a) + told_all(b));
    }
}

/// An amended plan gives every finding as a reason, in order.
pub proof fn every_finding_is_a_reason(a: Seq<Finding>, b: Seq<Finding>, finding: Finding)
    ensures
        reasons(a + b) == reasons(a) + reasons(b),
        reasons(seq![finding]) == "- ["@ + finding.severity.label() + "] "@ + finding.summary@ + "\n  Fails when: "@ + finding.failure_scenario@ + "\n"@,
    decreases b.len(),
{
    let one = seq![finding];
    assert(one.drop_last() =~= Seq::empty());
    assert(reasons(one.drop_last()) =~= Seq::empty());
    assert(reasons(one) =~= "- ["@ + finding.severity.label() + "] "@ + finding.summary@ + "\n  Fails when: "@ + finding.failure_scenario@ + "\n"@);
    if b.len() == 0 {
        assert(a + b =~= a);
        assert(reasons(a) + reasons(b) =~= reasons(a));
    } else {
        assert((a + b).drop_last() =~= a + b.drop_last());
        assert((a + b).last() == b.last());
        every_finding_is_a_reason(a, b.drop_last(), finding);
        assert(reasons(a + b) =~= reasons(a) + reasons(b));
    }
}

/// An amended plan lists every requirement, in order, on a line of its own.
pub proof fn every_requirement_is_listed(a: Seq<String>, b: Seq<String>, requirement: String)
    ensures
        bulleted(a + b) == bulleted(a) + bulleted(b),
        bulleted(seq![requirement]) == "- "@ + requirement@ + "\n"@,
    decreases b.len(),
{
    let one = seq![requirement];
    assert(one.drop_last() =~= Seq::empty());
    assert(bulleted(one.drop_last()) =~= Seq::empty());
    assert(bulleted(one) =~= "- "@ + requirement@ + "\n"@);
    if b.len() == 0 {
        assert(a + b =~= a);
        assert(bulleted(a) + bulleted(b) =~= bulleted(a));
    } else {
        assert((a + b).drop_last() =~= a + b.drop_last());
        assert((a + b).last() == b.last());
        every_requirement_is_listed(a, b.drop_last(), requirement);
        assert(bulleted(a + b) =~= bulleted(a) + bulleted(b));
    }
}

/// What a plan is meant to achieve is told where it says so, whole.
pub proof fn an_aim_is_told_where_there_is_one(revised: AnalystOutput)
    ensures
        revised.impact_summary@.len() == 0 <==> aim(revised).len() == 0,
        revised.impact_summary@.len() > 0 ==> aim(revised) == "\nWhat this is meant to achieve:\n"@
            + revised.impact_summary@ + "\n"@,
{
    reveal_strlit("\n");
}

} // verus!
