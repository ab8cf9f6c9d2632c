//! Run a task's acceptance check in a sandbox, and turn its output into pass/fail.
//!
//! Both the baseline and the implementer's worktree go through here, so the two runs converge
//! compares are produced the same way. Two halves, deliberately separated: the run of the steps is
//! deterministic and reports exit codes; a characterizer is a model that reads the raw output and
//! names the individual checks inside a step.

use vstd::prelude::*;
use vstd::string::StringExecFns;

use crate::lists;
use crate::text;

verus! {

broadcast use vstd::string::group_string_axioms;

/// Where the worktree is mounted inside the sandbox.
pub const GUEST_WORKSPACE: &'static str = "/workspace";

/// One step of an acceptance check.
#[derive(Clone, Debug)]
pub struct AcceptanceStep {
    pub name: String,
    pub command: Vec<String>,
}

/// Whether two steps are the same.
pub open spec fn same_step(a: AcceptanceStep, b: AcceptanceStep) -> bool {
    a.name == b.name && a.command@ == b.command@
}

/// Whether two lists of steps are the same.
pub open spec fn same_steps(a: Seq<AcceptanceStep>, b: Seq<AcceptanceStep>) -> bool {
    &&& a.len() == b.len()
    &&& forall|i: int| 0 <= i < a.len() ==> same_step(#[trigger] a[i], b[i])
}

/// A copy of a list of steps.
pub fn copy_steps(steps: &[AcceptanceStep]) -> (r: Vec<AcceptanceStep>)
    ensures
        same_steps(r@, steps@),
{
    let mut out: Vec<AcceptanceStep> = Vec::new();
    let mut i: usize = 0;
    while i < steps.len()
        invariant
            i <= steps@.len(),
            out@.len() == i,
            forall|j: int| 0 <= j < i ==> same_step(#[trigger] out@[j], steps@[j]),
        decreases steps@.len() - i,
    {
        out.push(
            AcceptanceStep {
                name: steps[i].name.clone(),
                command: text::copies(steps[i].command.as_slice()),
            },
        );
        i += 1;
    }
    out
}

/// What one acceptance step did. Entirely deterministic; no model involved.
#[derive(Clone, Debug)]
pub struct StepOutcome {
    pub name: String,
    pub command: Vec<String>,
    pub exit_code: i32,
    pub output: String,
}

impl StepOutcome {
    /// Whether the step succeeded.
    pub open spec fn succeeded(self) -> bool {
        self.exit_code == 0
    }

    /// Whether the step succeeded.
    pub fn ok(&self) -> (r: bool)
        ensures
            r == self.succeeded(),
    {
        self.exit_code == 0
    }
}

/// Per-check characterization of an acceptance run: the shape converge compares. A check failing
/// before and after is pre-existing; one that only fails after is a regression.
#[derive(Clone, Debug)]
pub struct TestResults {
    pub failing: Vec<String>,
    /// How many checks passed. From exit codes alone this counts whole steps; when a characterizer
    /// read the output it counts individual checks.
    pub passed: usize,
    /// The first non-zero exit across the steps; zero only if every step succeeded.
    pub exit_code: i32,
    /// Combined output, which is context for the failure classifier.
    pub raw_output: String,
}

/// A directory the sandbox sees.
#[derive(Clone, Debug)]
pub struct Mount {
    pub host: String,
    pub guest: String,
    pub read_only: bool,
}

/// What a [`Mount`] says.
pub struct MountView {
    pub host: Seq<char>,
    pub guest: Seq<char>,
    pub read_only: bool,
}

impl View for Mount {
    type V = MountView;

    open spec fn view(&self) -> MountView {
        MountView { host: self.host@, guest: self.guest@, read_only: self.read_only }
    }
}

/// A prepared dependency cache, and where the sandbox finds it.
#[derive(Clone, Debug)]
pub struct CacheMount {
    pub host: String,
    pub guest: String,
}

/// How acceptance steps are sandboxed.
#[derive(Clone, Debug)]
pub struct SandboxConfig {
    pub backend: String,
    pub image: String,
    /// The project's caches, as they apply to one worktree.
    pub caches: Vec<CacheMount>,
    /// The programs that may reach the network.
    pub network_allow: Vec<String>,
}

impl SandboxConfig {
    /// Whether a command may reach the network: its program was named.
    pub open spec fn network(self, command: Seq<String>) -> bool {
        command.len() > 0 && text::views(self.network_allow@).contains(command[0]@)
    }

    /// Whether a command may reach the network. A check that reaches it fails for reasons the
    /// repository does not control, so only a program that was named may.
    pub fn may_use_network(&self, command: &[String]) -> (r: bool)
        ensures
            r == self.network(command@),
    {
        command.len() > 0 && text::contains(self.network_allow.as_slice(), command[0].as_str())
    }
}

/// The worktree, writable, then the caches, read-only.
pub open spec fn mounted(caches: Seq<CacheMount>, worktree: Seq<char>) -> Seq<MountView> {
    seq![MountView { host: worktree, guest: GUEST_WORKSPACE@, read_only: false }] + Seq::new(
        caches.len(),
        |i: int| MountView { host: caches[i].host@, guest: caches[i].guest@, read_only: true },
    )
}

/// The worktree, writable, plus whatever was left in the project's caches, read-only.
///
/// The caches are how a check runs offline in a tree that was just forked. Read-only because several
/// runs read them at once, and a check that could write to one would be changing what every later
/// run sees. The worktree is writable because a check builds, and a build writes.
pub fn mounts_for(cfg: &SandboxConfig, worktree: &str) -> (r: Vec<Mount>)
    ensures
        text::views(r@) == mounted(cfg.caches@, worktree@),
{
    let mut mounts: Vec<Mount> = Vec::new();
    mounts.push(
        Mount {
            host: worktree.to_owned(),
            guest: GUEST_WORKSPACE.to_owned(),
            read_only: false,
        },
    );
    let ghost all = mounted(cfg.caches@, worktree@);
    let mut i: usize = 0;
    assert(text::views(mounts@) =~= all.take(1));
    while i < cfg.caches.len()
        invariant
            i <= cfg.caches@.len(),
            all == mounted(cfg.caches@, worktree@),
            text::views(mounts@) == all.take(i + 1),
        decreases cfg.caches@.len() - i,
    {
        let ghost had = text::views(mounts@);
        let mount = Mount {
            host: cfg.caches[i].host.clone(),
            guest: cfg.caches[i].guest.clone(),
            read_only: true,
        };
        let ghost seen = mount@;
        mounts.push(mount);
        i += 1;
        assert(text::views(mounts@) =~= had.push(seen));
        assert(all.take(i + 1) =~= all.take(i as int).push(seen));
    }
    assert(all.take(i + 1) =~= all);
    mounts
}

/// Only the worktree is ever writable: every other directory a check sees is read-only.
pub proof fn only_the_worktree_is_writable(caches: Seq<CacheMount>, worktree: Seq<char>, i: int)
    requires
        0 <= i < mounted(caches, worktree).len(),
    ensures
        mounted(caches, worktree)[i].read_only <==> i > 0,
        mounted(caches, worktree)[0].host == worktree,
{
}

/// One sandboxed command.
#[derive(Debug)]
pub struct SandboxSpec {
    pub backend: String,
    pub name: String,
    pub image: String,
    pub workdir: String,
    pub mounts: Vec<Mount>,
    pub command: Vec<String>,
    pub cpus: u32,
    pub memory_mib: u32,
    pub network: bool,
}

/// What a sandboxed command did.
#[derive(Clone, Debug)]
pub struct SandboxOutput {
    pub exit_code: i32,
    pub stdout: String,
    pub stderr: String,
}

/// What an acceptance run needs: the policy, who is running it, and the tree it runs in.
pub struct Acceptance<'a> {
    pub cfg: &'a SandboxConfig,
    /// Sandbox name prefix; each step gets its own suffix.
    pub name: &'a str,
    /// The tree these steps run in: this run's worktree, never the checkout.
    pub worktree: &'a str,
    pub steps: &'a [AcceptanceStep],
}

/// What one step that ran is recorded as.
pub open spec fn outcome_of(outcome: StepOutcome, step: AcceptanceStep, out: SandboxOutput) -> bool {
    &&& outcome.name == step.name
    &&& outcome.command@ == step.command@
    &&& outcome.exit_code == out.exit_code
    &&& outcome.output@ == out.stdout@ + "\n"@ + out.stderr@
}

impl Acceptance<'_> {
    /// The sandbox one step runs in.
    ///
    /// Distinct per step: two sandboxes sharing a name is a collision, not a reuse. Offline unless
    /// the configuration named the step's program.
    pub fn spec(&self, i: usize) -> (r: SandboxSpec)
        requires
            i < self.steps@.len(),
        ensures
            r.backend == self.cfg.backend,
            r.name@ == self.name@ + "-"@ + text::decimal(i as nat),
            r.image == self.cfg.image,
            r.workdir@ == GUEST_WORKSPACE@,
            text::views(r.mounts@) == mounted(self.cfg.caches@, self.worktree@),
            r.command@ == self.steps@[i as int].command@,
            r.cpus == 2,
            r.memory_mib == 2048,
            r.network == self.cfg.network(self.steps@[i as int].command@),
    {
        let mut name = self.name.to_owned();
        name.append("-");
        name.append(text::number(i as u64).as_str());
        SandboxSpec {
            backend: self.cfg.backend.clone(),
            name,
            image: self.cfg.image.clone(),
            workdir: GUEST_WORKSPACE.to_owned(),
            mounts: mounts_for(self.cfg, self.worktree),
            command: text::copies(self.steps[i].command.as_slice()),
            cpus: 2,
            memory_mib: 2048,
            network: self.cfg.may_use_network(self.steps[i].command.as_slice()),
        }
    }

    /// Whether the outcomes so far are those of the steps so far, in order.
    pub open spec fn ran(self, outcomes: Seq<StepOutcome>, outs: Seq<SandboxOutput>) -> bool {
        &&& outcomes.len() == outs.len()
        &&& outcomes.len() <= self.steps@.len()
        &&& forall|i: int|
            0 <= i < outcomes.len() ==> outcome_of(
                #[trigger] outcomes[i],
                self.steps@[i],
                outs[i],
            )
    }

    /// Records what the next step's sandbox came to.
    ///
    /// Steps run even after one fails: a later step's output frequently explains an earlier failure.
    /// Only a sandbox that did not run at all ends the run.
    pub fn record(
        &self,
        outcomes: &mut Vec<StepOutcome>,
        result: Result<SandboxOutput, String>,
    ) -> (r: Result<(), String>)
        requires
            old(outcomes)@.len() < self.steps@.len(),
        ensures
            match result {
                Ok(out) => {
                    &&& r is Ok
                    &&& final(outcomes)@.len() == old(outcomes)@.len() + 1
                    &&& final(outcomes)@.drop_last() == old(outcomes)@
                    &&& outcome_of(
                        final(outcomes)@.last(),
                        self.steps@[old(outcomes)@.len() as int],
                        out,
                    )
                },
                Err(error) => {
                    &&& final(outcomes)@ == old(outcomes)@
                    &&& r matches Err(why) && why@ == "sandbox run of acceptance step `"@
                        + self.steps@[old(outcomes)@.len() as int].name@ + "` failed: "@ + error@
                },
            },
    {
        let i: usize = outcomes.len();
        let ghost had = outcomes@;
        let step = &self.steps[i];
        match result {
            Ok(out) => {
                let mut output = out.stdout.clone();
                output.append("\n");
                output.append(out.stderr.as_str());
                outcomes.push(
                    StepOutcome {
                        name: step.name.clone(),
                        command: text::copies(step.command.as_slice()),
                        exit_code: out.exit_code,
                        output,
                    },
                );
                assert(outcomes@.drop_last() =~= had);
                Ok(())
            },
            Err(error) => {
                let mut m = "sandbox run of acceptance step `".to_owned();
                m.append(step.name.as_str());
                m.append("` failed: ");
                m.append(error.as_str());
                Err(m)
            },
        }
    }
}

/// The steps that failed.
pub open spec fn failed_steps(outcomes: Seq<StepOutcome>) -> Seq<Seq<char>>
    decreases outcomes.len(),
{
    if outcomes.len() == 0 {
        Seq::empty()
    } else if outcomes.last().succeeded() {
        failed_steps(outcomes.drop_last())
    } else {
        failed_steps(outcomes.drop_last()).push(outcomes.last().name@)
    }
}

/// The first non-zero exit code, zero when there is none.
pub open spec fn first_failure(outcomes: Seq<StepOutcome>) -> i32
    decreases outcomes.len(),
{
    if outcomes.len() == 0 {
        0
    } else if outcomes[0].exit_code != 0 {
        outcomes[0].exit_code
    } else {
        first_failure(outcomes.drop_first())
    }
}

/// One step's output, under a line that says which step it was.
pub open spec fn section(outcome: StepOutcome) -> Seq<char> {
    "=== "@ + outcome.name@ + " (exit "@ + text::signed_decimal(outcome.exit_code as int) + ") ===\n"@
        + outcome.output@ + "\n"@
}

/// Every step's output, in order.
pub open spec fn sections(outcomes: Seq<StepOutcome>) -> Seq<char>
    decreases outcomes.len(),
{
    if outcomes.len() == 0 {
        Seq::empty()
    } else {
        sections(outcomes.drop_last()) + section(outcomes.last())
    }
}

/// Every step's output, each under a line that says which step it was.
pub fn joined_output(outcomes: &[StepOutcome]) -> (r: String)
    ensures
        r@ == sections(outcomes@),
{
    let mut out = String::new();
    let mut i: usize = 0;
    while i < outcomes.len()
        invariant
            i <= outcomes@.len(),
            out@ == sections(outcomes@.take(i as int)),
        decreases outcomes@.len() - i,
    {
        let o = &outcomes[i];
        let mut part = "=== ".to_owned();
        part.append(o.name.as_str());
        part.append(" (exit ");
        part.append(text::signed_number(o.exit_code as i64).as_str());
        part.append(") ===\n");
        part.append(o.output.as_str());
        part.append("\n");
        out.append(part.as_str());
        i += 1;
        assert(outcomes@.take(i as int).drop_last() =~= outcomes@.take(i - 1));
    }
    assert(outcomes@.take(i as int) =~= outcomes@);
    out
}

/// What exit codes alone say of a run.
pub open spec fn floor_of(results: TestResults, outcomes: Seq<StepOutcome>) -> bool {
    &&& text::views(results.failing@) == failed_steps(outcomes)
    &&& results.passed == outcomes.len() - failed_steps(outcomes).len()
    &&& results.exit_code == first_failure(outcomes)
    &&& results.raw_output@ == sections(outcomes)
}

/// Pass/fail from exit codes alone, one result per step.
///
/// What a run without a characterizer gets, and what everything else is checked against: a step that
/// exited non-zero failed, and no model opinion is involved in that.
pub fn by_exit_code(outcomes: &[StepOutcome]) -> (r: TestResults)
    ensures
        floor_of(r, outcomes@),
{
    let mut failing: Vec<String> = Vec::new();
    let mut passed: usize = 0;
    let mut exit_code: i32 = 0;
    let mut i: usize = 0;
    assert(text::views(failing@) =~= Seq::empty());
    assert(outcomes@.skip(0) =~= outcomes@);
    while i < outcomes.len()
        invariant
            i <= outcomes@.len(),
            text::views(failing@) == failed_steps(outcomes@.take(i as int)),
            passed + failing@.len() == i,
            exit_code == 0 ==> first_failure(outcomes@.skip(i as int)) == first_failure(outcomes@),
            exit_code != 0 ==> exit_code == first_failure(outcomes@),
        decreases outcomes@.len() - i,
    {
        let ghost had = text::views(failing@);
        assert(outcomes@.skip(i as int).drop_first() =~= outcomes@.skip(i + 1));
        assert(outcomes@.take(i + 1).drop_last() =~= outcomes@.take(i as int));
        if outcomes[i].ok() {
            passed += 1;
        } else {
            failing.push(outcomes[i].name.clone());
            assert(text::views(failing@) =~= had.push(outcomes@[i as int].name@));
            if exit_code == 0 {
                exit_code = outcomes[i].exit_code;
            }
        }
        i += 1;
    }
    proof {
        assert(outcomes@.take(i as int) =~= outcomes@);
        assert(text::views(failing@).len() == failing@.len());
    }
    TestResults { failing, passed, exit_code, raw_output: joined_output(outcomes) }
}

/// The exit code of a run is zero exactly when no step failed.
pub proof fn zero_exit_means_nothing_failed(outcomes: Seq<StepOutcome>)
    ensures
        first_failure(outcomes) == 0 <==> failed_steps(outcomes).len() == 0,
        first_failure(outcomes) == 0 <==> (forall|i: int|
            0 <= i < outcomes.len() ==> (#[trigger] outcomes[i]).succeeded()),
{
    first_failure_is_zero(outcomes);
    failed_steps_are_empty(outcomes);
}

proof fn first_failure_is_zero(outcomes: Seq<StepOutcome>)
    ensures
        first_failure(outcomes) == 0 <==> (forall|i: int|
            0 <= i < outcomes.len() ==> (#[trigger] outcomes[i]).succeeded()),
    decreases outcomes.len(),
{
    if outcomes.len() > 0 {
        let rest = outcomes.drop_first();
        first_failure_is_zero(rest);
        if outcomes[0].exit_code == 0 {
            if forall|i: int| 0 <= i < rest.len() ==> (#[trigger] rest[i]).succeeded() {
                assert forall|i: int| 0 <= i < outcomes.len() implies (
                #[trigger] outcomes[i]).succeeded() by {
                    if i > 0 {
                        assert(rest[i - 1].succeeded());
                    }
                }
            } else {
                let i = choose|i: int| 0 <= i < rest.len() && !(#[trigger] rest[i]).succeeded();
                assert(!outcomes[i + 1].succeeded());
            }
        } else {
            assert(!outcomes[0].succeeded());
        }
    }
}

proof fn failed_steps_are_empty(outcomes: Seq<StepOutcome>)
    ensures
        failed_steps(outcomes).len() == 0 <==> (forall|i: int|
            0 <= i < outcomes.len() ==> (#[trigger] outcomes[i]).succeeded()),
        failed_steps(outcomes).len() <= outcomes.len(),
    decreases outcomes.len(),
{
    if outcomes.len() > 0 {
        let front = outcomes.drop_last();
        failed_steps_are_empty(front);
        if outcomes.last().succeeded() {
            if forall|i: int| 0 <= i < front.len() ==> (#[trigger] front[i]).succeeded() {
                assert forall|i: int| 0 <= i < outcomes.len() implies (
                #[trigger] outcomes[i]).succeeded() by {
                    if i < front.len() {
                        assert(front[i].succeeded());
                    }
                }
            } else {
                let i = choose|i: int| 0 <= i < front.len() && !(#[trigger] front[i]).succeeded();
                assert(!outcomes[i].succeeded());
            }
        } else {
            assert(!outcomes[outcomes.len() - 1].succeeded());
        }
    }
}

/// Where a step exited with something other than zero.
pub open spec fn failing_at(outcomes: Seq<StepOutcome>) -> spec_fn(int) -> bool {
    |i: int| outcomes[i].exit_code != 0
}

/// Where a step exited with zero.
pub open spec fn passing_at(outcomes: Seq<StepOutcome>) -> spec_fn(int) -> bool {
    |i: int| outcomes[i].exit_code == 0
}

/// The names of the steps at some places.
pub open spec fn names_at(outcomes: Seq<StepOutcome>, at: Seq<int>) -> Seq<Seq<char>> {
    Seq::new(at.len(), |k: int| outcomes[at[k]].name@)
}

proof fn steps_are_told_apart(outcomes: Seq<StepOutcome>) -> (r: (Seq<int>, Seq<int>))
    ensures
        lists::places(r.0, outcomes.len() as int, failing_at(outcomes)),
        failed_steps(outcomes) == names_at(outcomes, r.0),
        lists::places(r.1, outcomes.len() as int, passing_at(outcomes)),
        r.0.len() + r.1.len() == outcomes.len(),
    decreases outcomes.len(),
{
    if outcomes.len() == 0 {
        let none = Seq::<int>::empty();
        assert(failed_steps(outcomes) =~= names_at(outcomes, none));
        (none, none)
    } else {
        let front = outcomes.drop_last();
        let n = front.len() as int;
        let (failed, passed) = steps_are_told_apart(front);
        assert forall|p: int| 0 <= p < n implies failing_at(front)(p) == #[trigger] failing_at(
            outcomes,
        )(p) by {
            assert(front[p] == outcomes[p]);
        }
        assert forall|p: int| 0 <= p < n implies passing_at(front)(p) == #[trigger] passing_at(
            outcomes,
        )(p) by {
            assert(front[p] == outcomes[p]);
        }
        lists::places_grow(failed, n, failing_at(front), failing_at(outcomes));
        lists::places_grow(passed, n, passing_at(front), passing_at(outcomes));
        let at = lists::grown(failed, n, failing_at(outcomes)(n));
        assert(failed_steps(outcomes) =~= names_at(outcomes, at));
        (at, lists::grown(passed, n, passing_at(outcomes)(n)))
    }
}

/// Exit codes alone name every step that failed, one entry for each and in order, and count every
/// step that passed: a step that exited non-zero, wherever it stands and whatever came before it, is
/// named and is not counted.
pub proof fn every_failed_step_is_named_and_every_other_counted(
    results: TestResults,
    outcomes: Seq<StepOutcome>,
)
    requires
        floor_of(results, outcomes),
    ensures
        exists|at: Seq<int>| #[trigger]
            lists::places(at, outcomes.len() as int, failing_at(outcomes)) && text::views(
                results.failing@,
            ) == names_at(outcomes, at),
        lists::amount(results.passed as int, outcomes.len() as int, passing_at(outcomes)),
        results.failing@.len() + results.passed == outcomes.len(),
        forall|name: Seq<char>| #[trigger]
            text::named(results.failing@, name) <==> exists|i: int|
                0 <= i < outcomes.len() && (#[trigger] outcomes[i]).exit_code != 0
                    && outcomes[i].name@ == name,
{
    let (failed, passed) = steps_are_told_apart(outcomes);
    assert(text::views(results.failing@) == names_at(outcomes, failed));
    assert(text::views(results.failing@).len() == results.failing@.len());
    assert(results.passed == passed.len());
    assert(lists::places(passed, outcomes.len() as int, passing_at(outcomes)));
    assert forall|name: Seq<char>| #[trigger]
        text::named(results.failing@, name) <==> exists|i: int|
            0 <= i < outcomes.len() && (#[trigger] outcomes[i]).exit_code != 0
                && outcomes[i].name@ == name by {
        if text::named(results.failing@, name) {
            let j = choose|j: int|
                0 <= j < results.failing@.len() && (#[trigger] results.failing@[j])@ == name;
            assert(text::views(results.failing@)[j] == name);
            assert(failing_at(outcomes)(failed[j]));
            assert(outcomes[failed[j]].name@ == name);
        }
        if exists|i: int|
            0 <= i < outcomes.len() && (#[trigger] outcomes[i]).exit_code != 0
                && outcomes[i].name@ == name {
            let i = choose|i: int|
                0 <= i < outcomes.len() && (#[trigger] outcomes[i]).exit_code != 0
                    && outcomes[i].name@ == name;
            assert(failing_at(outcomes)(i));
            assert(failed.contains(i));
            let j = choose|j: int| 0 <= j < failed.len() && failed[j] == i;
            assert(text::views(results.failing@)[j] == name);
            assert(results.failing@[j]@ == name);
        }
    }
}

/// The exit code of a run is that of the first step that did not exit with zero, and zero where every
/// step did.
pub proof fn the_first_failure_is_the_exit_code(results: TestResults, outcomes: Seq<StepOutcome>)
    requires
        floor_of(results, outcomes),
    ensures
        results.exit_code == 0 <==> (forall|i: int|
            0 <= i < outcomes.len() ==> (#[trigger] outcomes[i]).exit_code == 0),
        results.exit_code != 0 ==> exists|i: int|
            {
                &&& 0 <= i < outcomes.len()
                &&& (#[trigger] outcomes[i]).exit_code == results.exit_code
                &&& forall|j: int| 0 <= j < i ==> (#[trigger] outcomes[j]).exit_code == 0
            },
{
    first_failure_stands_somewhere(outcomes);
}

proof fn first_failure_stands_somewhere(outcomes: Seq<StepOutcome>)
    ensures
        first_failure(outcomes) == 0 <==> (forall|i: int|
            0 <= i < outcomes.len() ==> (#[trigger] outcomes[i]).exit_code == 0),
        first_failure(outcomes) != 0 ==> exists|i: int|
            {
                &&& 0 <= i < outcomes.len()
                &&& (#[trigger] outcomes[i]).exit_code == first_failure(outcomes)
                &&& forall|j: int| 0 <= j < i ==> (#[trigger] outcomes[j]).exit_code == 0
            },
    decreases outcomes.len(),
{
    if outcomes.len() > 0 && outcomes[0].exit_code == 0 {
        let rest = outcomes.drop_first();
        first_failure_stands_somewhere(rest);
        assert forall|j: int| 0 < j < outcomes.len() implies #[trigger] outcomes[j] == rest[j - 1] by {}
        if first_failure(rest) != 0 {
            let i = choose|i: int|
                {
                    &&& 0 <= i < rest.len()
                    &&& (#[trigger] rest[i]).exit_code == first_failure(rest)
                    &&& forall|j: int| 0 <= j < i ==> (#[trigger] rest[j]).exit_code == 0
                };
            assert(outcomes[i + 1] == rest[i]);
            assert forall|j: int| 0 <= j < i + 1 implies (#[trigger] outcomes[j]).exit_code == 0 by {
                if j > 0 {
                    assert(rest[j - 1].exit_code == 0);
                }
            }
        } else {
            assert forall|j: int| 0 <= j < outcomes.len() implies (
            #[trigger] outcomes[j]).exit_code == 0 by {
                if j > 0 {
                    assert(rest[j - 1].exit_code == 0);
                }
            }
        }
    }
}

/// The combined output of two runs is that of the one and then that of the other, and that of one
/// step is its output under a line with its name and its exit code. So no step's output is left out.
pub proof fn every_steps_output_is_shown(a: Seq<StepOutcome>, b: Seq<StepOutcome>, step: StepOutcome)
    ensures
        sections(a + b) == sections(a) + sections(b),
        sections(seq![step]) == "=== "@ + step.name@ + " (exit "@ + text::signed_decimal(
            step.exit_code as int,
        ) + ") ===\n"@ + step.output@ + "\n"@,
    decreases b.len(),
{
    let one = seq![step];
    assert(one.drop_last() =~= Seq::empty());
    assert(sections(one) =~= section(step)) by {
        assert(sections(one.drop_last()) =~= Seq::empty());
    }
    if b.len() == 0 {
        assert(a + b =~= a);
        assert(sections(a) + sections(b) =~= sections(a));
    } else {
        assert((a + b).drop_last() =~= a + b.drop_last());
        every_steps_output_is_shown(a, b.drop_last(), step);
        assert(sections(a + b) =~= sections(a) + sections(b));
    }
}

/// What a model extracted from an acceptance run.
#[derive(Clone, Debug)]
pub struct CharacterizerOutput {
    pub failing: Vec<String>,
    /// How many checks passed: a count, never the names.
    pub passed: usize,
}

/// The deterministic acceptance evidence presented to one characterizer turn.
#[derive(Clone, Debug)]
pub struct CharacterizerInput {
    pub outcomes: Vec<StepOutcome>,
}

/// A characterization held to what the exit codes prove.
pub open spec fn reconciled(
    read: CharacterizerOutput,
    floor: TestResults,
    result: TestResults,
) -> bool {
    if floor.exit_code != 0 && read.failing@.len() == 0 {
        result == floor
    } else {
        &&& result.failing == read.failing
        &&& result.passed == (if read.passed >= floor.passed {
            read.passed
        } else {
            floor.passed
        })
        &&& result.exit_code == floor.exit_code
        &&& result.raw_output == floor.raw_output
    }
}

/// Hold the characterization to what the exit codes already prove.
///
/// A run where something failed must never characterize as nothing failing: that is the direction
/// that loses a real regression. The opposite direction needs no guard: extra named failures are at
/// worst noise the loop fixes. And never fewer passes than the exit codes prove ran.
pub fn reconcile(read: CharacterizerOutput, floor: TestResults) -> (r: TestResults)
    ensures
        reconciled(read, floor, r),
{
    if floor.exit_code != 0 && read.failing.len() == 0 {
        return floor;
    }
    TestResults {
        failing: read.failing,
        passed: if read.passed >= floor.passed {
            read.passed
        } else {
            floor.passed
        },
        exit_code: floor.exit_code,
        raw_output: floor.raw_output,
    }
}

/// A characterization never loses a failure the exit codes prove: where a step failed and the model
/// named none, what the exit codes say stands whole; otherwise the model's names stand, with at least
/// as many passes as either of the two counted, and the run's own exit code and output.
pub proof fn a_characterization_is_held_to_the_exit_codes(
    read: CharacterizerOutput,
    floor: TestResults,
    result: TestResults,
)
    requires
        reconciled(read, floor, result),
    ensures
        floor.exit_code != 0 && read.failing@.len() == 0 ==> result == floor,
        floor.exit_code == 0 || read.failing@.len() > 0 ==> {
            &&& result.failing@ == read.failing@
            &&& result.passed >= read.passed
            &&& result.passed >= floor.passed
            &&& result.passed == read.passed || result.passed == floor.passed
        },
        result.exit_code == floor.exit_code,
        result.raw_output@ == floor.raw_output@,
{
}

/// Whether a result is what an acceptance run came to, given what a characterizer made of it.
pub open spec fn characterizes(
    outcomes: Seq<StepOutcome>,
    read: Option<CharacterizerOutput>,
    result: TestResults,
) -> bool {
    match read {
        None => floor_of(result, outcomes),
        Some(read) => exists|floor: TestResults|
            floor_of(floor, outcomes) && #[trigger] reconciled(read, floor, result),
    }
}

/// What an acceptance run is taken to have come to. `read` is what a characterizer made of it;
/// `None` when there is none, when its turn failed, or when its answer did not validate. A
/// characterizer that cannot answer must not fail the run: the exit codes are still there.
pub fn characterized(outcomes: &[StepOutcome], read: Option<CharacterizerOutput>) -> (r: TestResults)
    ensures
        characterizes(outcomes@, read, r),
{
    let floor = by_exit_code(outcomes);
    match read {
        None => floor,
        Some(read) => reconcile(read, floor),
    }
}

/// A run in which a step failed never characterizes as nothing failing, keeps the exit code it had,
/// and never counts fewer passes than its exit codes prove.
pub proof fn a_failing_run_is_never_characterized_away(
    read: CharacterizerOutput,
    floor: TestResults,
    result: TestResults,
    outcomes: Seq<StepOutcome>,
)
    requires
        floor_of(floor, outcomes),
        reconciled(read, floor, result),
    ensures
        failed_steps(outcomes).len() > 0 ==> result.failing@.len() > 0,
        result.exit_code == first_failure(outcomes),
        result.passed >= floor.passed,
{
    zero_exit_means_nothing_failed(outcomes);
    assert(text::views(floor.failing@).len() == floor.failing@.len());
}

/// What a check sees: its own tree first, where it may write, and then every cache, in order, each at
/// its own place and none of them writable.
pub proof fn every_cache_is_mounted_and_none_is_writable(
    caches: Seq<CacheMount>,
    worktree: Seq<char>,
    i: int,
)
    ensures
        mounted(caches, worktree).len() == caches.len() + 1,
        mounted(caches, worktree)[0] == (MountView {
            host: worktree,
            guest: "/workspace"@,
            read_only: false,
        }),
        0 <= i < caches.len() ==> mounted(caches, worktree)[i + 1] == (MountView {
            host: caches[i].host@,
            guest: caches[i].guest@,
            read_only: true,
        }),
{
}

/// A command may reach the network exactly where there is a program in it and the configuration names
/// that program, wherever in its list.
pub proof fn only_a_named_program_reaches_the_network(cfg: SandboxConfig, command: Seq<String>)
    ensures
        cfg.network(command) <==> command.len() > 0 && text::named(
            cfg.network_allow@,
            command[0]@,
        ),
{
    if command.len() > 0 {
        text::named_somewhere(cfg.network_allow@, command[0]@);
    }
}

/// What is recorded of a step is the step's own name and command, and what its sandbox said and how it
/// exited.
pub proof fn an_outcome_is_of_its_step(outcome: StepOutcome, step: AcceptanceStep, out: SandboxOutput)
    requires
        outcome_of(outcome, step, out),
    ensures
        outcome.name@ == step.name@,
        outcome.command@ == step.command@,
        outcome.exit_code == out.exit_code,
        outcome.output@ == out.stdout@ + "\n"@ + out.stderr@,
{
}

/// What an acceptance run comes to with a characterizer: no failure its exit codes prove is ever lost,
/// the exit code is that of its first step that failed, and at least every step that passed is counted.
pub proof fn a_characterized_run_loses_no_failure(
    outcomes: Seq<StepOutcome>,
    read: Option<CharacterizerOutput>,
    result: TestResults,
)
    requires
        characterizes(outcomes, read, result),
    ensures
        (exists|i: int| 0 <= i < outcomes.len() && (#[trigger] outcomes[i]).exit_code != 0)
            ==> result.failing@.len() > 0 && result.exit_code != 0,
        (forall|i: int| 0 <= i < outcomes.len() ==> (#[trigger] outcomes[i]).exit_code == 0)
            ==> result.exit_code == 0,
        read is None ==> floor_of(result, outcomes),
        read is Some && read->0.failing@.len() > 0 ==> result.failing@ == read->0.failing@,
        read is Some && read->0.failing@.len() > 0 ==> result.passed >= read->0.passed,
        result.raw_output@ == sections(outcomes),
{
    let floor = match read {
        None => result,
        Some(read) => choose|floor: TestResults|
            floor_of(floor, outcomes) && #[trigger] reconciled(read, floor, result),
    };
    the_first_failure_is_the_exit_code(floor, outcomes);
    every_failed_step_is_named_and_every_other_counted(floor, outcomes);
    if exists|i: int| 0 <= i < outcomes.len() && (#[trigger] outcomes[i]).exit_code != 0 {
        let i = choose|i: int| 0 <= i < outcomes.len() && (#[trigger] outcomes[i]).exit_code != 0;
        assert(text::named(floor.failing@, outcomes[i].name@));
        let j = choose|j: int|
            0 <= j < floor.failing@.len() && (#[trigger] floor.failing@[j])@ == outcomes[i].name@;
        assert(floor.failing@.len() > 0);
    }
}

/// Steps are the same where there are as many, each with the name and the command of the other.
pub proof fn the_same_steps_run_the_same_commands(a: Seq<AcceptanceStep>, b: Seq<AcceptanceStep>)
    ensures
        same_steps(a, b) <==> a.len() == b.len() && forall|i: int|
            0 <= i < a.len() ==> (#[trigger] a[i]).name == b[i].name && a[i].command@ == b[i].command@,
{
    if same_steps(a, b) {
        assert forall|i: int| 0 <= i < a.len() implies (#[trigger] a[i]).name == b[i].name
            && a[i].command@ == b[i].command@ by {
            assert(same_step(a[i], b[i]));
        }
    }
}

impl Acceptance<'_> {
    /// What has run is the first of the steps, each of them once and in order, with its own output.
    pub proof fn what_ran_is_the_first_of_the_steps(
        self,
        outcomes: Seq<StepOutcome>,
        outs: Seq<SandboxOutput>,
        i: int,
    )
        requires
            self.ran(outcomes, outs),
        ensures
            outcomes.len() == outs.len() <= self.steps@.len(),
            0 <= i < outcomes.len() ==> outcome_of(outcomes[i], self.steps@[i], outs[i]),
    {
    }
}

} // verus!
