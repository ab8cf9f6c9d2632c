//! Checkpoints: what a run writes down of each node, and what can be read back out of it.

use vstd::prelude::*;

use crate::error::PlanError;
use crate::json;
use crate::lists;
use crate::text;

verus! {

broadcast use vstd::string::group_string_axioms;

/// What a model turn used.
#[derive(Clone, Copy, Debug, PartialEq, Eq, Structural)]
pub struct TokenUsage {
    pub input_tokens: u64,
    pub output_tokens: u64,
    pub cached_input_tokens: u64,
    pub cache_creation_input_tokens: u64,
    pub reasoning_tokens: u64,
}

impl Default for TokenUsage {
    fn default() -> (r: TokenUsage)
        ensures
            r == (TokenUsage {
                input_tokens: 0,
                output_tokens: 0,
                cached_input_tokens: 0,
                cache_creation_input_tokens: 0,
                reasoning_tokens: 0,
            }),
    {
        TokenUsage {
            input_tokens: 0,
            output_tokens: 0,
            cached_input_tokens: 0,
            cache_creation_input_tokens: 0,
            reasoning_tokens: 0,
        }
    }
}

/// What was measured of the model turns a checkpoint covers. Every field that can be absent is
/// absent where nothing was measured.
#[derive(Clone, Debug)]
pub struct NodeTelemetry {
    pub model: Option<String>,
    pub usage: TokenUsage,
    pub tools: Vec<String>,
    pub tools_used: Vec<String>,
    pub thinking: Option<bool>,
    pub reuses_session: Option<bool>,
    pub turns: Option<u64>,
    pub duration_ms: Option<u64>,
    pub error: Option<String>,
}

impl NodeTelemetry {
    /// Whether a model ran at all. A node without one reports no usage because it had none.
    pub fn ran_a_model(&self) -> (r: bool)
        ensures
            r == (self.model is Some),
    {
        self.model.is_some()
    }
}

/// Nothing measured.
pub open spec fn unmeasured(telemetry: NodeTelemetry) -> bool {
    &&& telemetry.model is None
    &&& telemetry.usage == (TokenUsage {
        input_tokens: 0,
        output_tokens: 0,
        cached_input_tokens: 0,
        cache_creation_input_tokens: 0,
        reasoning_tokens: 0,
    })
    &&& telemetry.tools@.len() == 0
    &&& telemetry.tools_used@.len() == 0
    &&& telemetry.thinking is None
    &&& telemetry.reuses_session is None
    &&& telemetry.turns is None
    &&& telemetry.duration_ms is None
    &&& telemetry.error is None
}

impl Default for NodeTelemetry {
    fn default() -> (r: NodeTelemetry)
        ensures
            unmeasured(r),
    {
        NodeTelemetry {
            model: None,
            usage: TokenUsage::default(),
            tools: Vec::new(),
            tools_used: Vec::new(),
            thinking: None,
            reuses_session: None,
            turns: None,
            duration_ms: None,
            error: None,
        }
    }
}

/// One execution: its own identity, and that of the one that invoked it. A name never identifies an
/// execution, as one stage may be invoked repeatedly and at once.
#[derive(Clone, Copy, Debug, PartialEq, Eq, Structural)]
pub struct Invocation {
    pub span_id: u64,
    pub parent_span_id: Option<u64>,
}

/// A checkpoint as it is read back.
#[derive(Clone, Debug)]
pub struct Checkpoint {
    pub node_name: String,
    pub output_json: String,
    pub input_json: Option<String>,
    pub iteration: Option<u32>,
    pub invocation: Option<Invocation>,
    pub telemetry: NodeTelemetry,
}

/// Where in a list of checkpoints the last of a node stands, -1 where it has none.
pub open spec fn last_of(checkpoints: Seq<Checkpoint>, node: Seq<char>) -> int
    decreases checkpoints.len(),
{
    if checkpoints.len() == 0 {
        -1
    } else if checkpoints.last().node_name@ == node {
        checkpoints.len() - 1
    } else {
        last_of(checkpoints.drop_last(), node)
    }
}

/// What `last_of` finds is a checkpoint of the node, and none of it stands after it.
pub proof fn last_is_last(checkpoints: Seq<Checkpoint>, node: Seq<char>)
    ensures
        -1 <= last_of(checkpoints, node) < checkpoints.len(),
        last_of(checkpoints, node) >= 0 ==> checkpoints[last_of(checkpoints, node)].node_name@ == node,
        forall|i: int|
            last_of(checkpoints, node) < i < checkpoints.len() ==> (
            #[trigger] checkpoints[i]).node_name@ != node,
    decreases checkpoints.len(),
{
    if checkpoints.len() > 0 && checkpoints.last().node_name@ != node {
        last_is_last(checkpoints.drop_last(), node);
        assert forall|i: int| last_of(checkpoints, node) < i < checkpoints.len() implies (
        #[trigger] checkpoints[i]).node_name@ != node by {
            if i < checkpoints.len() - 1 {
                assert(checkpoints.drop_last()[i] == checkpoints[i]);
            }
        }
    }
}

/// The last checkpoint of a node: a converge loop writes one per pass, and the latest is the one
/// that stands.
pub fn latest<'a>(checkpoints: &'a [Checkpoint], node: &str) -> (r: Option<&'a Checkpoint>)
    ensures
        match r {
            Some(checkpoint) => last_of(checkpoints@, node@) >= 0 && *checkpoint
                == checkpoints@[last_of(checkpoints@, node@)],
            None => last_of(checkpoints@, node@) < 0,
        },
{
    let mut i: usize = checkpoints.len();
    assert(checkpoints@.take(i as int) =~= checkpoints@);
    while i > 0
        invariant
            i <= checkpoints@.len(),
            last_of(checkpoints@.take(i as int), node@) == last_of(checkpoints@, node@),
        decreases i,
    {
        let ghost seen = checkpoints@.take(i as int);
        assert(seen.last() == checkpoints@[i - 1]);
        assert(seen.drop_last() =~= checkpoints@.take(i - 1));
        if text::same(checkpoints[i - 1].node_name.as_str(), node) {
            return Some(&checkpoints[i - 1]);
        }
        i -= 1;
    }
    None
}

/// What a node last produced.
pub fn latest_output(checkpoints: &[Checkpoint], node: &str) -> (r: Option<String>)
    ensures
        match r {
            Some(output) => last_of(checkpoints@, node@) >= 0 && output
                == checkpoints@[last_of(checkpoints@, node@)].output_json,
            None => last_of(checkpoints@, node@) < 0,
        },
{
    match latest(checkpoints, node) {
        Some(checkpoint) => Some(checkpoint.output_json.clone()),
        None => None,
    }
}

/// The last checkpoint of a node a run must have.
pub fn required<'a>(checkpoints: &'a [Checkpoint], run_id: &str, node: &'static str) -> (r: Result<
    &'a Checkpoint,
    PlanError,
>)
    ensures
        if last_of(checkpoints@, node@) >= 0 {
            r matches Ok(checkpoint) && *checkpoint == checkpoints@[last_of(checkpoints@, node@)]
        } else {
            r matches Err(PlanError::MissingCheckpoint(run, name)) && run@ == run_id@ && name@
                == node@
        },
{
    match latest(checkpoints, node) {
        Some(checkpoint) => Ok(checkpoint),
        None => Err(PlanError::MissingCheckpoint(run_id.to_owned(), node)),
    }
}

/// Being a checkpoint of a node.
pub open spec fn is_of(node: Seq<char>) -> spec_fn(Checkpoint) -> bool {
    |checkpoint: Checkpoint| checkpoint.node_name@ == node
}

/// The checkpoints of one node.
pub open spec fn of(checkpoints: Seq<Checkpoint>, node: Seq<char>) -> Seq<Checkpoint> {
    checkpoints.filter(is_of(node))
}

/// How many checkpoints a node has.
pub fn count(checkpoints: &[Checkpoint], node: &str) -> (r: usize)
    ensures
        r == of(checkpoints@, node@).len(),
{
    let ghost named = is_of(node@);
    let mut n: usize = 0;
    let mut i: usize = 0;
    proof {
        reveal(Seq::filter);
    }
    while i < checkpoints.len()
        invariant
            n <= i <= checkpoints@.len(),
            named == is_of(node@),
            n == checkpoints@.take(i as int).filter(named).len(),
        decreases checkpoints@.len() - i,
    {
        if text::same(checkpoints[i].node_name.as_str(), node) {
            n += 1;
        }
        i += 1;
        proof {
            reveal(Seq::filter);
            assert(checkpoints@.take(i as int).drop_last() =~= checkpoints@.take(i - 1));
            assert(checkpoints@.take(i as int).last() == checkpoints@[i - 1]);
        }
    }
    assert(checkpoints@.take(i as int) =~= checkpoints@);
    n
}

/// What the `issue` checkpoint's output says the issue is: empty where there is none, where it is
/// not JSON, or where its `issue` is not a string.
pub open spec fn issue_of(read: Option<Result<Option<Option<Seq<char>>>, Seq<char>>>) -> Seq<char> {
    match read {
        Some(Ok(Some(Some(issue)))) => issue,
        _ => Seq::empty(),
    }
}

/// The issue, from what was read at `/issue` in the checkpoint's output.
pub fn issue_from(read: Option<Result<Option<Option<String>>, String>>) -> (r: String)
    ensures
        r@ == issue_of(
            match read {
                Some(result) => Some(json::found(result)),
                None => None,
            },
        ),
{
    match read {
        Some(Ok(Some(Some(issue)))) => issue,
        _ => {
            let empty = "".to_owned();
            proof {
                reveal_strlit("");
            }
            assert(empty@ =~= Seq::empty());
            empty
        },
    }
}

/// The issue a run was given.
pub open spec fn run_issue(checkpoints: Seq<Checkpoint>) -> Seq<char> {
    let at = last_of(checkpoints, "issue"@);
    issue_of(
        if at >= 0 {
            Some(json::json_at(checkpoints[at].output_json@, "/issue"@))
        } else {
            None
        },
    )
}

/// The issue a run was given, from its checkpoints.
pub fn issue(checkpoints: &[Checkpoint]) -> (r: String)
    ensures
        r@ == run_issue(checkpoints@),
{
    match latest(checkpoints, "issue") {
        Some(checkpoint) => issue_from(
            Some(json::read_at(checkpoint.output_json.as_str(), "/issue")),
        ),
        None => issue_from(None),
    }
}

/// Fewest output tokens that could plausibly have produced `bytes` of output. Eight bytes per token
/// is far below any real tokenizer, so this cannot fire on a merely surprising number.
pub fn plausible_output_tokens(bytes: usize) -> (r: u64)
    ensures
        r as int == bytes as int / 8,
{
    (bytes / 8) as u64
}

/// A hexadecimal digit, in lower case.
pub open spec fn hex_digit(d: int) -> char {
    if 0 <= d < 10 {
        text::digit(d)
    } else if d == 10 {
        'a'
    } else if d == 11 {
        'b'
    } else if d == 12 {
        'c'
    } else if d == 13 {
        'd'
    } else if d == 14 {
        'e'
    } else {
        'f'
    }
}

/// The last `width` hexadecimal digits of a number.
pub open spec fn hex(n: nat, width: nat) -> Seq<char>
    decreases width,
{
    if width == 0 {
        Seq::empty()
    } else {
        hex(n / 16, (width - 1) as nat).push(hex_digit((n % 16) as int))
    }
}

/// A number written in hexadecimal is digits, one for each place.
pub proof fn hex_is_digits(n: nat, width: nat)
    ensures
        hex(n, width).len() == width,
        forall|i: int|
            0 <= i < width ==> exists|d: int|
                0 <= d < 16 && #[trigger] hex_digit(d) == #[trigger] hex(n, width)[i],
    decreases width,
{
    if width > 0 {
        let front = hex(n / 16, (width - 1) as nat);
        hex_is_digits(n / 16, (width - 1) as nat);
        assert forall|i: int| 0 <= i < width implies exists|d: int|
            0 <= d < 16 && #[trigger] hex_digit(d) == #[trigger] hex(n, width)[i] by {
            if i < width - 1 {
                assert(hex(n, width)[i] == front[i]);
            } else {
                assert(hex_digit((n % 16) as int) == hex(n, width)[i]);
            }
        }
    }
}

fn hex_char(d: u64) -> (r: char)
    requires
        d < 16,
    ensures
        r == hex_digit(d as int),
{
    if d < 10 {
        text::digit_char(d)
    } else if d == 10 {
        'a'
    } else if d == 11 {
        'b'
    } else if d == 12 {
        'c'
    } else if d == 13 {
        'd'
    } else if d == 14 {
        'e'
    } else {
        'f'
    }
}

fn push_hex(n: u64, width: usize, out: &mut String)
    ensures
        final(out)@ == old(out)@ + hex(n as nat, width as nat),
    decreases width,
{
    if width == 0 {
        assert(out@ + Seq::<char>::empty() =~= out@);
    } else {
        let ghost before = out@;
        push_hex(n / 16, width - 1, out);
        out.push(hex_char(n % 16));
        proof {
            let front = hex((n / 16) as nat, (width - 1) as nat);
            assert((before + front).push(hex_digit((n % 16) as int)) =~= before + front.push(
                hex_digit((n % 16) as int),
            ));
        }
    }
}

/// A number as sixteen hexadecimal digits: how an execution, and a fingerprint, is written.
pub fn sixteen_hex(n: u64) -> (r: String)
    ensures
        r@ == hex(n as nat, 16),
{
    let mut out = "".to_owned();
    proof {
        reveal_strlit("");
        assert(out@ =~= Seq::empty());
    }
    push_hex(n, 16, &mut out);
    assert(Seq::<char>::empty() + hex(n as nat, 16) =~= hex(n as nat, 16));
    out
}

/// What a node's turns left in the ledger when its checkpoint claimed them.
#[derive(Clone, Debug)]
pub struct Claimed {
    pub telemetry: NodeTelemetry,
    pub invocation: Option<Invocation>,
}

/// A checkpoint as it is written.
#[derive(Clone, Debug)]
pub struct CheckpointWrite {
    pub run_id: String,
    pub node_name: String,
    pub output_json: String,
    pub input_json: Option<String>,
    pub iteration: Option<u32>,
    pub invocation: Option<Invocation>,
    pub telemetry: NodeTelemetry,
}

/// What is logged when a node has produced output. What the record does not have, the event does
/// not claim.
#[derive(Clone, Debug)]
pub struct CheckpointEvent {
    pub node: String,
    pub span_id: Option<String>,
    pub parent_span_id: Option<String>,
    pub bytes: usize,
    pub iteration: Option<u32>,
    pub model: Option<String>,
    pub tools: String,
    pub tools_used: String,
    pub thinking: Option<bool>,
    pub reuses_session: Option<bool>,
    pub turns: Option<u64>,
    pub error: Option<String>,
    pub duration_ms: Option<u64>,
    /// The cost of the turns, absent where no model ran: zero tokens is a claim, not an absence.
    pub usage: Option<TokenUsage>,
}

/// One checkpoint to write: which node, what it produced, and, for a node that ran a model, what it
/// was given and what its turns cost.
#[derive(Clone, Debug)]
pub struct Record {
    pub run_id: String,
    pub node: String,
    /// What the node produced, already serialized.
    pub output_json: String,
    /// What the node was given, already serialized; `None` where there was none.
    pub input: Option<String>,
    /// Which pass of the converge loop this is; `None` for a node that runs once.
    pub iteration: Option<u32>,
    /// What the ledger held for the node; `None` where there is no ledger, or nothing in it.
    pub claimed: Option<Claimed>,
}

impl Record {
    /// A checkpoint with nothing to measure: no recorded input, no model turn behind it.
    pub fn plain(run_id: &str, node: &str, output_json: &str) -> (r: Record)
        ensures
            r.run_id@ == run_id@,
            r.node@ == node@,
            r.output_json@ == output_json@,
            r.input is None,
            r.iteration is None,
            r.claimed is None,
    {
        Record {
            run_id: run_id.to_owned(),
            node: node.to_owned(),
            output_json: output_json.to_owned(),
            input: None,
            iteration: None,
            claimed: None,
        }
    }
}

/// What comes of recording a checkpoint.
#[derive(Clone, Debug)]
pub struct Recorded {
    pub write: CheckpointWrite,
    pub event: CheckpointEvent,
    /// The fewest tokens the output could plausibly have taken, where a model ran and reported
    /// fewer.
    pub short_of: Option<u64>,
}

/// A span, as it is logged.
pub open spec fn span_text(span: Option<u64>) -> Option<Seq<char>> {
    match span {
        Some(id) => Some(hex(id as nat, 16)),
        None => None,
    }
}

/// The execution a checkpoint belongs to: that of the turns it covers, or else the one it is written
/// inside.
pub open spec fn execution(claimed: Option<Claimed>, current: Option<Invocation>) -> Option<
    Invocation,
> {
    match claimed {
        Some(Claimed { invocation: Some(own), .. }) => Some(own),
        _ => current,
    }
}

/// What a checkpoint reports of the turns it covers: what was claimed, or nothing measured.
pub open spec fn measured(claimed: Option<Claimed>, telemetry: NodeTelemetry) -> bool {
    match claimed {
        Some(claimed) => telemetry == claimed.telemetry,
        None => unmeasured(telemetry),
    }
}

/// The event says what the row says.
pub open spec fn logs(event: CheckpointEvent, write: CheckpointWrite) -> bool {
    let telemetry = write.telemetry;
    &&& event.node == write.node_name
    &&& text::opt(event.span_id) == span_text(
        match write.invocation {
            Some(invocation) => Some(invocation.span_id),
            None => None,
        },
    )
    &&& text::opt(event.parent_span_id) == span_text(
        match write.invocation {
            Some(invocation) => invocation.parent_span_id,
            None => None,
        },
    )
    &&& event.bytes == text::byte_len(write.output_json@)
    &&& event.iteration == write.iteration
    &&& event.model == telemetry.model
    &&& event.tools@ == text::joined(text::views(telemetry.tools@), ","@)
    &&& event.tools_used@ == text::joined(text::views(telemetry.tools_used@), ","@)
    &&& event.thinking == telemetry.thinking
    &&& event.reuses_session == telemetry.reuses_session
    &&& event.turns == telemetry.turns
    &&& event.error == telemetry.error
    &&& event.duration_ms == telemetry.duration_ms
    &&& event.usage == if telemetry.model is Some {
        Some(telemetry.usage)
    } else {
        None
    }
}

fn span(id: Option<u64>) -> (r: Option<String>)
    ensures
        text::opt(r) == span_text(id),
{
    match id {
        Some(id) => Some(sixteen_hex(id)),
        None => None,
    }
}

/// Settles what one checkpoint writes and logs. `current` is the execution it is written inside.
pub fn record(entry: Record, current: Option<Invocation>) -> (r: Recorded)
    ensures
        r.write.run_id == entry.run_id,
        r.write.node_name == entry.node,
        r.write.output_json == entry.output_json,
        r.write.input_json == entry.input,
        r.write.iteration == entry.iteration,
        r.write.invocation == execution(entry.claimed, current),
        measured(entry.claimed, r.write.telemetry),
        logs(r.event, r.write),
        r.short_of == (if r.write.telemetry.model is Some && r.write.telemetry.usage.output_tokens
            < text::byte_len(entry.output_json@) as int / 8 {
            Some((text::byte_len(entry.output_json@) as int / 8) as u64)
        } else {
            None
        }),
{
    let bytes: usize = text::bytes_in(entry.output_json.as_str());
    let claimed = match entry.claimed {
        Some(claimed) => claimed,
        None => Claimed { telemetry: NodeTelemetry::default(), invocation: None },
    };
    let telemetry = claimed.telemetry;
    let invocation = match claimed.invocation {
        Some(own) => Some(own),
        None => current,
    };
    let floor: u64 = plausible_output_tokens(bytes);
    let short_of: Option<u64> = if telemetry.ran_a_model() && telemetry.usage.output_tokens < floor {
        Some(floor)
    } else {
        None
    };
    let (span_id, parent_span_id) = match invocation {
        Some(invocation) => (span(Some(invocation.span_id)), span(invocation.parent_span_id)),
        None => (span(None), span(None)),
    };
    let usage = if telemetry.ran_a_model() {
        Some(telemetry.usage)
    } else {
        None
    };
    let event = CheckpointEvent {
        node: entry.node.clone(),
        span_id,
        parent_span_id,
        bytes,
        iteration: entry.iteration,
        model: text::copy_opt(&telemetry.model),
        tools: text::join(telemetry.tools.as_slice(), ","),
        tools_used: text::join(telemetry.tools_used.as_slice(), ","),
        thinking: telemetry.thinking,
        reuses_session: telemetry.reuses_session,
        turns: telemetry.turns,
        error: text::copy_opt(&telemetry.error),
        duration_ms: telemetry.duration_ms,
        usage,
    };
    let write = CheckpointWrite {
        run_id: entry.run_id,
        node_name: entry.node,
        output_json: entry.output_json,
        input_json: entry.input,
        iteration: entry.iteration,
        invocation,
        telemetry,
    };
    Recorded { write, event, short_of }
}

/// A checkpoint that covers no model turn reports no cost rather than zero, and belongs to the
/// execution it is written inside.
pub proof fn a_turn_less_checkpoint_reports_no_cost(event: CheckpointEvent, write: CheckpointWrite)
    requires
        measured(None, write.telemetry),
        logs(event, write),
    ensures
        event.usage is None,
        event.turns is None,
        event.duration_ms is None,
        event.model is None,
        event.error is None,
{
}

/// Two executions that are logged alike are one: the sixteen digits tell every identity apart.
pub proof fn a_logged_span_names_one_execution(a: u64, b: u64)
    requires
        span_text(Some(a)) == span_text(Some(b)),
    ensures
        a == b,
{
    assert(power16(16) == 0x1_0000_0000_0000_0000nat) by {
        reveal_with_fuel(power16, 17);
    }
    hex_tells_apart(a as nat, b as nat, 16);
}

/// Sixteen to a power.
pub open spec fn power16(width: nat) -> nat
    decreases width,
{
    if width == 0 {
        1
    } else {
        16 * power16((width - 1) as nat)
    }
}

proof fn hex_tells_apart(a: nat, b: nat, width: nat)
    requires
        a < power16(width),
        b < power16(width),
        hex(a, width) == hex(b, width),
    ensures
        a == b,
    decreases width,
{
    if width > 0 {
        let less = (width - 1) as nat;
        let fa = hex(a / 16, less);
        let fb = hex(b / 16, less);
        assert(hex(a, width).drop_last() =~= fa);
        assert(hex(b, width).drop_last() =~= fb);
        assert(hex(a, width).last() == hex_digit((a % 16) as int));
        assert(hex(b, width).last() == hex_digit((b % 16) as int));
        hex_tells_apart(a / 16, b / 16, less);
        assert(a % 16 == b % 16);
    }
}

/// The checkpoints of a node are all those with its name, in order; so their number is how many there
/// are.
pub proof fn a_nodes_checkpoints_are_all_of_its_name(checkpoints: Seq<Checkpoint>, node: Seq<char>)
    ensures
        lists::kept(
            of(checkpoints, node),
            checkpoints,
            |checkpoint: Checkpoint| checkpoint.node_name@ == node,
        ),
        lists::amount(
            of(checkpoints, node).len() as int,
            checkpoints.len() as int,
            lists::each(checkpoints, |checkpoint: Checkpoint| checkpoint.node_name@ == node),
        ),
{
    let keep = |checkpoint: Checkpoint| checkpoint.node_name@ == node;
    lists::a_filter_keeps(checkpoints, is_of(node), keep);
    let at = choose|at: Seq<int>| #[trigger]
        lists::places(at, checkpoints.len() as int, lists::each(checkpoints, keep)) && of(
            checkpoints,
            node,
        ) == lists::taken(checkpoints, at);
    assert(lists::places(at, checkpoints.len() as int, lists::each(checkpoints, keep)));
}

/// A checkpoint belongs to the execution of the turns it covers where those have one, and otherwise to
/// the one it is written inside.
pub proof fn a_checkpoint_belongs_to_its_own_execution(
    claimed: Option<Claimed>,
    current: Option<Invocation>,
)
    ensures
        claimed is Some && claimed->0.invocation is Some ==> execution(claimed, current)
            == claimed->0.invocation,
        !(claimed is Some && claimed->0.invocation is Some) ==> execution(claimed, current) == current,
{
}

/// What the log says of a checkpoint is what its row says: its node, its size, its pass, and every
/// measurement; and its cost exactly where a model ran.
pub proof fn the_log_says_what_the_row_says(event: CheckpointEvent, write: CheckpointWrite)
    requires
        logs(event, write),
    ensures
        event.node@ == write.node_name@,
        event.bytes == text::byte_len(write.output_json@),
        event.iteration == write.iteration,
        event.model == write.telemetry.model,
        event.tools@ == text::joined(text::views(write.telemetry.tools@), ","@),
        event.tools_used@ == text::joined(text::views(write.telemetry.tools_used@), ","@),
        event.thinking == write.telemetry.thinking,
        event.reuses_session == write.telemetry.reuses_session,
        event.turns == write.telemetry.turns,
        event.error == write.telemetry.error,
        event.duration_ms == write.telemetry.duration_ms,
        event.usage is Some <==> write.telemetry.model is Some,
        event.usage is Some ==> event.usage->0 == write.telemetry.usage,
        event.span_id is Some <==> write.invocation is Some,
        event.span_id is Some ==> event.span_id->0@ == hex(write.invocation->0.span_id as nat, 16),
        event.parent_span_id is Some <==> write.invocation is Some
            && write.invocation->0.parent_span_id is Some,
        event.parent_span_id is Some ==> event.parent_span_id->0@ == hex(
            write.invocation->0.parent_span_id->0 as nat,
            16,
        ),
{
}

/// What a run of hexadecimal digits says, read from the left.
pub open spec fn hex_reading(digits: Seq<char>) -> int
    decreases digits.len(),
{
    if digits.len() == 0 {
        0
    } else {
        hex_reading(digits.drop_last()) * 16 + (if digits.last() <= '9' {
            digits.last() as int - '0' as int
        } else {
            digits.last() as int - 'a' as int + 10
        })
    }
}

/// A number that is written in hexadecimal is read back.
pub proof fn a_written_hex_number_is_read_back(n: nat, width: nat)
    requires
        n < power16(width),
    ensures
        hex_reading(hex(n, width)) == n,
        hex(n, width).len() == width,
    decreases width,
{
    if width > 0 {
        a_written_hex_number_is_read_back(n / 16, (width - 1) as nat);
        assert(hex(n, width).drop_last() =~= hex(n / 16, (width - 1) as nat));
    }
}

/// The issue of a run is the string its last `issue` checkpoint holds, and nothing where that holds
/// none or there is no such checkpoint.
pub proof fn the_issue_is_what_the_last_issue_checkpoint_holds(checkpoints: Seq<Checkpoint>, i: int)
    ensures
        (forall|j: int| 0 <= j < checkpoints.len() ==> (#[trigger] checkpoints[j]).node_name@ != "issue"@)
            ==> run_issue(checkpoints).len() == 0,
        0 <= i < checkpoints.len() && checkpoints[i].node_name@ == "issue"@ && (forall|j: int|
            i < j < checkpoints.len() ==> (#[trigger] checkpoints[j]).node_name@ != "issue"@) ==> {
            let read = json::json_at(checkpoints[i].output_json@, "/issue"@);
            let held = read is Ok && read->Ok_0 is Some && read->Ok_0->0 is Some;
            &&& held ==> run_issue(checkpoints) == read->Ok_0->0->0
            &&& !held ==> run_issue(checkpoints).len() == 0
        },
{
    last_is_last(checkpoints, "issue"@);
    let at = last_of(checkpoints, "issue"@);
    if at >= 0 {
        assert(checkpoints[at].node_name@ == "issue"@);
    }
}

/// A node that was measured is recorded with what was measured, and one that was not with no model, no
/// tools, nothing spent and nothing known of its turn.
pub proof fn what_was_measured_is_recorded(claimed: Option<Claimed>, telemetry: NodeTelemetry)
    requires
        measured(claimed, telemetry),
    ensures
        claimed is Some ==> telemetry == claimed->0.telemetry,
        claimed is None ==> {
            &&& telemetry.model is None && telemetry.error is None
            &&& telemetry.usage.input_tokens == 0 && telemetry.usage.output_tokens == 0
            &&& telemetry.usage.cached_input_tokens == 0
            &&& telemetry.usage.cache_creation_input_tokens == 0
            &&& telemetry.usage.reasoning_tokens == 0
            &&& telemetry.tools@.len() == 0 && telemetry.tools_used@.len() == 0
            &&& telemetry.thinking is None && telemetry.reuses_session is None
            &&& telemetry.turns is None && telemetry.duration_ms is None
        },
{
}

} // verus!
