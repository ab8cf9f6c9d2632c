//! Node-to-node clarification. A planning node's model can call the synthetic `ask` tool; the call is
//! answered by the target node, run ONCE against its checkpointed context, and the answer is handed
//! back as the tool's result — so the asking node's conversation continues in place, with no re-run.
//! An operator Stop is the sole exception: it terminates the asking turn instead of becoming a
//! synthetic answer.
//!
//! The answerer gets no `ask` tool, so recursion is impossible. Ordinary failures become best-effort
//! guidance, never an error that breaks the asker. A per-run [`ASK_BUDGET`] backstops a runaway
//! asker. Waiting on a person, reading the store and asking the model are done by whoever drives
//! this; what is asked, of whom, and what comes back to the asker is settled here.

use vstd::prelude::*;
use vstd::string::StringExecFns;

use crate::config::Capability;
use crate::config::ModelRoute;
use crate::config::RatatoskrConfig;
use crate::config::RouteView;
use crate::json;
use crate::plugins;
use crate::plugins::NodePlugins;
use crate::routes::ScriptEngine;
use crate::skills::ToolDeclaration;
use crate::stage;
use crate::stage::Stage;
use crate::stage::StageView;
use crate::text;
use crate::tools::ToolSet;

verus! {

broadcast use vstd::string::group_string_axioms;

/// Total `ask` calls allowed per run. Answerers get no `ask` tool, so this is a flat per-run budget,
/// not a recursion depth.
pub const ASK_BUDGET: usize = 4;

/// Turn budget for an answer. Answer mode runs with no tools, so the model answers in one turn; the
/// small ceiling only guards a pathology.
pub const ANSWER_MAX_TURNS: usize = 3;

/// Cap on how much of a target's prior output is fed back as answer context.
pub const CONTEXT_LIMIT: usize = 4000;

/// Hard ceiling on the request that waits for a human, in seconds.
pub const USER_ANSWER_CEILING_SECONDS: u64 = 150;

/// What the tool that asks is called.
pub const ASK_TOOL_NAME: &'static str = "ask";

/// What the tool that asks says of itself.
pub const ASK_TOOL_DESCRIPTION: &'static str =
    "Ask another planning node a question and receive its answer as this tool's result, without ending your turn. Use only when you genuinely cannot proceed without information another node holds.";

/// What the tool that asks takes.
pub const ASK_TOOL_SCHEMA: &'static str =
    "{\"type\":\"object\",\"properties\":{\"to\":{\"type\":\"string\",\"enum\":[\"context\",\"analyst\",\"bookkeeper\",\"redteam\",\"user\"],\"description\":\"Which node to ask. `user` reaches the human operator when one is watching the dashboard, and is answered by the `analyst` when nobody is — so prefer a peer node when one actually holds the answer.\"},\"question\":{\"type\":\"string\",\"description\":\"A self-contained question.\"}},\"required\":[\"to\",\"question\"]}";

/// The synthetic `ask` tool, as it is declared to an asker's model. A system capability, not a tool
/// subject to a ruleset.
pub fn ask_tool() -> (r: ToolDeclaration)
    ensures
        r == (ToolDeclaration {
            name: ASK_TOOL_NAME,
            description: ASK_TOOL_DESCRIPTION,
            input_schema: ASK_TOOL_SCHEMA,
        }),
{
    ToolDeclaration {
        name: ASK_TOOL_NAME,
        description: ASK_TOOL_DESCRIPTION,
        input_schema: ASK_TOOL_SCHEMA,
    }
}

/// What comes back to the asker.
#[derive(Clone, Debug)]
pub enum ClarificationAnswer {
    Text(String),
    /// An operator stopped the turn.
    Stopped,
}

/// What asking a person came to.
#[derive(Clone, Debug)]
pub enum UserAnswer {
    Text(String),
    Unavailable,
    Stopped,
}

/// One completed exchange.
#[derive(Clone, Debug)]
pub struct Exchange {
    pub from: String,
    pub to: String,
    pub question: String,
    pub answer: String,
}

/// The node a target is answered by.
pub open spec fn target_of(to: Seq<char>) -> Seq<char> {
    let name = text::trimmed(to);
    if name == "context"@ {
        "context"@
    } else if name == "bookkeeper"@ {
        "bookkeeper"@
    } else if name == "redteam"@ {
        "redteam"@
    } else {
        "analyst"@
    }
}

/// Map an `ask` target to the node that answers it, which is also the name its prior output is
/// checkpointed under. `analyst` is the fallback for the user, unknown targets, and empty — it can
/// answer from the issue alone.
pub fn resolve_target(to: &str) -> (r: &'static str)
    ensures
        r@ == target_of(to@),
{
    let name = text::trim(to);
    if text::same(name.as_str(), "context") {
        "context"
    } else if text::same(name.as_str(), "bookkeeper") {
        "bookkeeper"
    } else if text::same(name.as_str(), "redteam") {
        "redteam"
    } else {
        "analyst"
    }
}

/// A text cut to at most `max` characters, with an ellipsis where it was cut.
pub open spec fn elided(s: Seq<char>, max: int) -> Seq<char> {
    if s.len() <= max {
        s
    } else {
        s.take(max) + "…"@
    }
}

/// Trim `s` to `max` characters for prompt context, with an ellipsis when cut.
pub fn elide(s: &str, max: usize) -> (r: String)
    ensures
        r@ == elided(s@, max as int),
{
    let chars = text::chars_of(s);
    if chars.len() <= max {
        return s.to_owned();
    }
    let mut cut = text::string_of(vstd::slice::slice_subrange(chars.as_slice(), 0, max));
    assert(cut@ =~= s@.take(max as int));
    cut.append("…");
    cut
}

/// What is known of the one who answers: the route it is run on and how it is addressed.
#[derive(Clone, Debug)]
pub struct Answerer {
    pub route: ModelRoute,
    pub system_prompt: Option<String>,
    pub profile_prompt: String,
}

/// An answerer, by its views.
pub struct AnswererView {
    pub route: RouteView,
    pub system_prompt: Option<String>,
    pub profile_prompt: Seq<char>,
}

impl View for Answerer {
    type V = AnswererView;

    open spec fn view(&self) -> AnswererView {
        AnswererView {
            route: self.route@,
            system_prompt: self.system_prompt,
            profile_prompt: self.profile_prompt@,
        }
    }
}

/// How a stage answers, where it has an agent and somewhere to run.
pub open spec fn stage_answers(engine: ScriptEngine, config: RatatoskrConfig, stage: StageView) -> Option<
    AnswererView,
> {
    match stage::profile_named(stage::profiles_with(config.agents@), stage.agent) {
        None => None,
        Some(profile) => match plugins::turn_route(
            engine,
            config,
            stage.governance(),
            Some(profile),
        ) {
            None => None,
            Some(route) => Some(
                AnswererView {
                    route,
                    system_prompt: match engine.rules(stage.governance()) {
                        Some(rules) => rules.system_prompt,
                        None => None,
                    },
                    profile_prompt: profile.base_prompt,
                },
            ),
        },
    }
}

/// Whether a stage plays a role: by its own id, or by what it is governed by where its id is
/// another.
pub open spec fn plays(stage: StageView, role: Seq<char>, by_id: bool) -> bool {
    if by_id {
        stage.id == role
    } else {
        stage.id != role && stage.governance() == role
    }
}

/// How the first stage that plays a role and can answer does.
pub open spec fn first_answers(
    engine: ScriptEngine,
    config: RatatoskrConfig,
    stages: Seq<StageView>,
    role: Seq<char>,
    by_id: bool,
) -> Option<AnswererView>
    decreases stages.len(),
{
    if stages.len() == 0 {
        None
    } else if plays(stages[0], role, by_id) && stage_answers(engine, config, stages[0]) is Some {
        stage_answers(engine, config, stages[0])
    } else {
        first_answers(engine, config, stages.drop_first(), role, by_id)
    }
}

/// How a role is answered: by the stage of that id, else by one governed under it.
pub open spec fn role_answers(
    engine: ScriptEngine,
    config: RatatoskrConfig,
    stages: Seq<StageView>,
    role: Seq<char>,
) -> Option<AnswererView> {
    match first_answers(engine, config, stages, role, true) {
        Some(answerer) => Some(answerer),
        None => first_answers(engine, config, stages, role, false),
    }
}

fn first_answerer(
    engine: &ScriptEngine,
    config: &RatatoskrConfig,
    stages: &[Stage],
    role: &str,
    by_id: bool,
) -> (r: Option<Answerer>)
    ensures
        text::opt(r) == first_answers(*engine, *config, text::views(stages@), role@, by_id),
{
    let ghost all = text::views(stages@);
    let mut i: usize = 0;
    assert(all.skip(0) =~= all);
    while i < stages.len()
        invariant
            i <= stages@.len(),
            all == text::views(stages@),
            first_answers(*engine, *config, all.skip(i as int), role@, by_id) == first_answers(
                *engine,
                *config,
                all,
                role@,
                by_id,
            ),
        decreases stages@.len() - i,
    {
        let stage = &stages[i];
        assert(all.skip(i as int)[0] == stage@);
        assert(all.skip(i as int).drop_first() =~= all.skip(i + 1));
        let named = text::same(stage.id.as_str(), role);
        let playing = if by_id {
            named
        } else {
            !named && text::same(stage.governance_id(), role)
        };
        if playing {
            let settings = plugins::declared_stage_agent_config(
                engine,
                config,
                ToolSet::new(),
                stage,
                &[],
                &NodePlugins::default(),
                Capability::Read,
                None,
            );
            if let Ok((cfg, profile)) = settings {
                return Some(
                    Answerer {
                        route: cfg.route,
                        system_prompt: cfg.system_prompt,
                        profile_prompt: profile.base_prompt,
                    },
                );
            }
        }
        i += 1;
    }
    None
}

/// The turn settings the run itself would give `role` — resolved through the run's registry, so an
/// answer speaks on the route its stage executes on. Several stages may govern as one name, and they
/// route separately, so this takes the first candidate that *resolves* rather than the first that
/// matches. `None` when the run has no stage for that role, or none of them has a model route.
pub fn answerer_agent(
    engine: &ScriptEngine,
    config: &RatatoskrConfig,
    stages: &[Stage],
    role: &str,
) -> (r: Option<Answerer>)
    ensures
        text::opt(r) == role_answers(*engine, *config, text::views(stages@), role@),
{
    match first_answerer(engine, config, stages, role, true) {
        Some(answerer) => Some(answerer),
        None => first_answerer(engine, config, stages, role, false),
    }
}

/// A role that any stage of the run can play on a route is answered: it is never told away because
/// another stage that plays it has nowhere to run.
pub proof fn a_routed_role_is_answered(
    engine: ScriptEngine,
    config: RatatoskrConfig,
    stages: Seq<StageView>,
    role: Seq<char>,
    i: int,
)
    requires
        0 <= i < stages.len(),
        stages[i].id == role || stages[i].governance() == role,
        stage_answers(engine, config, stages[i]) is Some,
    ensures
        role_answers(engine, config, stages, role) is Some,
{
    first_answers_found(engine, config, stages, role, stages[i].id == role, i);
}

proof fn first_answers_found(
    engine: ScriptEngine,
    config: RatatoskrConfig,
    stages: Seq<StageView>,
    role: Seq<char>,
    by_id: bool,
    i: int,
)
    requires
        0 <= i < stages.len(),
        plays(stages[i], role, by_id),
        stage_answers(engine, config, stages[i]) is Some,
    ensures
        first_answers(engine, config, stages, role, by_id) is Some,
    decreases stages.len(),
{
    if i > 0 {
        assert(stages.drop_first()[i - 1] == stages[i]);
        first_answers_found(engine, config, stages.drop_first(), role, by_id, i - 1);
    }
}

/// What the person's dashboard replied: the `answer` it holds, where that is a string. Any failure
/// is the same `None`, because the response to all of them is the same.
pub open spec fn replied(read: Result<Option<Option<Seq<char>>>, Seq<char>>) -> Option<Seq<char>> {
    match read {
        Ok(Some(Some(answer))) => Some(answer),
        _ => None,
    }
}

/// The answer, from what was read at `/answer` in the reply.
pub fn reply_read(read: Result<Option<Option<String>>, String>) -> (r: Option<String>)
    ensures
        text::opt(r) == replied(json::found(read)),
{
    match read {
        Ok(Some(Some(answer))) => Some(answer),
        _ => None,
    }
}

/// The answer in the dashboard's reply.
pub fn user_reply(body: &[u8]) -> (r: Option<String>)
    ensures
        text::opt(r) == replied(json::json_in_bytes_at(body@, "/answer"@)),
{
    reply_read(json::read_bytes_at(body, "/answer"))
}

/// What waiting on a person came to: `None` where an operator stopped the turn, `Some(None)` where
/// nobody answered.
pub fn user_answered(waited: Option<Option<String>>) -> (r: UserAnswer)
    ensures
        match waited {
            None => r is Stopped,
            Some(Some(answer)) => r == UserAnswer::Text(answer),
            Some(None) => r is Unavailable,
        },
{
    match waited {
        None => UserAnswer::Stopped,
        Some(Some(answer)) => UserAnswer::Text(answer),
        Some(None) => UserAnswer::Unavailable,
    }
}

/// What a person's answer comes to for the asker; `None` where nobody answered and the question goes
/// to a node, which is what an unattended run does anyway.
pub fn from_the_user(answer: UserAnswer) -> (r: Option<ClarificationAnswer>)
    ensures
        match answer {
            UserAnswer::Text(said) => r matches Some(ClarificationAnswer::Text(told)) && told@
                == "Answer from the user:\n"@ + said@,
            UserAnswer::Stopped => r matches Some(ClarificationAnswer::Stopped),
            UserAnswer::Unavailable => r is None,
        },
{
    match answer {
        UserAnswer::Text(said) => {
            let mut told = "Answer from the user:\n".to_owned();
            told.append(said.as_str());
            Some(ClarificationAnswer::Text(told))
        },
        UserAnswer::Stopped => Some(ClarificationAnswer::Stopped),
        UserAnswer::Unavailable => None,
    }
}

/// What an answerer is told it is, ahead of the answering contract.
pub open spec fn persona_of(answerer: AnswererView, role: Seq<char>) -> Seq<char> {
    let base = match answerer.system_prompt {
        Some(prompt) => prompt@,
        None => "You are the "@ + role + " in a code-planning pipeline."@,
    };
    if answerer.profile_prompt.len() == 0 {
        base
    } else {
        answerer.profile_prompt + "\n\n"@ + base
    }
}

/// The answering contract. A ruleset prompt replaces the node's persona, but this always applies —
/// otherwise a scout-shaped prompt would make the answerer go scout instead of answering.
pub const ANSWER_CONTRACT: &'static str =
    "\n\nA peer node is asking you a question mid-run. Answer it concisely and concretely from the context you are given; if you cannot answer from what you have, say so plainly rather than guessing.";

/// What an answerer answers from: the issue, and what it itself last produced.
pub open spec fn context_of(issue: Seq<char>, prior: Option<Seq<char>>) -> Seq<char> {
    let task = "ISSUE:\n"@ + issue + "\n"@;
    match prior {
        Some(output) => task + "\nYOUR PRIOR OUTPUT:\n"@ + elided(output, CONTEXT_LIMIT as int)
            + "\n"@,
        None => task,
    }
}

/// What an answerer is asked.
pub open spec fn prompt_of(from: Seq<char>, question: Seq<char>, context: Seq<char>) -> Seq<char> {
    "A peer node (`"@ + from + "`) asks:\n"@ + question + "\n\nContext:\n"@ + context
}

/// A question to put to a model.
#[derive(Clone, Debug)]
pub struct Consultation {
    pub route: ModelRoute,
    pub preamble: String,
    pub prompt: String,
    pub max_turns: usize,
}

/// What an asker is told when its target has nowhere to run.
pub open spec fn unreachable_text(role: Seq<char>) -> Seq<char> {
    "Could not reach `"@ + role
        + "`: no model route is configured for it. Proceed with your best assumption and flag it as a residual risk."@
}

/// The question put to the node that answers, or what the asker is told where there is none.
/// `prior` is what that node last produced under its own name, and `agent` the settings it runs
/// with. Labelled with the resolved answerer, so a fallback to the analyst is not misattributed.
pub fn consult(
    issue: &str,
    from: &str,
    to: &str,
    question: &str,
    prior: Option<&str>,
    agent: Option<Answerer>,
) -> (r: Result<Consultation, ClarificationAnswer>)
    ensures
        match agent {
            None => r matches Err(ClarificationAnswer::Text(told)) && told@ == unreachable_text(
                target_of(to@),
            ),
            Some(answerer) => r matches Ok(asked) && {
                &&& asked.route == answerer.route
                &&& asked.preamble@ == persona_of(answerer@, target_of(to@)) + ANSWER_CONTRACT@
                &&& asked.prompt@ == prompt_of(
                    from@,
                    question@,
                    context_of(
                        issue@,
                        match prior {
                            Some(output) => Some(output@),
                            None => None,
                        },
                    ),
                )
                &&& asked.max_turns == ANSWER_MAX_TURNS
            },
        },
{
    let role = resolve_target(to);
    let mut context = "ISSUE:\n".to_owned();
    context.append(issue);
    context.append("\n");
    if let Some(output) = prior {
        context.append("\nYOUR PRIOR OUTPUT:\n");
        context.append(elide(output, CONTEXT_LIMIT).as_str());
        context.append("\n");
    }
    let answerer = match agent {
        Some(answerer) => answerer,
        None => {
            let mut told = "Could not reach `".to_owned();
            told.append(role);
            told.append(
                "`: no model route is configured for it. Proceed with your best assumption and flag it as a residual risk.",
            );
            return Err(ClarificationAnswer::Text(told));
        },
    };
    let base = match &answerer.system_prompt {
        Some(prompt) => prompt.clone(),
        None => {
            let mut plain = "You are the ".to_owned();
            plain.append(role);
            plain.append(" in a code-planning pipeline.");
            plain
        },
    };
    let mut preamble = if answerer.profile_prompt.as_str().is_empty() {
        base
    } else {
        let mut full = answerer.profile_prompt.clone();
        full.append("\n\n");
        full.append(base.as_str());
        full
    };
    preamble.append(ANSWER_CONTRACT);
    let mut prompt = "A peer node (`".to_owned();
    prompt.append(from);
    prompt.append("`) asks:\n");
    prompt.append(question);
    prompt.append("\n\nContext:\n");
    prompt.append(context.as_str());
    Ok(Consultation { route: answerer.route, preamble, prompt, max_turns: ANSWER_MAX_TURNS })
}

/// What the model's answer comes to for the asker: an operator Stop terminates the turn, and an
/// ordinary failure stays guidance.
pub fn answer_after_model(role: &str, stopped: bool, response: Result<String, String>) -> (r:
    ClarificationAnswer)
    ensures
        if stopped {
            r is Stopped
        } else {
            r matches ClarificationAnswer::Text(told) && told@ == "Answer from `"@ + role@ + "`:\n"@
                + (match response {
                Ok(said) => said@,
                Err(error) => "could not answer ("@ + error@
                    + "); proceed with your best assumption"@,
            })
        },
{
    if stopped {
        return ClarificationAnswer::Stopped;
    }
    let body = match response {
        Ok(said) => said,
        Err(error) => {
            let mut sorry = "could not answer (".to_owned();
            sorry.append(error.as_str());
            sorry.append("); proceed with your best assumption");
            sorry
        },
    };
    let mut told = "Answer from `".to_owned();
    told.append(role);
    told.append("`:\n");
    told.append(body.as_str());
    ClarificationAnswer::Text(told)
}

/// What an asker is told once the budget is spent.
pub const BUDGET_SPENT: &'static str =
    "The clarification budget for this run is exhausted. Proceed with your best assumption and note it as a residual risk.";

/// Where a question goes first.
#[derive(Clone, Debug)]
pub enum Asking {
    /// Nowhere: the budget is spent, and this is what the asker is told.
    Spent(ClarificationAnswer),
    /// To a person. A question addressed to the user goes to a human first.
    User,
    /// To a node: a peer node holds answers a person does not.
    Node,
}

/// A run's clarifications: how many were asked, and the exchanges they came to.
#[derive(Clone, Debug)]
pub struct NodeClarifier {
    asked: usize,
    recorded: Vec<Exchange>,
}

impl NodeClarifier {
    /// How many questions were charged to the budget.
    pub closed spec fn charged(self) -> int {
        self.asked as int
    }

    /// The exchanges that were completed and not yet taken.
    pub closed spec fn exchanges(self) -> Seq<Exchange> {
        self.recorded@
    }

    /// No more is charged than the budget holds.
    pub open spec fn well_formed(self) -> bool {
        0 <= self.charged() <= ASK_BUDGET
    }

    /// Nothing asked yet.
    pub fn new() -> (r: NodeClarifier)
        ensures
            r.well_formed(),
            r.charged() == 0,
            r.exchanges().len() == 0,
    {
        NodeClarifier { asked: 0, recorded: Vec::new() }
    }

    /// Charges one question to the budget, and says where it goes. Past the budget nothing is asked
    /// of anyone.
    pub fn begin(&mut self, to: &str) -> (r: Asking)
        requires
            old(self).well_formed(),
        ensures
            final(self).well_formed(),
            final(self).exchanges() == old(self).exchanges(),
            if old(self).charged() >= ASK_BUDGET {
                &&& r matches Asking::Spent(ClarificationAnswer::Text(told))
                &&& told@ == BUDGET_SPENT@
                &&& final(self).charged() == old(self).charged()
            } else {
                &&& final(self).charged() == old(self).charged() + 1
                &&& text::trimmed(to@) == "user"@ ==> r is User
                &&& text::trimmed(to@) != "user"@ ==> r is Node
            },
    {
        if self.asked >= ASK_BUDGET {
            return Asking::Spent(ClarificationAnswer::Text(BUDGET_SPENT.to_owned()));
        }
        self.asked = self.asked + 1;
        if text::same(text::trim(to).as_str(), "user") {
            Asking::User
        } else {
            Asking::Node
        }
    }

    /// Records a completed exchange, including one that only found the budget spent. A stopped one
    /// is not completed. What was recorded is handed back, to be checkpointed.
    pub fn record(
        &mut self,
        from: &str,
        to: &str,
        question: &str,
        answer: &ClarificationAnswer,
    ) -> (r: Option<Exchange>)
        ensures
            final(self).charged() == old(self).charged(),
            match answer {
                ClarificationAnswer::Text(told) => {
                    &&& r matches Some(exchange)
                    &&& exchange.from@ == from@
                    &&& exchange.to@ == to@
                    &&& exchange.question@ == question@
                    &&& exchange.answer@ == told@
                    &&& final(self).exchanges() == old(self).exchanges().push(exchange)
                },
                ClarificationAnswer::Stopped => r is None && final(self).exchanges() == old(
                    self,
                ).exchanges(),
            },
    {
        match answer {
            ClarificationAnswer::Text(told) => {
                let exchange = exchange(from, to, question, told.as_str());
                let kept = exchange_copy(&exchange);
                self.recorded.push(exchange);
                Some(kept)
            },
            ClarificationAnswer::Stopped => None,
        }
    }

    /// Takes the recorded exchanges.
    pub fn drain(&mut self) -> (r: Vec<Exchange>)
        ensures
            r@ == old(self).exchanges(),
            final(self).exchanges().len() == 0,
            final(self).charged() == old(self).charged(),
    {
        let mut taken: Vec<Exchange> = Vec::new();
        taken.append(&mut self.recorded);
        assert(taken@ =~= old(self).exchanges());
        taken
    }
}

fn exchange(from: &str, to: &str, question: &str, answer: &str) -> (r: Exchange)
    ensures
        r.from@ == from@,
        r.to@ == to@,
        r.question@ == question@,
        r.answer@ == answer@,
{
    Exchange {
        from: from.to_owned(),
        to: to.to_owned(),
        question: question.to_owned(),
        answer: answer.to_owned(),
    }
}

fn exchange_copy(exchange: &Exchange) -> (r: Exchange)
    ensures
        r == *exchange,
{
    Exchange {
        from: exchange.from.clone(),
        to: exchange.to.clone(),
        question: exchange.question.clone(),
        answer: exchange.answer.clone(),
    }
}

/// A question goes to the node its target names, but for the space around it, where that is one of the
/// three that answer for themselves; and to the analyst otherwise.
pub proof fn a_target_is_answered_by_the_node_it_names(to: Seq<char>)
    ensures
        target_of(to) == "context"@ <==> text::trimmed(to) == "context"@,
        target_of(to) == "bookkeeper"@ <==> text::trimmed(to) == "bookkeeper"@,
        target_of(to) == "redteam"@ <==> text::trimmed(to) == "redteam"@,
        target_of(to) == "context"@ || target_of(to) == "bookkeeper"@ || target_of(to) == "redteam"@
            || target_of(to) == "analyst"@,
{
    reveal_strlit("context");
    reveal_strlit("bookkeeper");
    reveal_strlit("redteam");
    reveal_strlit("analyst");
    assert("context"@[0] == 'c' && "bookkeeper"@[0] == 'b' && "redteam"@[0] == 'r');
    assert("analyst"@[0] == 'a');
}

/// A text is cut exactly where it is too long, to its first characters, and then marked as cut.
pub proof fn a_text_is_cut_only_where_it_is_too_long(s: Seq<char>, max: int)
    requires
        0 <= max,
    ensures
        s.len() <= max ==> elided(s, max) == s,
        s.len() > max ==> elided(s, max).len() == max + 1 && s.take(max).is_prefix_of(elided(s, max))
            && elided(s, max).last() == '…',
{
    reveal_strlit("…");
    assert("…"@.len() == 1 && "…"@[0] == '…');
    if s.len() > max {
        assert(elided(s, max).subrange(0, max) =~= s.take(max));
    }
}

/// A stage answers exactly where its agent is known and its turn has somewhere to go; there, with its
/// own ruleset's prompt and its own agent's guidance.
pub proof fn a_stage_answers_where_it_would_run(
    engine: ScriptEngine,
    config: RatatoskrConfig,
    stage: StageView,
)
    ensures
        ({
            let id = match stage.governed_by {
                Some(identity) => identity@,
                None => stage.id,
            };
            let profile = stage::profile_named(stage::profiles_with(config.agents@), stage.agent);
            let route = plugins::turn_route(engine, config, id, profile);
            let answer = stage_answers(engine, config, stage);
            &&& answer is Some <==> profile is Some && route is Some
            &&& answer is Some ==> {
                &&& answer->0.route == route->0
                &&& answer->0.profile_prompt == profile->0.base_prompt
                &&& engine.rules(id) is Some ==> answer->0.system_prompt
                    == engine.rules(id)->0.system_prompt
                &&& engine.rules(id) is None ==> answer->0.system_prompt is None
            }
        }),
{
}

/// Whether a stage is the first of those that play a role to have an answer.
pub open spec fn speaks_first(
    engine: ScriptEngine,
    config: RatatoskrConfig,
    stages: Seq<StageView>,
    role: Seq<char>,
    by_id: bool,
    i: int,
) -> bool {
    &&& 0 <= i < stages.len()
    &&& plays(stages[i], role, by_id)
    &&& stage_answers(engine, config, stages[i]) is Some
    &&& forall|j: int|
        0 <= j < i && plays(#[trigger] stages[j], role, by_id) ==> stage_answers(
            engine,
            config,
            stages[j],
        ) is None
}

/// Who answers for a role: the first stage with that id that can, wherever it stands; where none can,
/// the first other stage governed under it that can; and nobody exactly where no such stage can.
pub proof fn the_first_that_can_answers_for_a_role(
    engine: ScriptEngine,
    config: RatatoskrConfig,
    stages: Seq<StageView>,
    role: Seq<char>,
    i: int,
)
    ensures
        speaks_first(engine, config, stages, role, true, i) ==> role_answers(
            engine,
            config,
            stages,
            role,
        ) == stage_answers(engine, config, stages[i]),
        speaks_first(engine, config, stages, role, false, i) && (forall|j: int|
            0 <= j < stages.len() && (#[trigger] stages[j]).id == role ==> stage_answers(
                engine,
                config,
                stages[j],
            ) is None) ==> role_answers(engine, config, stages, role) == stage_answers(
            engine,
            config,
            stages[i],
        ),
        (forall|j: int|
            0 <= j < stages.len() && ((#[trigger] stages[j]).id == role || (
            stages[j].governed_by is Some && stages[j].governed_by->0@ == role)) ==> stage_answers(
                engine,
                config,
                stages[j],
            ) is None) ==> role_answers(engine, config, stages, role) is None,
{
    if speaks_first(engine, config, stages, role, true, i) {
        first_answers_is_first(engine, config, stages, role, true, i);
    }
    if speaks_first(engine, config, stages, role, false, i) {
        first_answers_is_first(engine, config, stages, role, false, i);
    }
    let n = stages.len() as int;
    if forall|j: int|
        0 <= j < n && (#[trigger] stages[j]).id == role ==> stage_answers(
            engine,
            config,
            stages[j],
        ) is None {
        first_answers_is_first(engine, config, stages, role, true, n);
    }
    if forall|j: int|
        0 <= j < n && ((#[trigger] stages[j]).id == role || (stages[j].governed_by is Some
            && stages[j].governed_by->0@ == role)) ==> stage_answers(engine, config, stages[j]) is None {
        first_answers_is_first(engine, config, stages, role, true, n);
        first_answers_is_first(engine, config, stages, role, false, n);
    }
}

proof fn first_answers_is_first(
    engine: ScriptEngine,
    config: RatatoskrConfig,
    stages: Seq<StageView>,
    role: Seq<char>,
    by_id: bool,
    i: int,
)
    requires
        0 <= i <= stages.len(),
        i < stages.len() ==> plays(stages[i], role, by_id) && stage_answers(
            engine,
            config,
            stages[i],
        ) is Some,
        forall|j: int|
            0 <= j < i && plays(#[trigger] stages[j], role, by_id) ==> stage_answers(
                engine,
                config,
                stages[j],
            ) is None,
    ensures
        first_answers(engine, config, stages, role, by_id) == (if i < stages.len() {
            stage_answers(engine, config, stages[i])
        } else {
            None
        }),
    decreases stages.len(),
{
    if i > 0 {
        let rest = stages.drop_first();
        assert forall|j: int| 0 <= j < i - 1 && plays(#[trigger] rest[j], role, by_id) implies stage_answers(
            engine,
            config,
            rest[j],
        ) is None by {
            assert(rest[j] == stages[j + 1]);
        }
        if i < stages.len() {
            assert(rest[i - 1] == stages[i]);
        }
        assert(plays(stages[0], role, by_id) ==> stage_answers(engine, config, stages[0]) is None);
        first_answers_is_first(engine, config, rest, role, by_id, i - 1);
    }
}

/// A stage plays a role by its own id; or, where its id is another, by what it is governed by.
pub proof fn a_role_is_played_by_id_or_by_governance(stage: StageView, role: Seq<char>)
    ensures
        plays(stage, role, true) <==> stage.id == role,
        plays(stage, role, false) <==> stage.id != role && stage.governed_by is Some
            && stage.governed_by->0@ == role,
{
}

/// A person replied exactly where the reply holds a string, and then that string.
pub proof fn a_reply_is_the_string_it_holds(read: Result<Option<Option<Seq<char>>>, Seq<char>>)
    ensures
        replied(read) is Some <==> read is Ok && read->Ok_0 is Some && read->Ok_0->0 is Some,
        replied(read) is Some ==> replied(read) == read->Ok_0->0,
{
}

/// What an answerer is told: its agent's guidance first where there is any, and then its ruleset's
/// prompt, or who it is where it has none; from the issue, and from what it last produced, cut to size;
/// and who asks what.
pub proof fn an_answerer_is_told_who_asks_what(
    answerer: AnswererView,
    role: Seq<char>,
    issue: Seq<char>,
    prior: Option<Seq<char>>,
    from: Seq<char>,
    question: Seq<char>,
    context: Seq<char>,
)
    ensures
        ({
            let base = if answerer.system_prompt is Some {
                answerer.system_prompt->0@
            } else {
                "You are the "@ + role + " in a code-planning pipeline."@
            };
            &&& answerer.profile_prompt.len() == 0 ==> persona_of(answerer, role) == base
            &&& answerer.profile_prompt.len() > 0 ==> persona_of(answerer, role)
                == answerer.profile_prompt + "\n\n"@ + base
        }),
        prior is None ==> context_of(issue, prior) == "ISSUE:\n"@ + issue + "\n"@,
        prior is Some ==> context_of(issue, prior) == "ISSUE:\n"@ + issue + "\n"@
            + "\nYOUR PRIOR OUTPUT:\n"@ + elided(prior->0, 4000) + "\n"@,
        prompt_of(from, question, context) == "A peer node (`"@ + from + "`) asks:\n"@ + question
            + "\n\nContext:\n"@ + context,
{
}

/// No more than four questions are charged to a run, and one more may be exactly while fewer are.
pub proof fn a_run_asks_four_questions_at_most(clarifier: NodeClarifier)
    ensures
        clarifier.well_formed() <==> 0 <= clarifier.charged() <= 4,
{
}

/// A role no model answers for is said to be out of reach, by its name.
pub proof fn a_role_out_of_reach_is_named(role: Seq<char>)
    ensures
        ("Could not reach `"@ + role).is_prefix_of(unreachable_text(role)),
        unreachable_text(role).len() > ("Could not reach `"@ + role).len(),
{
    reveal_strlit(
        "`: no model route is configured for it. Proceed with your best assumption and flag it as a residual risk.",
    );
}

} // verus!
