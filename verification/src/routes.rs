//! Where each node runs: its ruleset's model first, then its agent's, then its configured route.

use vstd::prelude::*;

use crate::config;
use crate::config::ModelRoute;
use crate::config::RatatoskrConfig;
use crate::config::RouteView;
use crate::error::PlanError;
use crate::stage;
use crate::stage::ProfileView;
use crate::stage::Stage;
use crate::stage::StageView;
use crate::text;

verus! {

broadcast use vstd::string::group_string_axioms;

/// The model a ruleset names: which one, not how much of it.
#[derive(Clone, Debug)]
pub struct RulesetModel {
    pub provider: String,
    pub model: String,
}

/// The tools a ruleset names.
#[derive(Clone, Debug)]
pub struct RulesetTools {
    /// Exhaustive when given: it replaces the node's own list.
    pub allow: Option<Vec<String>>,
    pub deny: Vec<String>,
}

/// What a repository's ruleset says about one node.
#[derive(Clone, Debug)]
pub struct RulesetConfig {
    pub model: Option<RulesetModel>,
    pub tools: Option<RulesetTools>,
    pub max_turns: Option<usize>,
    pub system_prompt: Option<String>,
    /// Whether the ruleset decides each tool call itself.
    pub has_on_tool_call: bool,
}

/// The ruleset of one node.
#[derive(Clone, Debug)]
pub struct Ruleset {
    pub node: String,
    pub config: RulesetConfig,
}

/// The rulesets a repository declares.
#[derive(Clone, Debug)]
pub struct ScriptEngine {
    pub rulesets: Vec<Ruleset>,
}

/// Where the ruleset of a node stands, the end of the list when there is none.
pub open spec fn ruleset_index(rulesets: Seq<Ruleset>, node: Seq<char>) -> int
    decreases rulesets.len(),
{
    if rulesets.len() == 0 || rulesets[0].node@ == node {
        0
    } else {
        1 + ruleset_index(rulesets.drop_first(), node)
    }
}

impl ScriptEngine {
    /// What the ruleset of a node says, when there is one.
    pub open spec fn rules(self, node: Seq<char>) -> Option<RulesetConfig> {
        let i = ruleset_index(self.rulesets@, node);
        if 0 <= i < self.rulesets@.len() {
            Some(self.rulesets@[i].config)
        } else {
            None
        }
    }

    /// What the ruleset of a node says, when there is one.
    pub fn ruleset(&self, node: &str) -> (r: Option<&RulesetConfig>)
        ensures
            match self.rules(node@) {
                Some(config) => r == Some(&config),
                None => r is None,
            },
    {
        let mut i: usize = 0;
        let ghost all = self.rulesets@;
        assert(all.skip(0) =~= all);
        while i < self.rulesets.len()
            invariant
                i <= self.rulesets@.len(),
                all == self.rulesets@,
                ruleset_index(all, node@) == i + ruleset_index(all.skip(i as int), node@),
            decreases self.rulesets@.len() - i,
        {
            assert(all.skip(i as int)[0] == all[i as int]);
            if text::same(self.rulesets[i].node.as_str(), node) {
                return Some(&self.rulesets[i].config);
            }
            assert(all.skip(i as int).drop_first() =~= all.skip(i + 1));
            i += 1;
        }
        None
    }
}

/// What is said of a node is what the first ruleset for it says, and nothing is exactly when none is
/// for it.
pub proof fn the_first_ruleset_of_a_node_speaks(engine: ScriptEngine, node: Seq<char>)
    ensures
        match engine.rules(node) {
            Some(config) => exists|i: int|
                {
                    &&& 0 <= i < engine.rulesets@.len()
                    &&& (#[trigger] engine.rulesets@[i]).node@ == node
                    &&& engine.rulesets@[i].config == config
                    &&& forall|j: int|
                        0 <= j < i ==> (#[trigger] engine.rulesets@[j]).node@ != node
                },
            None => forall|j: int|
                0 <= j < engine.rulesets@.len() ==> (#[trigger] engine.rulesets@[j]).node@ != node,
        },
{
    ruleset_index_is_first(engine.rulesets@, node);
}

proof fn ruleset_index_is_first(rulesets: Seq<Ruleset>, node: Seq<char>)
    ensures
        0 <= ruleset_index(rulesets, node) <= rulesets.len(),
        ruleset_index(rulesets, node) < rulesets.len() ==> rulesets[ruleset_index(
            rulesets,
            node,
        )].node@ == node,
        forall|j: int|
            0 <= j < ruleset_index(rulesets, node) ==> (#[trigger] rulesets[j]).node@ != node,
    decreases rulesets.len(),
{
    if rulesets.len() > 0 && rulesets[0].node@ != node {
        let rest = rulesets.drop_first();
        ruleset_index_is_first(rest, node);
        assert forall|j: int| 0 <= j < ruleset_index(rulesets, node) implies (
        #[trigger] rulesets[j]).node@ != node by {
            if j > 0 {
                assert(rulesets[j] == rest[j - 1]);
            }
        }
    }
}

/// The route a ruleset names for a node.
pub open spec fn ruleset_route(engine: ScriptEngine, node: Seq<char>) -> Option<RouteView> {
    match engine.rules(node) {
        Some(config) => match config.model {
            Some(model) => Some(RouteView::named(model.provider@, model.model@)),
            None => None,
        },
        None => None,
    }
}

/// The route a node's ruleset names: a provider and a model, with nothing else said.
pub(crate) fn named_by_ruleset(engine: &ScriptEngine, node: &str) -> (r: Option<ModelRoute>)
    ensures
        text::opt(r) == ruleset_route(*engine, node@),
{
    match engine.ruleset(node) {
        Some(config) => match &config.model {
            Some(model) => Some(ModelRoute::named(model.provider.as_str(), model.model.as_str())),
            None => None,
        },
        None => None,
    }
}

/// The route of a name, or the failure that it has none.
pub fn route(config: &RatatoskrConfig, name: &str) -> (r: Result<ModelRoute, PlanError>)
    ensures
        match config.route_to(name@) {
            Some(route) => r == Ok::<ModelRoute, PlanError>(route),
            None => r matches Err(PlanError::MissingRoute(missing)) && missing@ == name@,
        },
{
    match config.model(name) {
        Some(route) => Ok(route),
        None => Err(PlanError::MissingRoute(name.to_owned())),
    }
}

/// The identity a node's turn runs under: what the stage that runs for it is governed by, or the
/// node's own name where no stage runs for it.
pub open spec fn identity(stages: Seq<StageView>, node: Seq<char>) -> Seq<char> {
    match stage::stage_for(stages, node) {
        Some(stage) => stage.governance(),
        None => node,
    }
}

/// Where a node runs: its ruleset's model, then its agent's, then the configured route; the ruleset
/// and the configured route both looked up under the identity its turn runs under.
pub open spec fn routed(
    engine: ScriptEngine,
    config: RatatoskrConfig,
    stages: Seq<StageView>,
    node: Seq<char>,
) -> Option<RouteView> {
    let id = identity(stages, node);
    let profile = stage::profile_of(config.agents@, stages, node);
    match ruleset_route(engine, id) {
        Some(route) => Some(route),
        None => match profile {
            Some(ProfileView { model: Some(route), .. }) => Some(route@),
            _ => match config.route_to(id) {
                Some(route) => Some(route@),
                None => None,
            },
        },
    }
}

/// Resolve a node's model from its ruleset first, then its agent, then its configured route.
///
/// `stages` is the registry the run executes, so an override's profile, not the imported stage's,
/// decides where the node runs and therefore whether it runs at all. Every lookup is keyed by the
/// identity the turn itself runs under, so the two halves of one decision cannot disagree.
pub fn node_route(engine: &ScriptEngine, config: &RatatoskrConfig, stages: &[Stage], node: &str) -> (r:
    Option<ModelRoute>)
    ensures
        text::opt(r) == routed(*engine, *config, text::views(stages@), node@),
{
    let id = match stage::for_node(stages, node) {
        Some(stage) => stage.governance_id(),
        None => node,
    };
    if let Some(route) = named_by_ruleset(engine, id) {
        return Some(route);
    }
    if let Some(profile) = stage::profile_for(config, stages, node) {
        if let Some(route) = profile.model {
            return Some(route);
        }
    }
    config.model(id)
}

/// Where the referee runs: its own configured route, else the verifier's.
pub open spec fn referee_routed(
    engine: ScriptEngine,
    config: RatatoskrConfig,
    stages: Seq<StageView>,
) -> Option<RouteView> {
    match config.route_to("referee"@) {
        Some(route) => Some(route@),
        None => routed(engine, config, stages, "verifier"@),
    }
}

/// The referee accepts only its configured route, then falls back to the verifier's. Its fixed
/// capability boundary is internal, so a `referee` ruleset is never consulted.
pub fn referee_route(engine: &ScriptEngine, config: &RatatoskrConfig, stages: &[Stage]) -> (r:
    Option<ModelRoute>)
    ensures
        text::opt(r) == referee_routed(*engine, *config, text::views(stages@)),
{
    match config.model("referee") {
        Some(route) => Some(route),
        None => node_route(engine, config, stages, "verifier"),
    }
}

/// Who decides where a node runs. A ruleset that names a model decides, with its provider and its
/// model and nothing else said; else the agent's own route does, whole; else the configured route of
/// the identity the turn runs under. So a node runs nowhere exactly when none of the three speaks.
pub proof fn the_ruleset_then_the_agent_then_the_configuration_decides(
    engine: ScriptEngine,
    config: RatatoskrConfig,
    stages: Seq<StageView>,
    node: Seq<char>,
)
    ensures
        ({
            let id = match stage::stage_for(stages, node) {
                Some(stage) => match stage.governed_by {
                    Some(identity) => identity@,
                    None => stage.id,
                },
                None => node,
            };
            let rules = engine.rules(id);
            let profile = stage::profile_of(config.agents@, stages, node);
            let ruled = rules is Some && rules->0.model is Some;
            let owned = profile is Some && profile->0.model is Some;
            let result = routed(engine, config, stages, node);
            &&& ruled ==> {
                &&& result is Some
                &&& result->0.provider == rules->0.model->0.provider@
                &&& result->0.model == rules->0.model->0.model@
                &&& result->0.max_tokens is None
                &&& result->0.context_window is None
                &&& result->0.temperature is None
                &&& result->0.params is None
                &&& result->0.session == config::SessionScope::Fresh
            }
            &&& !ruled && owned ==> result == Some(profile->0.model->0@)
            &&& !ruled && !owned ==> (result is Some <==> config.route_to(id) is Some)
            &&& !ruled && !owned && result is Some ==> result == Some(config.route_to(id)->0@)
        }),
{
}

/// The referee runs on its own configured route where there is one, and where the verifier runs
/// otherwise.
pub proof fn the_referee_falls_back_to_the_verifier(
    engine: ScriptEngine,
    config: RatatoskrConfig,
    stages: Seq<StageView>,
)
    ensures
        config.route_to("referee"@) is Some ==> referee_routed(engine, config, stages) == Some(
            config.route_to("referee"@)->0@,
        ),
        config.route_to("referee"@) is None ==> referee_routed(engine, config, stages) == routed(
            engine,
            config,
            stages,
            "verifier"@,
        ),
{
}

/// Whether two sets of rulesets say the same about a node.
pub open spec fn agree_on(a: ScriptEngine, b: ScriptEngine, node: Seq<char>) -> bool {
    ruleset_route(a, node) == ruleset_route(b, node)
}

/// A ruleset for the referee never shows in where the referee runs, unless the verifier itself is
/// governed as the referee: what decides is only what the verifier's identity is told.
pub proof fn a_referee_ruleset_contributes_no_route(
    a: ScriptEngine,
    b: ScriptEngine,
    config: RatatoskrConfig,
    stages: Seq<StageView>,
)
    requires
        agree_on(a, b, identity(stages, "verifier"@)),
    ensures
        referee_routed(a, config, stages) == referee_routed(b, config, stages),
{
}

/// The overseer is opt-in on having somewhere to run, like the verifier and the characterizer.
pub fn overseer_enabled(engine: &ScriptEngine, config: &RatatoskrConfig, stages: &[Stage]) -> (r:
    bool)
    ensures
        r == (routed(*engine, *config, text::views(stages@), "overseer"@) is Some),
{
    node_route(engine, config, stages, "overseer").is_some()
}

/// A red-team half is opt-in: it runs only when its own stage has a model route to run on. Per stage
/// id, not per governance name: both halves govern as `redteam` in an unmodified registry, and one
/// lookup under that name would answer for whichever stage comes first.
pub fn red_team_half_enabled(
    engine: &ScriptEngine,
    config: &RatatoskrConfig,
    stages: &[Stage],
    stage_id: &str,
) -> (r: bool)
    ensures
        r == (routed(*engine, *config, text::views(stages@), stage_id@) is Some),
{
    node_route(engine, config, stages, stage_id).is_some()
}

/// The verifier is opt-in on having somewhere to run, the same way the red-team classifier is.
pub fn verifier_enabled(engine: &ScriptEngine, config: &RatatoskrConfig, stages: &[Stage]) -> (r:
    bool)
    ensures
        r == (routed(*engine, *config, text::views(stages@), "verifier"@) is Some),
{
    node_route(engine, config, stages, "verifier").is_some()
}

/// The acceptance characterizer runs when it has somewhere to run. Without it a run still converges
/// on exit codes, at the granularity of whole steps.
pub fn characterizer_enabled(engine: &ScriptEngine, config: &RatatoskrConfig, stages: &[Stage]) -> (r:
    bool)
    ensures
        r == (routed(*engine, *config, text::views(stages@), "characterizer"@) is Some),
{
    node_route(engine, config, stages, "characterizer").is_some()
}

} // verus!
