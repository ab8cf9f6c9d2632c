//! Reusable execution profiles and graph-specific stages.

use vstd::prelude::*;
use vstd::string::StringExecFns;

use crate::config::AgentProfileConfig;
use crate::config::Capability;
use crate::config::ModelRoute;
use crate::config::NamedAgent;
use crate::config::RatatoskrConfig;
use crate::config::SessionScope;
use crate::lists;
use crate::names;
use crate::text;
use crate::workflow::WorkflowMeta;

verus! {

broadcast use vstd::string::group_string_axioms;

/// Reusable model and authority defaults. A profile is not a checkpoint identity; [`Stage`] is.
#[derive(Debug)]
pub struct AgentProfile {
    pub id: String,
    pub model: Option<ModelRoute>,
    pub base_prompt: String,
    pub capabilities: Vec<Capability>,
    /// The name of the policy the agent's tool calls pass, when it has one.
    pub tool_policy: Option<String>,
    pub max_turns: Option<usize>,
}

/// What an [`AgentProfile`] says.
pub struct ProfileView {
    pub id: Seq<char>,
    pub model: Option<ModelRoute>,
    pub base_prompt: Seq<char>,
    pub capabilities: Seq<Capability>,
    pub tool_policy: Option<String>,
    pub max_turns: Option<usize>,
}

impl View for AgentProfile {
    type V = ProfileView;

    open spec fn view(&self) -> ProfileView {
        ProfileView {
            id: self.id@,
            model: self.model,
            base_prompt: self.base_prompt@,
            capabilities: self.capabilities@,
            tool_policy: self.tool_policy,
            max_turns: self.max_turns,
        }
    }
}

impl ProfileView {
    /// The most the profile allows, `None` when it allows nothing.
    pub open spec fn ceiling(self) -> Option<Capability> {
        Capability::most(self.capabilities)
    }

    /// The profile an `[agents.<id>]` entry configures.
    pub open spec fn configured(id: Seq<char>, agent: AgentProfileConfig) -> ProfileView {
        ProfileView {
            id,
            model: agent.model,
            base_prompt: agent.base_prompt@,
            capabilities: agent.capabilities@,
            tool_policy: agent.tool_policy,
            max_turns: agent.max_turns,
        }
    }

    /// A profile that says only what it allows.
    pub open spec fn allowing(id: Seq<char>, capabilities: Seq<Capability>) -> ProfileView {
        ProfileView {
            id,
            model: None,
            base_prompt: Seq::empty(),
            capabilities,
            tool_policy: None,
            max_turns: None,
        }
    }
}

/// A copy of a list of capabilities.
fn copy_capabilities(list: &Vec<Capability>) -> (r: Vec<Capability>)
    ensures
        r@ == list@,
{
    let mut out: Vec<Capability> = Vec::new();
    let mut i: usize = 0;
    while i < list.len()
        invariant
            i <= list@.len(),
            out@ == list@.take(i as int),
        decreases list@.len() - i,
    {
        out.push(list[i]);
        i += 1;
        assert(list@.take(i as int) =~= list@.take(i - 1).push(list@[i - 1]));
    }
    assert(list@.take(i as int) =~= list@);
    out
}

/// A copy of a route that may be absent.
pub(crate) fn copy_route(route: &Option<ModelRoute>) -> (r: Option<ModelRoute>)
    ensures
        r == *route,
{
    match route {
        Some(inner) => Some(inner.copy()),
        None => None,
    }
}

impl AgentProfile {
    /// The profile an `[agents.<id>]` entry configures.
    pub fn from_config(id: &str, config: &AgentProfileConfig) -> (r: AgentProfile)
        ensures
            r@ == ProfileView::configured(id@, *config),
    {
        AgentProfile {
            id: id.to_owned(),
            model: copy_route(&config.model),
            base_prompt: config.base_prompt.clone(),
            capabilities: copy_capabilities(&config.capabilities),
            tool_policy: text::copy_opt(&config.tool_policy),
            max_turns: config.max_turns,
        }
    }

    /// The most the profile allows, `None` when it allows nothing.
    pub fn ceiling(&self) -> (r: Option<Capability>)
        ensures
            r == self@.ceiling(),
    {
        Capability::ceiling(self.capabilities.as_slice())
    }

    /// A copy.
    pub fn copy(&self) -> (r: AgentProfile)
        ensures
            r@ == self@,
    {
        AgentProfile {
            id: self.id.clone(),
            model: copy_route(&self.model),
            base_prompt: self.base_prompt.clone(),
            capabilities: copy_capabilities(&self.capabilities),
            tool_policy: text::copy_opt(&self.tool_policy),
            max_turns: self.max_turns,
        }
    }
}

impl Clone for AgentProfile {
    fn clone(&self) -> (r: AgentProfile)
        ensures
            r@ == self@,
    {
        self.copy()
    }
}

/// The JSON Schema a stage's output is held to, and what the validator made of it.
#[derive(Clone, Debug)]
pub struct OutputSchema {
    /// The schema, as JSON text.
    pub text: String,
    /// What holding an empty object to the schema reported, when it did not accept it.
    pub report: Option<String>,
}

impl OutputSchema {
    /// A copy.
    pub fn copy(&self) -> (r: OutputSchema)
        ensures
            r == *self,
    {
        OutputSchema { text: self.text.clone(), report: text::copy_opt(&self.report) }
    }
}

/// Output cleanup performed after schema validation.
#[derive(Debug)]
pub struct ArrayNormalization {
    pub field: String,
    pub default_empty: bool,
    pub retain_when_any_non_blank: Vec<String>,
}

/// What an [`ArrayNormalization`] says.
pub struct NormalizationView {
    pub field: Seq<char>,
    pub default_empty: bool,
    pub retain_when_any_non_blank: Seq<String>,
}

impl View for ArrayNormalization {
    type V = NormalizationView;

    open spec fn view(&self) -> NormalizationView {
        NormalizationView {
            field: self.field@,
            default_empty: self.default_empty,
            retain_when_any_non_blank: self.retain_when_any_non_blank@,
        }
    }
}

impl Clone for ArrayNormalization {
    fn clone(&self) -> (r: ArrayNormalization)
        ensures
            r@ == self@,
    {
        ArrayNormalization {
            field: self.field.clone(),
            default_empty: self.default_empty,
            retain_when_any_non_blank: text::copies(self.retain_when_any_non_blank.as_slice()),
        }
    }
}

/// A bounded child invocation declaration. It is evidence for its parent, never a checkpoint.
#[derive(Clone, Debug)]
pub struct Delegation {
    pub target: String,
    pub evidence_contract: String,
    /// Maximum serialized bytes projected from parent input into the child task.
    pub input_limit: usize,
}

impl Delegation {
    /// A copy.
    pub fn copy(&self) -> (r: Delegation)
        ensures
            r == *self,
    {
        Delegation {
            target: self.target.clone(),
            evidence_contract: self.evidence_contract.clone(),
            input_limit: self.input_limit,
        }
    }
}

/// A stable graph stage. Its identifier is also its persisted checkpoint name.
#[derive(Debug)]
pub struct Stage {
    pub id: String,
    pub agent: String,
    /// Stable route/rules/plugin identity. Defaults to [`Stage::id`].
    pub governed_by: Option<String>,
    pub input_contract: String,
    pub output_contract: String,
    /// The schema of [`Stage::output_contract`] on user-declared stages.
    pub output_schema: Option<OutputSchema>,
    pub instructions: String,
    pub context: String,
    /// A stage may only narrow its profile's ceiling.
    pub capabilities: Vec<Capability>,
    /// Default tools offered before repository rules narrow or replace the list.
    pub tools: Vec<String>,
    /// Overrides the selected route's attempt-continuation policy when present.
    pub session: Option<SessionScope>,
    /// Script source that renders structured runtime input into this stage's question.
    pub question_renderer: Option<String>,
    /// Output cleanup performed after schema validation.
    pub array_normalization: Vec<ArrayNormalization>,
    pub delegation: Option<Delegation>,
    /// Built-ins append repository guidance; user-defined stages may replace their prompt.
    pub append_repository_guidance: bool,
}

/// What a [`Stage`] says.
pub struct StageView {
    pub id: Seq<char>,
    pub agent: Seq<char>,
    pub governed_by: Option<String>,
    pub input_contract: Seq<char>,
    pub output_contract: Seq<char>,
    pub output_schema: Option<OutputSchema>,
    pub instructions: Seq<char>,
    pub context: Seq<char>,
    pub capabilities: Seq<Capability>,
    pub tools: Seq<String>,
    pub session: Option<SessionScope>,
    pub question_renderer: Option<String>,
    pub array_normalization: Seq<NormalizationView>,
    pub delegation: Option<Delegation>,
    pub append_repository_guidance: bool,
}

impl View for Stage {
    type V = StageView;

    open spec fn view(&self) -> StageView {
        StageView {
            id: self.id@,
            agent: self.agent@,
            governed_by: self.governed_by,
            input_contract: self.input_contract@,
            output_contract: self.output_contract@,
            output_schema: self.output_schema,
            instructions: self.instructions@,
            context: self.context@,
            capabilities: self.capabilities@,
            tools: self.tools@,
            session: self.session,
            question_renderer: self.question_renderer,
            array_normalization: text::views(self.array_normalization@),
            delegation: self.delegation,
            append_repository_guidance: self.append_repository_guidance,
        }
    }
}

impl StageView {
    /// The identity the stage's model turn runs under: what it is governed by, or its own id.
    pub open spec fn governance(self) -> Seq<char> {
        match self.governed_by {
            Some(identity) => identity@,
            None => self.id,
        }
    }

    /// The most the stage may do under a profile: no more than the profile allows, and no more than
    /// the stage itself declares where it declares anything.
    pub open spec fn effective_ceiling(self, profile: ProfileView) -> Option<Capability> {
        match (profile.ceiling(), Capability::most(self.capabilities)) {
            (Some(profile), Some(stage)) => Some(profile.lesser(stage)),
            (profile, None) => profile,
            (None, Some(_)) => None,
        }
    }

    /// A stage that says only what it is called and which agent runs it.
    pub open spec fn bare(id: Seq<char>, agent: Seq<char>) -> StageView {
        StageView {
            id,
            agent,
            governed_by: None,
            input_contract: Seq::empty(),
            output_contract: Seq::empty(),
            output_schema: None,
            instructions: Seq::empty(),
            context: Seq::empty(),
            capabilities: Seq::empty(),
            tools: Seq::empty(),
            session: None,
            question_renderer: None,
            array_normalization: Seq::empty(),
            delegation: None,
            append_repository_guidance: true,
        }
    }
}

/// The parts that are not empty, with a blank line between each two.
pub open spec fn paragraphs(parts: Seq<Seq<char>>) -> Seq<char> {
    text::joined(parts.filter(|part: Seq<char>| part.len() > 0), "\n\n"@)
}

/// Joins the parts that are not empty, with a blank line between each two.
pub(crate) fn join_paragraphs(parts: &[&str]) -> (r: String)
    ensures
        r@ == paragraphs(text::views(parts@)),
{
    let mut kept: Vec<String> = Vec::new();
    let ghost all = text::views(parts@);
    let ghost full = |part: Seq<char>| part.len() > 0;
    let mut i: usize = 0;
    assert(all.take(0).filter(full) =~= Seq::empty()) by {
        reveal(Seq::filter);
    }
    assert(text::views(kept@) =~= Seq::empty());
    while i < parts.len()
        invariant
            i <= parts@.len(),
            all == text::views(parts@),
            full == (|part: Seq<char>| part.len() > 0),
            text::views(kept@) == all.take(i as int).filter(full),
        decreases parts@.len() - i,
    {
        let ghost had = kept@;
        if !parts[i].is_empty() {
            kept.push(parts[i].to_owned());
            assert(text::views(kept@) =~= text::views(had).push(all[i as int]));
        }
        i += 1;
        proof {
            reveal(Seq::filter);
            assert(all.take(i as int).drop_last() =~= all.take(i - 1));
            assert(all.take(i as int).last() == all[i - 1]);
        }
    }
    assert(all.take(i as int) =~= all);
    text::join(kept.as_slice(), "\n\n")
}

impl Clone for Stage {
    fn clone(&self) -> (r: Stage)
        ensures
            r@ == self@,
    {
        let mut normalization: Vec<ArrayNormalization> = Vec::new();
        let mut i: usize = 0;
        while i < self.array_normalization.len()
            invariant
                i <= self.array_normalization@.len(),
                normalization@.len() == i,
                forall|j: int|
                    0 <= j < i ==> (#[trigger] normalization@[j])@ == self.array_normalization@[j]@,
            decreases self.array_normalization@.len() - i,
        {
            normalization.push(self.array_normalization[i].clone());
            i += 1;
        }
        assert(text::views(normalization@) =~= text::views(self.array_normalization@));
        let r = Stage {
            id: self.id.clone(),
            agent: self.agent.clone(),
            governed_by: text::copy_opt(&self.governed_by),
            input_contract: self.input_contract.clone(),
            output_contract: self.output_contract.clone(),
            output_schema: match &self.output_schema {
                Some(schema) => Some(schema.copy()),
                None => None,
            },
            instructions: self.instructions.clone(),
            context: self.context.clone(),
            capabilities: copy_capabilities(&self.capabilities),
            tools: text::copies(self.tools.as_slice()),
            session: self.session,
            question_renderer: text::copy_opt(&self.question_renderer),
            array_normalization: normalization,
            delegation: match &self.delegation {
                Some(delegation) => Some(delegation.copy()),
                None => None,
            },
            append_repository_guidance: self.append_repository_guidance,
        };
        r
    }
}

impl Stage {
    /// The identity the stage's model turn runs under.
    pub fn governance_id(&self) -> (r: &str)
        ensures
            r@ == self@.governance(),
    {
        match &self.governed_by {
            Some(identity) => identity.as_str(),
            None => self.id.as_str(),
        }
    }

    /// The most the stage may do under a profile.
    pub fn effective_ceiling(&self, profile: &AgentProfile) -> (r: Option<Capability>)
        ensures
            r == self@.effective_ceiling(profile@),
    {
        match (profile.ceiling(), Capability::ceiling(self.capabilities.as_slice())) {
            (Some(profile), Some(stage)) => Some(profile.min(stage)),
            (profile, None) => profile,
            (None, Some(_)) => None,
        }
    }

    /// The attempt-continuation policy for this stage. An omitted declaration preserves the
    /// selected route, which keeps `[models.<stage>]` configuration authoritative.
    pub fn session_scope(&self, route_default: SessionScope) -> (r: SessionScope)
        ensures
            r == (match self.session {
                Some(declared) => declared,
                None => route_default,
            }),
    {
        match self.session {
            Some(declared) => declared,
            None => route_default,
        }
    }

    /// Compose a stage prompt in authority-independent, stable order: what is not said leaves no
    /// gap.
    pub fn prompt(
        &self,
        platform_invariants: &str,
        profile: &AgentProfile,
        repository_guidance: &str,
    ) -> (r: String)
        ensures
            r@ == paragraphs(
                seq![
                    platform_invariants@,
                    profile.base_prompt@,
                    self.instructions@,
                    self.context@,
                    if self.append_repository_guidance {
                        repository_guidance@
                    } else {
                        Seq::empty()
                    },
                ],
            ),
    {
        let guidance = if self.append_repository_guidance {
            repository_guidance
        } else {
            ""
        };
        proof {
            reveal_strlit("");
            assert(""@ =~= Seq::<char>::empty());
        }
        let parts: Vec<&str> = vec![
            platform_invariants,
            profile.base_prompt.as_str(),
            self.instructions.as_str(),
            self.context.as_str(),
            guidance,
        ];
        assert(text::views(parts@) =~= seq![
            platform_invariants@,
            profile.base_prompt@,
            self.instructions@,
            self.context@,
            if self.append_repository_guidance {
                repository_guidance@
            } else {
                Seq::empty()
            },
        ]);
        join_paragraphs(parts.as_slice())
    }
}

/// A stage never holds more than its profile allows, and declaring capabilities only ever narrows.
pub proof fn a_stage_only_narrows_its_profile(stage: StageView, profile: ProfileView)
    ensures
        !crate::config::wider(stage.effective_ceiling(profile), profile.ceiling()),
        stage.capabilities.len() > 0 ==> !crate::config::wider(
            stage.effective_ceiling(profile),
            Capability::most(stage.capabilities),
        ),
{
    crate::config::ceiling_is_the_greatest(stage.capabilities);
}

/// The built-in reusable profiles, by what each allows.
pub open spec fn built_in_profiles() -> Seq<ProfileView> {
    seq![
        ProfileView::allowing("explore"@, seq![Capability::Read]),
        ProfileView::allowing("reason"@, seq![Capability::Read]),
        ProfileView::allowing("transcribe"@, seq![]),
        ProfileView::allowing("build"@, seq![Capability::Write]),
        ProfileView::allowing("publish"@, seq![Capability::Publish]),
    ]
}

fn allowing(id: &str, capabilities: Vec<Capability>) -> (r: AgentProfile)
    ensures
        r@ == ProfileView::allowing(id@, capabilities@),
{
    AgentProfile {
        id: id.to_owned(),
        model: None,
        base_prompt: String::new(),
        capabilities,
        tool_policy: None,
        max_turns: None,
    }
}

/// The built-in reusable profiles. Routes remain stage-keyed until a repository opts into profiles,
/// which keeps `[models.<stage>]` and rulesets authoritative.
pub fn built_in_agents() -> (r: Vec<AgentProfile>)
    ensures
        text::views(r@) == built_in_profiles(),
{
    let read: Vec<Capability> = vec![Capability::Read];
    let reason: Vec<Capability> = vec![Capability::Read];
    let write: Vec<Capability> = vec![Capability::Write];
    let publish: Vec<Capability> = vec![Capability::Publish];
    let none: Vec<Capability> = Vec::new();
    assert(read@ =~= seq![Capability::Read]);
    assert(reason@ =~= seq![Capability::Read]);
    assert(write@ =~= seq![Capability::Write]);
    assert(publish@ =~= seq![Capability::Publish]);
    let r: Vec<AgentProfile> = vec![
        allowing("explore", read),
        allowing("reason", reason),
        allowing("transcribe", none),
        allowing("build", write),
        allowing("publish", publish),
    ];
    assert(text::views(r@) =~= built_in_profiles());
    r
}

/// Where a profile of this id stands, the end of the list when it is not there.
pub open spec fn profile_index(profiles: Seq<ProfileView>, id: Seq<char>) -> int
    decreases profiles.len(),
{
    if profiles.len() == 0 || profiles[0].id == id {
        0
    } else {
        1 + profile_index(profiles.drop_first(), id)
    }
}

/// The first profile of this id.
pub open spec fn profile_named(profiles: Seq<ProfileView>, id: Seq<char>) -> Option<ProfileView> {
    let i = profile_index(profiles, id);
    if i < profiles.len() {
        Some(profiles[i])
    } else {
        None
    }
}

/// Where a profile is found is the first place with its id.
pub proof fn profile_index_is_first(profiles: Seq<ProfileView>, id: Seq<char>)
    ensures
        0 <= profile_index(profiles, id) <= profiles.len(),
        profile_index(profiles, id) < profiles.len() ==> profiles[profile_index(profiles, id)].id == id,
        forall|j: int| 0 <= j < profile_index(profiles, id) ==> (#[trigger] profiles[j]).id != id,
    decreases profiles.len(),
{
    if profiles.len() > 0 && profiles[0].id != id {
        let rest = profiles.drop_first();
        profile_index_is_first(rest, id);
        assert forall|j: int| 0 <= j < profile_index(profiles, id) implies (#[trigger] profiles[j]).id
            != id by {
            if j > 0 {
                assert(rest[j - 1] == profiles[j]);
            }
        }
    }
}

/// Finds the first profile of an id.
pub(crate) fn find_profile(profiles: &[AgentProfile], id: &str) -> (r: usize)
    ensures
        r == profile_index(text::views(profiles@), id@),
        r <= profiles@.len(),
{
    let ghost all = text::views(profiles@);
    let mut i: usize = 0;
    assert(all.skip(0) =~= all);
    while i < profiles.len()
        invariant
            i <= profiles@.len(),
            all == text::views(profiles@),
            profile_index(all, id@) == i + profile_index(all.skip(i as int), id@),
        decreases profiles@.len() - i,
    {
        assert(all.skip(i as int)[0] == profiles@[i as int]@);
        if text::same(profiles[i].id.as_str(), id) {
            return i;
        }
        assert(all.skip(i as int).drop_first() =~= all.skip(i + 1));
        i += 1;
    }
    i
}

/// The profiles with one more configured entry: it takes the place of the one that had its name, or
/// comes last.
pub open spec fn with_agent(profiles: Seq<ProfileView>, entry: NamedAgent) -> Seq<ProfileView> {
    let i = profile_index(profiles, entry.name@);
    let configured = ProfileView::configured(entry.name@, entry.agent);
    if i < profiles.len() {
        profiles.update(i, configured)
    } else {
        profiles.push(configured)
    }
}

/// The built-in profiles, with the configured ones laid over them.
pub open spec fn profiles_with(agents: Seq<NamedAgent>) -> Seq<ProfileView>
    decreases agents.len(),
{
    if agents.len() == 0 {
        built_in_profiles()
    } else {
        with_agent(profiles_with(agents.drop_last()), agents.last())
    }
}

/// The profiles a configuration has: the built-in ones, with the configured ones laid over them.
pub fn agent_profiles(config: &RatatoskrConfig) -> (r: Vec<AgentProfile>)
    ensures
        text::views(r@) == profiles_with(config.agents@),
{
    let mut profiles = built_in_agents();
    let mut i: usize = 0;
    assert(config.agents@.take(0) =~= Seq::empty());
    while i < config.agents.len()
        invariant
            i <= config.agents@.len(),
            text::views(profiles@) == profiles_with(config.agents@.take(i as int)),
        decreases config.agents@.len() - i,
    {
        let entry = &config.agents[i];
        let ghost had = text::views(profiles@);
        let at: usize = find_profile(profiles.as_slice(), entry.name.as_str());
        let configured = AgentProfile::from_config(entry.name.as_str(), &entry.agent);
        let ghost seen = configured@;
        if at < profiles.len() {
            profiles.set(at, configured);
            assert(text::views(profiles@) =~= had.update(at as int, seen));
        } else {
            profiles.push(configured);
            assert(text::views(profiles@) =~= had.push(seen));
        }
        i += 1;
        assert(config.agents@.take(i as int).drop_last() =~= config.agents@.take(i - 1));
    }
    assert(config.agents@.take(i as int) =~= config.agents@);
    profiles
}

/// The first stage of which `wanted` holds, the end of the list when there is none.
pub open spec fn stage_index(stages: Seq<StageView>, wanted: spec_fn(StageView) -> bool) -> int
    decreases stages.len(),
{
    if stages.len() == 0 || wanted(stages[0]) {
        0
    } else {
        1 + stage_index(stages.drop_first(), wanted)
    }
}

/// What is found is the first of its kind, and nothing before it is.
pub proof fn stage_index_is_first(stages: Seq<StageView>, wanted: spec_fn(StageView) -> bool)
    ensures
        0 <= stage_index(stages, wanted) <= stages.len(),
        stage_index(stages, wanted) < stages.len() ==> wanted(stages[stage_index(stages, wanted)]),
        forall|j: int| 0 <= j < stage_index(stages, wanted) ==> !wanted(#[trigger] stages[j]),
    decreases stages.len(),
{
    if stages.len() > 0 && !wanted(stages[0]) {
        let rest = stages.drop_first();
        stage_index_is_first(rest, wanted);
        assert forall|j: int| 0 <= j < stage_index(stages, wanted) implies !wanted(
            #[trigger] stages[j],
        ) by {
            if j > 0 {
                assert(rest[j - 1] == stages[j]);
            }
        }
    }
}

/// Having an id.
pub open spec fn called(id: Seq<char>) -> spec_fn(StageView) -> bool {
    |stage: StageView| stage.id == id
}

/// Being governed under an identity.
pub open spec fn governed_as(identity: Seq<char>) -> spec_fn(StageView) -> bool {
    |stage: StageView| stage.governance() == identity
}

/// Finds the first stage with an id.
pub(crate) fn find_stage(stages: &[Stage], id: &str) -> (r: usize)
    ensures
        r == stage_index(text::views(stages@), called(id@)),
        r <= stages@.len(),
{
    let ghost all = text::views(stages@);
    let mut i: usize = 0;
    assert(all.skip(0) =~= all);
    while i < stages.len()
        invariant
            i <= stages@.len(),
            all == text::views(stages@),
            stage_index(all, called(id@)) == i + stage_index(all.skip(i as int), called(id@)),
        decreases stages@.len() - i,
    {
        assert(all.skip(i as int)[0] == stages@[i as int]@);
        if text::same(stages[i].id.as_str(), id) {
            return i;
        }
        assert(all.skip(i as int).drop_first() =~= all.skip(i + 1));
        i += 1;
    }
    i
}

/// Finds the first stage governed under an identity.
fn find_governed(stages: &[Stage], identity: &str) -> (r: usize)
    ensures
        r == stage_index(text::views(stages@), governed_as(identity@)),
        r <= stages@.len(),
{
    let ghost all = text::views(stages@);
    let mut i: usize = 0;
    assert(all.skip(0) =~= all);
    while i < stages.len()
        invariant
            i <= stages@.len(),
            all == text::views(stages@),
            stage_index(all, governed_as(identity@)) == i + stage_index(
                all.skip(i as int),
                governed_as(identity@),
            ),
        decreases stages@.len() - i,
    {
        assert(all.skip(i as int)[0] == stages@[i as int]@);
        if text::same(stages[i].governance_id(), identity) {
            return i;
        }
        assert(all.skip(i as int).drop_first() =~= all.skip(i + 1));
        i += 1;
    }
    i
}

/// The stage that runs when a node is asked for: the one of that id, else the first governed as it.
pub open spec fn stage_for(stages: Seq<StageView>, node: Seq<char>) -> Option<StageView> {
    let by_id = stage_index(stages, called(node));
    let by_governance = stage_index(stages, governed_as(node));
    if by_id < stages.len() {
        Some(stages[by_id])
    } else if by_governance < stages.len() {
        Some(stages[by_governance])
    } else {
        None
    }
}

/// The stage that runs when `node` is asked for: by stage id first, as the standard stages are named
/// after their identities, then by `governedBy`, which is how the run's own operations name the
/// stage that runs for them.
pub fn for_node<'a>(stages: &'a [Stage], node: &str) -> (r: Option<&'a Stage>)
    ensures
        text::opt(r) == stage_for(text::views(stages@), node@),
{
    let by_id: usize = find_stage(stages, node);
    if by_id < stages.len() {
        return Some(&stages[by_id]);
    }
    let by_governance: usize = find_governed(stages, node);
    if by_governance < stages.len() {
        return Some(&stages[by_governance]);
    }
    None
}

/// The profile of the stage that runs when a node is asked for.
pub open spec fn profile_of(
    agents: Seq<NamedAgent>,
    stages: Seq<StageView>,
    node: Seq<char>,
) -> Option<ProfileView> {
    match stage_for(stages, node) {
        Some(stage) => profile_named(profiles_with(agents), stage.agent),
        None => None,
    }
}

/// Resolve the profile of the stage that runs under `node` in `stages`.
///
/// The registry is a parameter because a route or an enablement decision is about the stage that
/// will actually run, and a workflow may have overridden it.
pub fn profile_for(config: &RatatoskrConfig, stages: &[Stage], node: &str) -> (r: Option<
    AgentProfile,
>)
    ensures
        text::opt(r) == profile_of(config.agents@, text::views(stages@), node@),
{
    let stage = match for_node(stages, node) {
        Some(stage) => stage,
        None => return None,
    };
    let profiles = agent_profiles(config);
    let at: usize = find_profile(profiles.as_slice(), stage.agent.as_str());
    if at < profiles.len() {
        Some(profiles[at].copy())
    } else {
        None
    }
}

/// Copies of a list of stages.
pub fn copy_stages(stages: &[Stage]) -> (r: Vec<Stage>)
    ensures
        text::views(r@) == text::views(stages@),
{
    let mut out: Vec<Stage> = Vec::new();
    let mut i: usize = 0;
    while i < stages.len()
        invariant
            i <= stages@.len(),
            out@.len() == i,
            forall|j: int| 0 <= j < i ==> (#[trigger] out@[j])@ == stages@[j]@,
        decreases stages@.len() - i,
    {
        out.push(stages[i].clone());
        i += 1;
    }
    assert(text::views(out@) =~= text::views(stages@));
    out
}

/// The stages a workflow declares, as the registry validated before it runs.
pub fn stages_from_workflow(meta: &WorkflowMeta) -> (r: Vec<Stage>)
    ensures
        text::views(r@) == text::views(meta.stages@),
{
    copy_stages(meta.stages.as_slice())
}

/// One box of a drawn run: a name, the column it is in, its place in that column.
#[derive(Clone, Debug)]
pub struct ShapeNode {
    pub name: String,
    pub stage: usize,
    pub lane: usize,
    pub optional: bool,
}

/// What a [`ShapeNode`] says.
pub struct ShapeNodeView {
    pub name: Seq<char>,
    pub stage: int,
    pub lane: int,
    pub optional: bool,
}

impl View for ShapeNode {
    type V = ShapeNodeView;

    open spec fn view(&self) -> ShapeNodeView {
        ShapeNodeView {
            name: self.name@,
            stage: self.stage as int,
            lane: self.lane as int,
            optional: self.optional,
        }
    }
}

/// The boxes of one column, top to bottom.
pub open spec fn column_shape(column: crate::workflow::WorkflowLayoutColumn, stage: int) -> Seq<
    ShapeNodeView,
> {
    Seq::new(
        column.nodes@.len(),
        |lane: int|
            ShapeNodeView { name: column.nodes@[lane]@, stage, lane, optional: column.optional },
    )
}

/// The boxes of a layout, column by column.
pub open spec fn layout_shape(layout: Seq<crate::workflow::WorkflowLayoutColumn>) -> Seq<ShapeNodeView>
    decreases layout.len(),
{
    if layout.len() == 0 {
        Seq::empty()
    } else {
        layout_shape(layout.drop_last()) + column_shape(layout.last(), layout.len() - 1)
    }
}

/// The layout a workflow declared, as the shape a run records.
///
/// A column is a `stage` and its `nodes` are its `lane`s, which is the whole vocabulary. A workflow
/// that declares no layout gets an empty shape rather than a guessed one.
pub fn shape_from_workflow(meta: &WorkflowMeta) -> (r: Vec<ShapeNode>)
    ensures
        text::views(r@) == layout_shape(meta.layout@),
{
    let mut out: Vec<ShapeNode> = Vec::new();
    let mut stage: usize = 0;
    assert(text::views(out@) =~= Seq::empty());
    while stage < meta.layout.len()
        invariant
            stage <= meta.layout@.len(),
            text::views(out@) == layout_shape(meta.layout@.take(stage as int)),
        decreases meta.layout@.len() - stage,
    {
        let column = &meta.layout[stage];
        let ghost so_far = text::views(out@);
        let ghost boxes = column_shape(*column, stage as int);
        let mut lane: usize = 0;
        assert(so_far + boxes.take(0) =~= so_far);
        while lane < column.nodes.len()
            invariant
                lane <= column.nodes@.len(),
                boxes == column_shape(*column, stage as int),
                text::views(out@) == so_far + boxes.take(lane as int),
            decreases column.nodes@.len() - lane,
        {
            let ghost had = out@;
            let node = ShapeNode {
                name: column.nodes[lane].clone(),
                stage,
                lane,
                optional: column.optional,
            };
            let ghost seen = node@;
            out.push(node);
            assert(text::views(out@) =~= text::views(had).push(seen));
            assert(boxes.take(lane + 1) =~= boxes.take(lane as int).push(seen));
            lane += 1;
        }
        assert(boxes.take(lane as int) =~= boxes);
        stage += 1;
        assert(meta.layout@.take(stage as int).drop_last() =~= meta.layout@.take(stage - 1));
    }
    assert(meta.layout@.take(stage as int) =~= meta.layout@);
    out
}

/// The stages that do the work of a box: one of its own name, or the several governed as it.
pub open spec fn working(stages: Seq<StageView>, node: Seq<char>) -> Seq<Seq<char>>
    decreases stages.len(),
{
    if stages.len() == 0 {
        Seq::empty()
    } else {
        let before = working(stages.drop_last(), node);
        if stages.last().governance() == node {
            before.push(stages.last().id)
        } else {
            before
        }
    }
}

/// The stages that do the work of a box, in the order the registry declares them. It comes from the
/// registry, so it is the same whether or not the box was laid out.
pub fn members(stages: &[Stage], node: &str) -> (r: Vec<String>)
    ensures
        text::views(r@) == working(text::views(stages@), node@),
{
    let mut out: Vec<String> = Vec::new();
    let ghost all = text::views(stages@);
    let mut i: usize = 0;
    assert(text::views(out@) =~= working(all.take(0), node@));
    while i < stages.len()
        invariant
            i <= stages@.len(),
            all == text::views(stages@),
            text::views(out@) == working(all.take(i as int), node@),
        decreases stages@.len() - i,
    {
        let ghost had = text::views(out@);
        if text::same(stages[i].governance_id(), node) {
            out.push(stages[i].id.clone());
            assert(text::views(out@) =~= had.push(stages@[i as int].id@));
        }
        i += 1;
        proof {
            assert(all.take(i as int).drop_last() =~= all.take(i - 1));
            assert(all.take(i as int).last() == stages@[i - 1]@);
        }
    }
    assert(all.take(i as int) =~= all);
    out
}

/// A registry with one more declaration laid over it: in the place of the stage that had its id, or
/// last.
pub open spec fn laid_over(base: Seq<StageView>, stage: StageView) -> Seq<StageView> {
    let i = stage_index(base, called(stage.id));
    if i < base.len() {
        base.update(i, stage)
    } else {
        base.push(stage)
    }
}

/// A registry with declarations laid over it, in order.
pub open spec fn overlaid(base: Seq<StageView>, declared: Seq<StageView>) -> Seq<StageView>
    decreases declared.len(),
{
    if declared.len() == 0 {
        base
    } else {
        laid_over(overlaid(base, declared.drop_last()), declared.last())
    }
}

/// Lay a workflow's own declarations over a base registry: a declaration whose id is already there
/// *replaces* that stage in place, a new id is appended.
///
/// Replacing in place keeps the override where the standard stage sat, so the lookups that resolve a
/// stage by scanning the list (delegation targets among them) find the override.
pub fn overlay(base: &mut Vec<Stage>, declared: &[Stage])
    ensures
        text::views(final(base)@) == overlaid(text::views(old(base)@), text::views(declared@)),
{
    let ghost start = text::views(base@);
    let ghost all = text::views(declared@);
    let mut i: usize = 0;
    assert(all.take(0) =~= Seq::empty());
    while i < declared.len()
        invariant
            i <= declared@.len(),
            all == text::views(declared@),
            text::views(base@) == overlaid(start, all.take(i as int)),
        decreases declared@.len() - i,
    {
        let stage = declared[i].clone();
        let ghost had = text::views(base@);
        let ghost seen = stage@;
        let at: usize = find_stage(base.as_slice(), stage.id.as_str());
        if at < base.len() {
            base.set(at, stage);
            assert(text::views(base@) =~= had.update(at as int, seen));
        } else {
            base.push(stage);
            assert(text::views(base@) =~= had.push(seen));
        }
        i += 1;
        assert(all.take(i as int).drop_last() =~= all.take(i - 1));
    }
    assert(all.take(i as int) =~= all);
}

/// The ids of a registry.
pub open spec fn ids(stages: Seq<StageView>) -> Seq<Seq<char>> {
    Seq::new(stages.len(), |i: int| stages[i].id)
}

/// Laying declarations over a registry without repeated ids leaves it without repeated ids, never
/// shortens it and never moves a stage that was there: the base's ids stay a prefix.
pub proof fn overlay_keeps_ids_distinct(base: Seq<StageView>, declared: Seq<StageView>)
    requires
        names::distinct(ids(base)),
    ensures
        names::distinct(ids(overlaid(base, declared))),
        base.len() <= overlaid(base, declared).len() <= base.len() + declared.len(),
        forall|i: int| 0 <= i < base.len() ==> #[trigger] overlaid(base, declared)[i].id == base[i].id,
    decreases declared.len(),
{
    if declared.len() > 0 {
        let front = overlaid(base, declared.drop_last());
        let stage = declared.last();
        overlay_keeps_ids_distinct(base, declared.drop_last());
        let i = stage_index(front, called(stage.id));
        stage_index_is_first(front, called(stage.id));
        let all = overlaid(base, declared);
        if i < front.len() {
            assert(front[i].id == stage.id);
            assert(ids(all) =~= ids(front));
        } else {
            assert forall|a: int, b: int| 0 <= a < b < all.len() implies #[trigger] ids(all)[a]
                != #[trigger] ids(all)[b] by {
                if b < front.len() {
                    assert(ids(front)[a] != ids(front)[b]);
                } else {
                    assert(!called(stage.id)(front[a]));
                }
            }
        }
        assert forall|k: int| 0 <= k < base.len() implies #[trigger] all[k].id == base[k].id by {
            assert(front[k].id == base[k].id);
        }
    }
}

/// Whether no later declaration has the id of this one.
pub open spec fn declared_last(declared: Seq<StageView>, i: int) -> bool {
    &&& 0 <= i < declared.len()
    &&& forall|j: int| i < j < declared.len() ==> (#[trigger] declared[j]).id != declared[i].id
}

/// The last declaration of each id is in the overlaid registry as it was declared, and a base stage
/// that no declaration names is left as it was, where it was.
pub proof fn overlay_takes_effect(base: Seq<StageView>, declared: Seq<StageView>)
    ensures
        forall|i: int| #[trigger]
            declared_last(declared, i) ==> overlaid(base, declared).contains(declared[i]),
        base.len() <= overlaid(base, declared).len(),
        forall|i: int|
            0 <= i < base.len() && !ids(declared).contains((#[trigger] base[i]).id) ==> overlaid(
                base,
                declared,
            )[i] == base[i],
    decreases declared.len(),
{
    if declared.len() > 0 {
        let before = declared.drop_last();
        let front = overlaid(base, before);
        let stage = declared.last();
        let all = overlaid(base, declared);
        overlay_takes_effect(base, before);
        let at = stage_index(front, called(stage.id));
        stage_index_is_first(front, called(stage.id));
        assert(all[at] == stage);
        assert forall|i: int| #[trigger] declared_last(declared, i) implies all.contains(
            declared[i],
        ) by {
            if i < before.len() {
                assert forall|j: int| i < j < before.len() implies (#[trigger] before[j]).id
                    != before[i].id by {
                    assert(declared[j].id != declared[i].id);
                }
                assert(declared_last(before, i));
                let k = choose|k: int| 0 <= k < front.len() && front[k] == before[i];
                assert(declared[declared.len() - 1].id != declared[i].id);
                assert(all[k] == declared[i]);
            }
        }
        assert forall|i: int|
            0 <= i < base.len() && !ids(declared).contains((#[trigger] base[i]).id) implies all[i]
            == base[i] by {
            assert(ids(declared)[declared.len() - 1] == stage.id);
            assert(base[i].id != stage.id);
            if ids(before).contains(base[i].id) {
                let k = choose|k: int| 0 <= k < ids(before).len() && ids(before)[k] == base[i].id;
                assert(ids(declared)[k] == base[i].id);
            }
            assert(front[i] == base[i]);
        }
    }
}

/// An overlay invents nothing: every stage of it was in the base, or was declared.
pub proof fn overlay_invents_nothing(base: Seq<StageView>, declared: Seq<StageView>, k: int)
    requires
        0 <= k < overlaid(base, declared).len(),
    ensures
        base.contains(overlaid(base, declared)[k]) || declared.contains(
            overlaid(base, declared)[k],
        ),
    decreases declared.len(),
{
    if declared.len() == 0 {
        assert(base[k] == overlaid(base, declared)[k]);
    } else {
        let before = declared.drop_last();
        let front = overlaid(base, before);
        let all = overlaid(base, declared);
        if all[k] == declared.last() {
            assert(declared[declared.len() - 1] == all[k]);
        } else {
            stage_index_is_first(front, called(declared.last().id));
            overlay_invents_nothing(base, before, k);
            if before.contains(front[k]) {
                let j = choose|j: int| 0 <= j < before.len() && before[j] == front[k];
                assert(declared[j] == all[k]);
            }
        }
    }
}

/// The stage that runs for a node is the first with its name as id, wherever it stands; where none
/// has it, the first that is governed under it; and there is none exactly when neither is there.
pub proof fn a_stage_is_found_by_id_and_then_by_governance(stages: Seq<StageView>, node: Seq<char>)
    ensures
        match stage_for(stages, node) {
            Some(stage) => exists|i: int|
                {
                    &&& 0 <= i < stages.len()
                    &&& #[trigger] stages[i] == stage
                    &&& stage.id == node ==> forall|j: int|
                        0 <= j < i ==> (#[trigger] stages[j]).id != node
                    &&& stage.id != node ==> {
                        &&& forall|j: int|
                            0 <= j < stages.len() ==> (#[trigger] stages[j]).id != node
                        &&& stage.governed_by is Some && stage.governed_by->0@ == node
                        &&& forall|j: int|
                            0 <= j < i ==> !((#[trigger] stages[j]).governed_by is Some
                                && stages[j].governed_by->0@ == node)
                    }
                },
            None => forall|j: int|
                0 <= j < stages.len() ==> (#[trigger] stages[j]).id != node && !(
                stages[j].governed_by is Some && stages[j].governed_by->0@ == node),
        },
{
    stage_index_is_first(stages, called(node));
    stage_index_is_first(stages, governed_as(node));
    let by_id = stage_index(stages, called(node));
    let by_governance = stage_index(stages, governed_as(node));
    assert forall|j: int| 0 <= j < by_id implies (#[trigger] stages[j]).id != node by {
        assert(!called(node)(stages[j]));
    }
    assert forall|j: int| 0 <= j < by_governance implies !((#[trigger] stages[j]).governed_by is Some
        && stages[j].governed_by->0@ == node) by {
        assert(!governed_as(node)(stages[j]));
    }
    if by_id < stages.len() {
        assert(called(node)(stages[by_id]));
    } else if by_governance < stages.len() {
        assert(governed_as(node)(stages[by_governance]));
    }
}

/// A bound lets a capability through.
pub open spec fn lets(bound: Option<Capability>, wanted: Capability) -> bool {
    bound is Some && wanted.within(bound->0)
}

/// What a stage may do under a profile is exactly what some capability of the profile covers and,
/// where the stage declares any of its own, some capability of the stage covers too.
pub proof fn a_stage_may_do_what_both_allow(
    stage: StageView,
    profile: ProfileView,
    wanted: Capability,
)
    ensures
        lets(stage.effective_ceiling(profile), wanted) <==> {
            &&& exists|i: int|
                0 <= i < profile.capabilities.len() && wanted.within(
                    #[trigger] profile.capabilities[i],
                )
            &&& stage.capabilities.len() == 0 || exists|i: int|
                0 <= i < stage.capabilities.len() && wanted.within(#[trigger] stage.capabilities[i])
        },
{
    a_list_allows_what_one_of_it_does(profile.capabilities, wanted);
    a_list_allows_what_one_of_it_does(stage.capabilities, wanted);
}

proof fn a_list_allows_what_one_of_it_does(list: Seq<Capability>, wanted: Capability)
    ensures
        lets(Capability::most(list), wanted) <==> exists|i: int|
            0 <= i < list.len() && wanted.within(#[trigger] list[i]),
        Capability::most(list) is None <==> list.len() == 0,
{
    crate::config::ceiling_is_the_greatest(list);
    if lets(Capability::most(list), wanted) {
        let top = Capability::most(list)->0;
        let k = choose|k: int| 0 <= k < list.len() && list[k] == top;
        assert(wanted.within(list[k]));
    }
}

/// A stage works for a box exactly when it is governed under the box's name, or has it as id and is
/// governed as itself; each of them, in the registry's order.
pub proof fn a_box_is_worked_by_all_it_governs(stages: Seq<StageView>, node: Seq<char>)
    ensures
        lists::gathered(
            working(stages, node),
            stages,
            |stage: StageView|
                (match stage.governed_by {
                    Some(identity) => identity@,
                    None => stage.id,
                }) == node,
            |stage: StageView| stage.id,
        ),
{
    let gives = |stage: StageView|
        (match stage.governed_by {
            Some(identity) => identity@,
            None => stage.id,
        }) == node;
    let what = |stage: StageView| stage.id;
    working_is_gathered(stages, node, gives, what);
    lists::going_through_gathers(stages, gives, what);
}

proof fn working_is_gathered(
    stages: Seq<StageView>,
    node: Seq<char>,
    gives: spec_fn(StageView) -> bool,
    what: spec_fn(StageView) -> Seq<char>,
)
    requires
        forall|stage: StageView| gives(stage) == (#[trigger] stage.governance() == node),
        forall|stage: StageView| #[trigger] what(stage) == stage.id,
    ensures
        working(stages, node) == lists::gather(stages, gives, what),
    decreases stages.len(),
{
    if stages.len() > 0 {
        working_is_gathered(stages.drop_last(), node, gives, what);
        assert(gives(stages.last()) == (stages.last().governance() == node));
        assert(what(stages.last()) == stages.last().id);
    }
}

/// A prompt's parts are all of them that are not empty, in order.
pub proof fn only_empty_parts_are_left_out(parts: Seq<Seq<char>>)
    ensures
        exists|left: Seq<Seq<char>>|
            lists::kept(left, parts, |part: Seq<char>| part.len() > 0) && paragraphs(parts)
                == #[trigger] text::joined(left, "\n\n"@),
{
    let full = |part: Seq<char>| part.len() > 0;
    lists::a_filter_keeps(parts, full, full);
    let left = parts.filter(full);
    assert(lists::kept(left, parts, full));
    assert(paragraphs(parts) == text::joined(left, "\n\n"@));
}

/// A layout is drawn column by column, and in each column lane by lane: every node of every column
/// is one box, at its own column and lane and optional as its column is, and there is no other.
pub proof fn every_laid_out_node_is_one_box(layout: Seq<crate::workflow::WorkflowLayoutColumn>)
    ensures
        forall|drawn: ShapeNodeView| #[trigger]
            layout_shape(layout).contains(drawn) <==> {
                &&& 0 <= drawn.stage < layout.len()
                &&& 0 <= drawn.lane < layout[drawn.stage].nodes@.len()
                &&& drawn.name == layout[drawn.stage].nodes@[drawn.lane]@
                &&& drawn.optional == layout[drawn.stage].optional
            },
        forall|i: int, j: int|
            0 <= i < j < layout_shape(layout).len() ==> {
                let a = #[trigger] layout_shape(layout)[i];
                let b = #[trigger] layout_shape(layout)[j];
                a.stage < b.stage || (a.stage == b.stage && a.lane < b.lane)
            },
    decreases layout.len(),
{
    let all = layout_shape(layout);
    if layout.len() > 0 {
        let front = layout.drop_last();
        let n = front.len() as int;
        let before = layout_shape(front);
        let here = column_shape(layout[n], n);
        every_laid_out_node_is_one_box(front);
        assert(all == before + here);
        assert forall|drawn: ShapeNodeView| #[trigger] all.contains(drawn) <==> {
            &&& 0 <= drawn.stage < layout.len()
            &&& 0 <= drawn.lane < layout[drawn.stage].nodes@.len()
            &&& drawn.name == layout[drawn.stage].nodes@[drawn.lane]@
            &&& drawn.optional == layout[drawn.stage].optional
        } by {
            if all.contains(drawn) {
                let k = choose|k: int| 0 <= k < all.len() && all[k] == drawn;
                if k < before.len() {
                    assert(before[k] == drawn);
                    assert(before.contains(drawn));
                    assert(layout[drawn.stage] == front[drawn.stage]);
                } else {
                    assert(here[k - before.len()] == drawn);
                }
            }
            if 0 <= drawn.stage < layout.len() && 0 <= drawn.lane < layout[drawn.stage].nodes@.len()
                && drawn.name == layout[drawn.stage].nodes@[drawn.lane]@ && drawn.optional
                == layout[drawn.stage].optional {
                if drawn.stage < n {
                    assert(layout[drawn.stage] == front[drawn.stage]);
                    assert(before.contains(drawn));
                    let k = choose|k: int| 0 <= k < before.len() && before[k] == drawn;
                    assert(all[k] == drawn);
                } else {
                    assert(here[drawn.lane] == drawn);
                    assert(all[before.len() + drawn.lane] == drawn);
                }
            }
        }
        assert forall|i: int, j: int| 0 <= i < j < all.len() implies {
            let a = #[trigger] all[i];
            let b = #[trigger] all[j];
            a.stage < b.stage || (a.stage == b.stage && a.lane < b.lane)
        } by {
            if i < before.len() {
                assert(before[i] == all[i]);
                assert(before.contains(before[i]));
                if j < before.len() {
                    assert(before[j] == all[j]);
                } else {
                    assert(here[j - before.len()] == all[j]);
                }
            } else {
                assert(here[i - before.len()] == all[i]);
                assert(here[j - before.len()] == all[j]);
            }
        }
    } else {
        assert forall|drawn: ShapeNodeView| !#[trigger] all.contains(drawn) by {}
    }
}

/// What the built-in agents may do: only the one that publishes may publish, only the one that builds
/// may write and no more, the two that look may read and no more, and the one that transcribes may do
/// nothing. None of them says anything else.
pub proof fn built_in_agents_are_bounded(profile: ProfileView)
    requires
        built_in_profiles().contains(profile),
    ensures
        profile.ceiling() == Some(Capability::Publish) <==> profile.id == "publish"@,
        profile.ceiling() == Some(Capability::Write) <==> profile.id == "build"@,
        profile.ceiling() == Some(Capability::Read) <==> profile.id == "explore"@ || profile.id
            == "reason"@,
        profile.ceiling() is None <==> profile.id == "transcribe"@,
        profile.model is None,
        profile.base_prompt.len() == 0,
        profile.tool_policy is None,
        profile.max_turns is None,
{
    reveal_strlit("explore");
    reveal_strlit("reason");
    reveal_strlit("transcribe");
    reveal_strlit("build");
    reveal_strlit("publish");
    assert("explore"@.len() == 7 && "explore"@[0] == 'e');
    assert("publish"@.len() == 7 && "publish"@[0] == 'p');
    assert("reason"@.len() == 6);
    assert("transcribe"@.len() == 10);
    assert("build"@.len() == 5);
    let all = built_in_profiles();
    let k = choose|k: int| 0 <= k < all.len() && all[k] == profile;
    reveal_with_fuel(Capability::most, 2);
    assert(all[k].capabilities.len() > 0 ==> all[k].capabilities.drop_last() =~= Seq::empty());
}

proof fn a_first_profile_is_the_index(profiles: Seq<ProfileView>, id: Seq<char>, k: int)
    requires
        0 <= k <= profiles.len(),
        k < profiles.len() ==> profiles[k].id == id,
        forall|j: int| 0 <= j < k ==> (#[trigger] profiles[j]).id != id,
    ensures
        profile_index(profiles, id) == k,
{
    profile_index_is_first(profiles, id);
    let i = profile_index(profiles, id);
    if i < k {
        assert(profiles[i].id != id);
    }
    if k < i {
        assert(profiles[k].id != id);
    }
}

proof fn one_more_agent(profiles: Seq<ProfileView>, entry: NamedAgent, id: Seq<char>)
    ensures
        profile_named(with_agent(profiles, entry), id) == (if entry.name@ == id {
            Some(ProfileView::configured(entry.name@, entry.agent))
        } else {
            profile_named(profiles, id)
        }),
{
    let all = with_agent(profiles, entry);
    let at = profile_index(profiles, entry.name@);
    let k = profile_index(profiles, id);
    profile_index_is_first(profiles, entry.name@);
    profile_index_is_first(profiles, id);
    if at < profiles.len() {
        assert forall|j: int| 0 <= j < profiles.len() implies (#[trigger] all[j]).id
            == profiles[j].id by {}
        a_first_profile_is_the_index(all, id, k);
    } else if entry.name@ == id {
        a_first_profile_is_the_index(all, id, profiles.len() as int);
    } else if k < profiles.len() {
        a_first_profile_is_the_index(all, id, k);
    } else {
        a_first_profile_is_the_index(all, id, all.len() as int);
    }
}

/// An agent is what the last configured entry of its name says, whole; and the built-in one of that
/// name where no entry has it.
pub proof fn the_last_configured_agent_of_a_name_counts(agents: Seq<NamedAgent>, id: Seq<char>, i: int)
    ensures
        0 <= i < agents.len() && agents[i].name@ == id && (forall|j: int|
            i < j < agents.len() ==> (#[trigger] agents[j]).name@ != id) ==> {
            let found = profile_named(profiles_with(agents), id);
            &&& found is Some
            &&& found->0.id == id
            &&& found->0.model == agents[i].agent.model
            &&& found->0.base_prompt == agents[i].agent.base_prompt@
            &&& found->0.capabilities == agents[i].agent.capabilities@
            &&& found->0.tool_policy == agents[i].agent.tool_policy
            &&& found->0.max_turns == agents[i].agent.max_turns
        },
        (forall|j: int| 0 <= j < agents.len() ==> (#[trigger] agents[j]).name@ != id)
            ==> profile_named(profiles_with(agents), id) == profile_named(built_in_profiles(), id),
    decreases agents.len(),
{
    if agents.len() > 0 {
        let front = agents.drop_last();
        one_more_agent(profiles_with(front), agents.last(), id);
        the_last_configured_agent_of_a_name_counts(front, id, i);
        assert(agents[agents.len() - 1] == agents.last());
        if i < front.len() && 0 <= i {
            assert(front[i] == agents[i]);
        }
        if forall|j: int| i < j < agents.len() ==> (#[trigger] agents[j]).name@ != id {
            assert forall|j: int| i < j < front.len() && 0 <= j implies (
            #[trigger] front[j]).name@ != id by {
                assert(front[j] == agents[j]);
                assert(agents[j].name@ != id);
            }
        }
        if forall|j: int| 0 <= j < agents.len() ==> (#[trigger] agents[j]).name@ != id {
            assert forall|j: int| 0 <= j < front.len() implies (#[trigger] front[j]).name@ != id by {
                assert(agents[j].name@ != id);
            }
        }
    }
}

/// One bare stage, for a case that needs a [`Stage`] to change rather than a pipeline.
pub fn stage_fixture(id: &str, agent: &str) -> (r: Stage)
    ensures
        r@ == StageView::bare(id@, agent@),
{
    let r = Stage {
        id: id.to_owned(),
        agent: agent.to_owned(),
        governed_by: None,
        input_contract: String::new(),
        output_contract: String::new(),
        output_schema: None,
        instructions: String::new(),
        context: String::new(),
        capabilities: Vec::new(),
        tools: Vec::new(),
        session: None,
        question_renderer: None,
        array_normalization: Vec::new(),
        delegation: None,
        append_repository_guidance: true,
    };
    assert(text::views(r.array_normalization@) =~= Seq::empty());
    r
}

} // verus!
