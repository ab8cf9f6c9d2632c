//! What a repository configures: where models are routed, which reusable agents there are, and what
//! a stage is allowed to touch.

use vstd::prelude::*;

use crate::names;
use crate::text;

verus! {

broadcast use vstd::string::group_string_axioms;

/// What a turn may do. Each one includes the ones before it.
#[derive(Clone, Copy, Debug, PartialEq, Eq, Structural, Hash)]
pub enum Capability {
    Read,
    Write,
    Publish,
}

impl Capability {
    /// How much is allowed: more is higher.
    pub open spec fn rank(self) -> int {
        match self {
            Capability::Read => 1,
            Capability::Write => 2,
            Capability::Publish => 3,
        }
    }

    /// Whether `self` allows no more than `other`.
    pub open spec fn within(self, other: Capability) -> bool {
        self.rank() <= other.rank()
    }

    /// Whether `self` allows no more than `other`.
    pub fn is_within(self, other: Capability) -> (r: bool)
        ensures
            r == self.within(other),
    {
        match self {
            Capability::Read => true,
            Capability::Write => !matches!(other, Capability::Read),
            Capability::Publish => matches!(other, Capability::Publish),
        }
    }

    /// The narrower of two.
    pub open spec fn lesser(self, other: Capability) -> Capability {
        if self.within(other) {
            self
        } else {
            other
        }
    }

    /// The narrower of two.
    pub fn min(self, other: Capability) -> (r: Capability)
        ensures
            r == self.lesser(other),
    {
        if self.is_within(other) {
            self
        } else {
            other
        }
    }

    /// The most a list allows, `None` when it allows nothing.
    pub open spec fn most(list: Seq<Capability>) -> Option<Capability>
        decreases list.len(),
    {
        if list.len() == 0 {
            None
        } else {
            match Capability::most(list.drop_last()) {
                None => Some(list.last()),
                Some(so_far) => Some(
                    if list.last().within(so_far) {
                        so_far
                    } else {
                        list.last()
                    },
                ),
            }
        }
    }

    /// The most a list allows, `None` when it allows nothing.
    pub fn ceiling(list: &[Capability]) -> (r: Option<Capability>)
        ensures
            r == Capability::most(list@),
    {
        let mut so_far: Option<Capability> = None;
        let mut i: usize = 0;
        while i < list.len()
            invariant
                i <= list@.len(),
                so_far == Capability::most(list@.take(i as int)),
            decreases list@.len() - i,
        {
            let next = list[i];
            so_far = match so_far {
                None => Some(next),
                Some(most) => Some(
                    if next.is_within(most) {
                        most
                    } else {
                        next
                    },
                ),
            };
            i += 1;
            assert(list@.take(i as int).drop_last() =~= list@.take(i - 1));
        }
        assert(list@.take(i as int) =~= list@);
        so_far
    }
}

/// The ceiling of a list is one of its capabilities, and none of them allows more.
pub proof fn ceiling_is_the_greatest(list: Seq<Capability>)
    ensures
        Capability::most(list) is None <==> list.len() == 0,
        Capability::most(list) matches Some(top) ==> {
            &&& list.contains(top)
            &&& forall|i: int| 0 <= i < list.len() ==> (#[trigger] list[i]).within(top)
        },
    decreases list.len(),
{
    if list.len() > 0 {
        let front = list.drop_last();
        ceiling_is_the_greatest(front);
        let top = Capability::most(list)->0;
        if front.contains(top) {
            let k = choose|k: int| 0 <= k < front.len() && front[k] == top;
            assert(list[k] == top);
        } else {
            assert(list[list.len() - 1] == top);
        }
        assert forall|i: int| 0 <= i < list.len() implies (#[trigger] list[i]).within(top) by {
            if i < front.len() {
                assert(front[i] == list[i]);
            }
        }
    }
}

/// Whether one bound on authority allows more than another, where no capability at all is the
/// narrowest bound there is.
pub open spec fn wider(a: Option<Capability>, b: Option<Capability>) -> bool {
    match (a, b) {
        (None, _) => false,
        (Some(_), None) => true,
        (Some(x), Some(y)) => !x.within(y),
    }
}

/// Whether one bound on authority allows more than another.
pub fn is_wider(a: Option<Capability>, b: Option<Capability>) -> (r: bool)
    ensures
        r == wider(a, b),
{
    match (a, b) {
        (None, _) => false,
        (Some(_), None) => true,
        (Some(x), Some(y)) => !x.is_within(y),
    }
}

/// How capabilities compare: reading is within everything, everything is within publishing, and
/// otherwise only the same is within the same.
pub proof fn capabilities_are_ordered(a: Capability, b: Capability)
    ensures
        a.within(b) <==> a == b || a == Capability::Read || b == Capability::Publish,
        a.lesser(b) == a || a.lesser(b) == b,
        a.lesser(b).within(a) && a.lesser(b).within(b),
{
}

/// A bound allows more than another exactly when it allows anything at all and the other allows
/// nothing, or something else that does not contain it.
pub proof fn wider_means_allowing_more(a: Option<Capability>, b: Option<Capability>)
    ensures
        wider(a, b) <==> a is Some && (b is None || (a->0 != b->0 && a->0 != Capability::Read
            && b->0 != Capability::Publish)),
{
}

/// A name's route is that of the first entry with the name, and there is none exactly when no entry
/// has it.
pub proof fn a_route_is_the_first_of_its_name(models: Seq<NamedRoute>, name: Seq<char>)
    ensures
        match route_named(models, name) {
            Some(route) => exists|i: int|
                {
                    &&& 0 <= i < models.len()
                    &&& (#[trigger] models[i]).name@ == name
                    &&& models[i].route == route
                    &&& forall|j: int| 0 <= j < i ==> (#[trigger] models[j]).name@ != name
                },
            None => forall|j: int| 0 <= j < models.len() ==> (#[trigger] models[j]).name@ != name,
        },
    decreases models.len(),
{
    if models.len() > 0 && models[0].name@ != name {
        let rest = models.drop_first();
        a_route_is_the_first_of_its_name(rest, name);
        match route_named(rest, name) {
            Some(route) => {
                let i = choose|i: int|
                    {
                        &&& 0 <= i < rest.len()
                        &&& (#[trigger] rest[i]).name@ == name
                        &&& rest[i].route == route
                        &&& forall|j: int| 0 <= j < i ==> (#[trigger] rest[j]).name@ != name
                    };
                assert(models[i + 1] == rest[i]);
                assert forall|j: int| 0 <= j < i + 1 implies (#[trigger] models[j]).name@ != name by {
                    if j > 0 {
                        assert(models[j] == rest[j - 1]);
                    }
                }
            },
            None => {
                assert forall|j: int| 0 <= j < models.len() implies (#[trigger] models[j]).name@
                    != name by {
                    if j > 0 {
                        assert(models[j] == rest[j - 1]);
                    }
                }
            },
        }
    }
}

/// What a node keeps of its conversation from one attempt to the next.
#[derive(Clone, Copy, Debug, PartialEq, Eq, Structural, Hash)]
pub enum SessionScope {
    Fresh,
    Reuse,
    Compacted,
}

/// Where a model call goes and with what settings.
#[derive(Clone, Debug)]
pub struct ModelRoute {
    pub provider: String,
    pub model: String,
    pub max_tokens: Option<u64>,
    pub context_window: Option<u64>,
    /// The sampling temperature, written in decimal.
    pub temperature: Option<String>,
    /// Further provider settings, as JSON text.
    pub params: Option<String>,
    pub session: SessionScope,
}

/// What a [`ModelRoute`] says.
pub struct RouteView {
    pub provider: Seq<char>,
    pub model: Seq<char>,
    pub max_tokens: Option<u64>,
    pub context_window: Option<u64>,
    pub temperature: Option<Seq<char>>,
    pub params: Option<Seq<char>>,
    pub session: SessionScope,
}

impl View for ModelRoute {
    type V = RouteView;

    open spec fn view(&self) -> RouteView {
        RouteView {
            provider: self.provider@,
            model: self.model@,
            max_tokens: self.max_tokens,
            context_window: self.context_window,
            temperature: text::opt(self.temperature),
            params: text::opt(self.params),
            session: self.session,
        }
    }
}

impl ModelRoute {
    /// A copy.
    pub fn copy(&self) -> (r: ModelRoute)
        ensures
            r == *self,
    {
        ModelRoute {
            provider: self.provider.clone(),
            model: self.model.clone(),
            max_tokens: self.max_tokens,
            context_window: self.context_window,
            temperature: text::copy_opt(&self.temperature),
            params: text::copy_opt(&self.params),
            session: self.session,
        }
    }

    /// The route a ruleset names: a provider and a model, with nothing else said.
    pub fn named(provider: &str, model: &str) -> (r: ModelRoute)
        ensures
            r@ == RouteView::named(provider@, model@),
    {
        ModelRoute {
            provider: provider.to_owned(),
            model: model.to_owned(),
            max_tokens: None,
            context_window: None,
            temperature: None,
            params: None,
            session: SessionScope::Fresh,
        }
    }
}

impl RouteView {
    /// A provider and a model, with nothing else said.
    pub open spec fn named(provider: Seq<char>, model: Seq<char>) -> RouteView {
        RouteView {
            provider,
            model,
            max_tokens: None,
            context_window: None,
            temperature: None,
            params: None,
            session: SessionScope::Fresh,
        }
    }
}

/// One `[models.<name>]` entry.
#[derive(Clone, Debug)]
pub struct NamedRoute {
    pub name: String,
    pub route: ModelRoute,
}

/// One `[agents.<name>]` entry, as it is configured.
#[derive(Clone, Debug)]
pub struct AgentProfileConfig {
    pub model: Option<ModelRoute>,
    pub base_prompt: String,
    pub capabilities: Vec<Capability>,
    /// The name of the policy the agent's tool calls pass, when it has one.
    pub tool_policy: Option<String>,
    pub max_turns: Option<usize>,
}

/// What an [`AgentProfileConfig`] says.
pub struct AgentConfigView {
    pub model: Option<ModelRoute>,
    pub base_prompt: Seq<char>,
    pub capabilities: Seq<Capability>,
    pub tool_policy: Option<String>,
    pub max_turns: Option<usize>,
}

impl View for AgentProfileConfig {
    type V = AgentConfigView;

    open spec fn view(&self) -> AgentConfigView {
        AgentConfigView {
            model: self.model,
            base_prompt: self.base_prompt@,
            capabilities: self.capabilities@,
            tool_policy: self.tool_policy,
            max_turns: self.max_turns,
        }
    }
}

/// An `[agents.<name>]` entry with its name.
#[derive(Clone, Debug)]
pub struct NamedAgent {
    pub name: String,
    pub agent: AgentProfileConfig,
}

/// What the implementer is configured with.
#[derive(Clone, Debug)]
pub struct ImplementerConfig {
    /// Run the fork even when the plan calls for no code change.
    pub always_fork: bool,
    /// The least severe finding that blocks, as written.
    pub verify_threshold: String,
}

/// What delivery is configured with.
#[derive(Clone, Debug)]
pub struct PublishConfig {
    pub enabled: bool,
    pub committer_name: String,
    pub committer_email: String,
}

/// What plugins are configured with.
#[derive(Clone, Debug)]
pub struct PluginsConfig {
    /// Skills this repository does not want offered, by name.
    pub skills_deny: Vec<String>,
}

/// A repository's configuration, as far as the nodes read it.
#[derive(Clone, Debug)]
pub struct RatatoskrConfig {
    pub models: Vec<NamedRoute>,
    pub agents: Vec<NamedAgent>,
    pub implementer: ImplementerConfig,
    pub publish: PublishConfig,
    pub plugins: PluginsConfig,
}

/// The route of the entry with a name, the first where there are several.
pub open spec fn route_named(models: Seq<NamedRoute>, name: Seq<char>) -> Option<ModelRoute>
    decreases models.len(),
{
    if models.len() == 0 {
        None
    } else if models[0].name@ == name {
        Some(models[0].route)
    } else {
        route_named(models.drop_first(), name)
    }
}

impl RatatoskrConfig {
    /// Every name is configured once.
    pub open spec fn well_formed(self) -> bool {
        &&& names::distinct(Seq::new(self.models@.len(), |i: int| self.models@[i].name@))
        &&& names::distinct(Seq::new(self.agents@.len(), |i: int| self.agents@[i].name@))
    }

    /// The configured route of a name.
    pub open spec fn route_to(self, name: Seq<char>) -> Option<ModelRoute> {
        route_named(self.models@, name)
    }

    /// The `[models.<name>]` route, when there is one.
    pub fn model(&self, name: &str) -> (r: Option<ModelRoute>)
        ensures
            r == self.route_to(name@),
    {
        let mut i: usize = 0;
        assert(self.models@.skip(0) =~= self.models@);
        while i < self.models.len()
            invariant
                i <= self.models@.len(),
                route_named(self.models@.skip(i as int), name@) == route_named(self.models@, name@),
            decreases self.models@.len() - i,
        {
            assert(self.models@.skip(i as int)[0] == self.models@[i as int]);
            if text::same(self.models[i].name.as_str(), name) {
                return Some(self.models[i].route.copy());
            }
            assert(self.models@.skip(i as int).drop_first() =~= self.models@.skip(i + 1));
            i += 1;
        }
        None
    }

    /// Routes a name, replacing the route it had.
    pub fn set_model(&mut self, name: &str, route: ModelRoute)
        requires
            old(self).well_formed(),
        ensures
            final(self).well_formed(),
            final(self).route_to(name@) == Some(route),
            forall|other: Seq<char>|
                other != name@ ==> #[trigger] final(self).route_to(other) == old(self).route_to(other),
            final(self).agents == old(self).agents,
            final(self).implementer == old(self).implementer,
            final(self).publish == old(self).publish,
            final(self).plugins == old(self).plugins,
    {
        let mut i: usize = 0;
        let ghost before = self.models@;
        while i < self.models.len() && !text::same(self.models[i].name.as_str(), name)
            invariant
                i <= self.models@.len(),
                self.models@ == before,
                *self == *old(self),
                forall|j: int| 0 <= j < i ==> before[j].name@ != name@,
            decreases self.models@.len() - i,
        {
            i += 1;
        }
        let entry = NamedRoute { name: name.to_owned(), route };
        if i < self.models.len() {
            self.models.set(i, entry);
        } else {
            self.models.push(entry);
        }
        proof {
            let after = self.models@;
            let after_names = Seq::new(after.len(), |k: int| after[k].name@);
            let before_names = Seq::new(before.len(), |k: int| before[k].name@);
            assert forall|a: int, b: int| 0 <= a < b < after_names.len() implies #[trigger] after_names[a]
                != #[trigger] after_names[b] by {
                if b < before.len() {
                    assert(before_names[a] != before_names[b]);
                }
            }
            route_of_first(after, name@, i as int);
            assert forall|other: Seq<char>| other != name@ implies #[trigger] route_named(after, other)
                == route_named(before, other) by {
                if i < before.len() {
                    route_unchanged_by_update(before, i as int, after[i as int], other);
                } else {
                    route_unchanged_by_push(before, after[i as int], other);
                }
            }
        }
    }

    /// Takes the route of a name away.
    pub fn remove_model(&mut self, name: &str)
        requires
            old(self).well_formed(),
        ensures
            final(self).well_formed(),
            final(self).route_to(name@) is None,
            forall|other: Seq<char>|
                other != name@ ==> #[trigger] final(self).route_to(other) == old(self).route_to(other),
            final(self).agents == old(self).agents,
            final(self).implementer == old(self).implementer,
            final(self).publish == old(self).publish,
            final(self).plugins == old(self).plugins,
    {
        let mut i: usize = 0;
        let ghost before = self.models@;
        while i < self.models.len() && !text::same(self.models[i].name.as_str(), name)
            invariant
                i <= self.models@.len(),
                self.models@ == before,
                *self == *old(self),
                forall|j: int| 0 <= j < i ==> before[j].name@ != name@,
            decreases self.models@.len() - i,
        {
            i += 1;
        }
        if i < self.models.len() {
            self.models.remove(i);
            proof {
                let after = self.models@;
                let after_names = Seq::new(after.len(), |k: int| after[k].name@);
                let before_names = Seq::new(before.len(), |k: int| before[k].name@);
                assert(after =~= before.remove(i as int));
                assert forall|a: int, b: int| 0 <= a < b < after_names.len() implies #[trigger] after_names[a]
                    != #[trigger] after_names[b] by {
                    let p = if a < i { a } else { a + 1 };
                    let q = if b < i { b } else { b + 1 };
                    assert(before_names[p] != before_names[q]);
                }
                assert forall|j: int| 0 <= j < after.len() implies (#[trigger] after[j]).name@ != name@ by {
                    let p = if j < i { j } else { j + 1 };
                    if p > i {
                        assert(before_names[i as int] != before_names[p]);
                    }
                }
                route_absent(after, name@);
                assert forall|other: Seq<char>| other != name@ implies #[trigger] route_named(after, other)
                    == route_named(before, other) by {
                    route_unchanged_by_remove(before, i as int, other);
                }
            }
        } else {
            proof {
                route_absent(before, name@);
            }
        }
    }
}

proof fn route_absent(models: Seq<NamedRoute>, name: Seq<char>)
    requires
        forall|j: int| 0 <= j < models.len() ==> (#[trigger] models[j]).name@ != name,
    ensures
        route_named(models, name) is None,
    decreases models.len(),
{
    if models.len() > 0 {
        route_absent(models.drop_first(), name);
    }
}

proof fn route_of_first(models: Seq<NamedRoute>, name: Seq<char>, i: int)
    requires
        0 <= i < models.len(),
        models[i].name@ == name,
        forall|j: int| 0 <= j < i ==> (#[trigger] models[j]).name@ != name,
    ensures
        route_named(models, name) == Some(models[i].route),
    decreases models.len(),
{
    if i > 0 {
        assert(models.drop_first()[i - 1] == models[i]);
        route_of_first(models.drop_first(), name, i - 1);
    }
}

proof fn route_unchanged_by_update(models: Seq<NamedRoute>, i: int, entry: NamedRoute, other: Seq<char>)
    requires
        0 <= i < models.len(),
        models[i].name@ != other,
        entry.name@ != other,
    ensures
        route_named(models.update(i, entry), other) == route_named(models, other),
    decreases models.len(),
{
    let after = models.update(i, entry);
    if i > 0 {
        assert(after.drop_first() =~= models.drop_first().update(i - 1, entry));
        route_unchanged_by_update(models.drop_first(), i - 1, entry, other);
    } else {
        assert(after.drop_first() =~= models.drop_first());
    }
}

proof fn route_unchanged_by_push(models: Seq<NamedRoute>, entry: NamedRoute, other: Seq<char>)
    requires
        entry.name@ != other,
    ensures
        route_named(models.push(entry), other) == route_named(models, other),
    decreases models.len(),
{
    if models.len() > 0 {
        assert(models.push(entry).drop_first() =~= models.drop_first().push(entry));
        route_unchanged_by_push(models.drop_first(), entry, other);
    } else {
        assert(models.push(entry).drop_first() =~= models);
    }
}

proof fn route_unchanged_by_remove(models: Seq<NamedRoute>, i: int, other: Seq<char>)
    requires
        0 <= i < models.len(),
        models[i].name@ != other,
    ensures
        route_named(models.remove(i), other) == route_named(models, other),
    decreases models.len(),
{
    if i > 0 {
        assert(models.remove(i).drop_first() =~= models.drop_first().remove(i - 1));
        route_unchanged_by_remove(models.drop_first(), i - 1, other);
    } else {
        assert(models.remove(i) =~= models.drop_first());
    }
}

/// A well-formed configuration names no model twice and no agent twice.
pub proof fn a_configuration_names_each_once(config: RatatoskrConfig, i: int, j: int)
    requires
        config.well_formed(),
    ensures
        0 <= i < j < config.models@.len() ==> config.models@[i].name@ != config.models@[j].name@,
        0 <= i < j < config.agents@.len() ==> config.agents@[i].name@ != config.agents@[j].name@,
{
    let models = Seq::new(config.models@.len(), |k: int| config.models@[k].name@);
    let agents = Seq::new(config.agents@.len(), |k: int| config.agents@[k].name@);
    if 0 <= i < j < config.models@.len() {
        assert(models[i] != models[j]);
    }
    if 0 <= i < j < config.agents@.len() {
        assert(agents[i] != agents[j]);
    }
}

} // verus!
