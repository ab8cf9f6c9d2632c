//! The plugin plumbing: what a plugin gives a node, and how it gets there.
//!
//! Per-node binding, the servers plugins declare, the hooks that run around a node's tool calls, and
//! the resolution of one node's agent settings against its ruleset.

use vstd::prelude::*;
use vstd::string::StringExecFns;

use crate::config::Capability;
use crate::config::ModelRoute;
use crate::config::RatatoskrConfig;
use crate::config::RouteView;
use crate::error;
use crate::error::NodeError;
use crate::error::PlanError;
use crate::lists;
use crate::routes;
use crate::routes::RulesetConfig;
use crate::routes::ScriptEngine;
use crate::skills;
use crate::skills::Skill;
use crate::stage;
use crate::stage::AgentProfile;
use crate::stage::ProfileView;
use crate::stage::Stage;
use crate::stage::StageView;
use crate::text;
use crate::tools;
use crate::tools::ServerTools;
use crate::tools::Tool;
use crate::tools::ToolSet;
use crate::tools::ToolView;
use crate::tools::RAG_RAT;

verus! {

broadcast use vstd::string::group_string_axioms;

/// A server a plugin declares.
#[derive(Clone, Debug)]
pub struct McpServerSpec {
    pub name: String,
    pub command: Vec<String>,
    /// The variables it is started with, each a name and a value.
    pub env: Vec<(String, String)>,
}

/// A plugin, as it was loaded.
#[derive(Clone, Debug)]
pub struct Plugin {
    pub name: String,
    pub root: String,
    /// The events the plugin registers a hook for.
    pub hooks: Vec<String>,
    pub skills: Vec<Skill>,
    pub mcp_servers: Vec<McpServerSpec>,
}

/// The tools of a connected server, with the plugin that declared it, which is what a node binds.
#[derive(Debug)]
pub struct PluginServer {
    pub plugin: String,
    pub offer: ServerTools,
}

/// What the plugins of a run contribute.
///
/// Hooks run once per run: they describe the repository, not the node. Each node then composes its
/// own share from the plugins its ruleset binds.
#[derive(Debug)]
pub struct PluginContext {
    pub plugins: Vec<Plugin>,
    /// Every plugin found, which is what a node inherits when no ruleset narrows it.
    pub discovered: Vec<String>,
    /// The servers the discovered plugins declare, connected once and shared by every node that
    /// binds the plugin.
    pub servers: Vec<PluginServer>,
    /// Skills this repository does not want offered, by name.
    pub skills_deny: Vec<String>,
}

/// What one node is given: plugin contributions plus reusable profile guidance.
#[derive(Debug)]
pub struct NodePlugins {
    /// Session context, prefixed to whichever preamble the node runs with.
    pub context: Option<String>,
    /// Reusable agent guidance, composed ahead of the stage's own instructions.
    pub profile_prompt: String,
    /// The plugins whose hooks run around the node's tool calls. Empty when nothing it binds
    /// registers one, so a node that gains nothing pays nothing.
    pub observers: Vec<String>,
    /// Skills the plugins it binds ship, in binding order.
    pub skills: Vec<Skill>,
}

impl Default for NodePlugins {
    fn default() -> (r: NodePlugins)
        ensures
            r.context is None,
            r.profile_prompt@.len() == 0,
            r.observers@.len() == 0,
            r.skills@.len() == 0,
    {
        NodePlugins {
            context: None,
            profile_prompt: String::new(),
            observers: Vec::new(),
            skills: Vec::new(),
        }
    }
}

/// Whether an event is one a run actually has. Every other event a plugin registers describes a
/// session with a person in it, or a lifecycle this host does not have.
pub open spec fn node_event(event: Seq<char>) -> bool {
    ||| event == "SubagentStart"@
    ||| event == "UserPromptSubmit"@
    ||| event == "PreToolUse"@
    ||| event == "PostToolUse"@
    ||| event == "Stop"@
    ||| event == "StopFailure"@
    ||| event == "SubagentStop"@
}

/// Whether an event is one a run actually has.
pub fn is_node_event(event: &str) -> (r: bool)
    ensures
        r == node_event(event@),
{
    text::same(event, "SubagentStart") || text::same(event, "UserPromptSubmit") || text::same(
        event,
        "PreToolUse",
    ) || text::same(event, "PostToolUse") || text::same(event, "Stop") || text::same(
        event,
        "StopFailure",
    ) || text::same(event, "SubagentStop")
}

/// The names of a list of plugins.
pub open spec fn plugin_names(plugins: Seq<Plugin>) -> Seq<Seq<char>> {
    Seq::new(plugins.len(), |i: int| plugins[i].name@)
}

fn names_of(plugins: &[Plugin]) -> (r: Vec<String>)
    ensures
        text::views(r@) == plugin_names(plugins@),
{
    let mut out: Vec<String> = Vec::new();
    let mut i: usize = 0;
    while i < plugins.len()
        invariant
            i <= plugins@.len(),
            out@.len() == i,
            forall|j: int| 0 <= j < i ==> (#[trigger] out@[j])@ == plugins@[j].name@,
        decreases plugins@.len() - i,
    {
        out.push(plugins[i].name.clone());
        i += 1;
    }
    assert(text::views(out@) =~= plugin_names(plugins@));
    out
}

/// The names of a list that are not in another.
pub open spec fn outside(list: Seq<Seq<char>>, of: Seq<Seq<char>>) -> Seq<Seq<char>> {
    list.filter(|name: Seq<char>| !of.contains(name))
}

/// The names of a list that are in another.
pub open spec fn inside(list: Seq<Seq<char>>, of: Seq<Seq<char>>) -> Seq<Seq<char>> {
    list.filter(|name: Seq<char>| of.contains(name))
}

/// Keeps the names that are not in another list.
pub(crate) fn keep_outside(list: &[String], of: &[String]) -> (r: Vec<String>)
    ensures
        text::views(r@) == outside(text::views(list@), text::views(of@)),
{
    let mut out: Vec<String> = Vec::new();
    let ghost all = text::views(list@);
    let ghost held = text::views(of@);
    let ghost keep = |name: Seq<char>| !held.contains(name);
    let mut i: usize = 0;
    assert(all.take(0).filter(keep) =~= Seq::empty()) by {
        reveal(Seq::filter);
    }
    assert(text::views(out@) =~= Seq::empty());
    while i < list.len()
        invariant
            i <= list@.len(),
            all == text::views(list@),
            held == text::views(of@),
            keep == (|name: Seq<char>| !held.contains(name)),
            text::views(out@) == all.take(i as int).filter(keep),
        decreases list@.len() - i,
    {
        let ghost had = text::views(out@);
        if !text::contains(of, list[i].as_str()) {
            out.push(list[i].clone());
            assert(text::views(out@) =~= had.push(all[i as int]));
        }
        i += 1;
        proof {
            reveal(Seq::filter);
            assert(all.take(i as int).drop_last() =~= all.take(i - 1));
            assert(all.take(i as int).last() == all[i - 1]);
        }
    }
    assert(all.take(i as int) =~= all);
    out
}

/// Keeps the names that are in another list.
pub(crate) fn keep_inside(list: &[String], of: &[String]) -> (r: Vec<String>)
    ensures
        text::views(r@) == inside(text::views(list@), text::views(of@)),
{
    let mut out: Vec<String> = Vec::new();
    let ghost all = text::views(list@);
    let ghost held = text::views(of@);
    let ghost keep = |name: Seq<char>| held.contains(name);
    let mut i: usize = 0;
    assert(all.take(0).filter(keep) =~= Seq::empty()) by {
        reveal(Seq::filter);
    }
    assert(text::views(out@) =~= Seq::empty());
    while i < list.len()
        invariant
            i <= list@.len(),
            all == text::views(list@),
            held == text::views(of@),
            keep == (|name: Seq<char>| held.contains(name)),
            text::views(out@) == all.take(i as int).filter(keep),
        decreases list@.len() - i,
    {
        let ghost had = text::views(out@);
        if text::contains(of, list[i].as_str()) {
            out.push(list[i].clone());
            assert(text::views(out@) =~= had.push(all[i as int]));
        }
        i += 1;
        proof {
            reveal(Seq::filter);
            assert(all.take(i as int).drop_last() =~= all.take(i - 1));
            assert(all.take(i as int).last() == all[i - 1]);
        }
    }
    assert(all.take(i as int) =~= all);
    out
}

/// The plugins that were found, as a failure lists them.
pub open spec fn known(plugins: Seq<Plugin>) -> Seq<char> {
    if plugins.len() == 0 {
        "none"@
    } else {
        text::joined(plugin_names(plugins), ", "@)
    }
}

/// A name that some repository denies, whatever its case and the space around it.
pub open spec fn denies(deny: Seq<String>, skill: Seq<char>) -> bool {
    exists|i: int|
        0 <= i < deny.len() && text::lowered(text::trimmed((#[trigger] deny[i])@)) == text::lowered(
            text::trimmed(skill),
        )
}

/// The skills of a list that are not denied.
pub open spec fn permitted_skills(list: Seq<Skill>, deny: Seq<String>) -> Seq<Skill> {
    list.filter(|skill: Skill| !denies(deny, skill.name@))
}

/// The skills the bound plugins ship, in order, less the denied ones.
pub open spec fn bound_skills(plugins: Seq<Plugin>, bound: Seq<Seq<char>>, deny: Seq<String>) -> Seq<
    Skill,
>
    decreases plugins.len(),
{
    if plugins.len() == 0 {
        Seq::empty()
    } else {
        let so_far = bound_skills(plugins.drop_last(), bound, deny);
        if bound.contains(plugins.last().name@) {
            so_far + permitted_skills(plugins.last().skills@, deny)
        } else {
            so_far
        }
    }
}

/// Whether a plugin registers a hook for an event a run has.
pub open spec fn hooked(plugin: Plugin) -> bool {
    exists|i: int| 0 <= i < plugin.hooks@.len() && node_event((#[trigger] plugin.hooks@[i])@)
}

/// The names of the bound plugins whose hooks run, in order.
pub open spec fn observers(plugins: Seq<Plugin>, bound: Seq<Seq<char>>) -> Seq<Seq<char>>
    decreases plugins.len(),
{
    if plugins.len() == 0 {
        Seq::empty()
    } else {
        let so_far = observers(plugins.drop_last(), bound);
        if bound.contains(plugins.last().name@) && hooked(plugins.last()) {
            so_far.push(plugins.last().name@)
        } else {
            so_far
        }
    }
}

fn is_hooked(plugin: &Plugin) -> (r: bool)
    ensures
        r == hooked(*plugin),
{
    let mut i: usize = 0;
    while i < plugin.hooks.len()
        invariant
            i <= plugin.hooks@.len(),
            forall|j: int| 0 <= j < i ==> !node_event((#[trigger] plugin.hooks@[j])@),
        decreases plugin.hooks@.len() - i,
    {
        if is_node_event(plugin.hooks[i].as_str()) {
            return true;
        }
        i += 1;
    }
    false
}

impl PluginContext {
    /// Takes the plugins that were discovered, and checks that every plugin a ruleset *requires* is
    /// among them. The names that are merely preferred and missing are handed back, to be reported.
    ///
    /// An explicit binding is a requirement: naming one nobody installed is a typo, and the run
    /// fails rather than binding less than its author asked for. A default name is a preference: it
    /// applies to every node, so a missing one narrows the tool pool to what was discovered. A name
    /// in both categories is a requirement.
    pub fn resolve(
        plugins: Vec<Plugin>,
        required: &[String],
        declared: &[String],
        skills_deny: Vec<String>,
    ) -> (r: Result<(PluginContext, Vec<String>), PlanError>)
        ensures
            ({
                let installed = plugin_names(plugins@);
                let missing = outside(text::views(required@), installed);
                if missing.len() > 0 {
                    error::failed(
                        r,
                        "plugins"@,
                        "ruleset names plugin(s) that were not found: "@ + text::joined(
                            missing,
                            ", "@,
                        ) + "; discovered: "@ + known(plugins@),
                    )
                } else {
                    r matches Ok((context, preferred)) && {
                        &&& context.plugins == plugins
                        &&& text::views(context.discovered@) == installed
                        &&& context.servers@.len() == 0
                        &&& context.skills_deny == skills_deny
                        &&& text::views(preferred@) == outside(
                            outside(text::views(declared@), text::views(required@)),
                            installed,
                        )
                    }
                }
            }),
    {
        let installed = names_of(plugins.as_slice());
        let missing = keep_outside(required, installed.as_slice());
        assert(text::views(missing@).len() == missing@.len());
        if missing.len() > 0 {
            let mut m = "ruleset names plugin(s) that were not found: ".to_owned();
            m.append(text::join(missing.as_slice(), ", ").as_str());
            m.append("; discovered: ");
            if plugins.len() == 0 {
                m.append("none");
            } else {
                m.append(text::join(installed.as_slice(), ", ").as_str());
            }
            return Err(PlanError::node("plugins", NodeError::Failed(m)));
        }
        let optional = keep_outside(declared, required);
        let preferred = keep_outside(optional.as_slice(), installed.as_slice());
        Ok(
            (
                PluginContext {
                    plugins,
                    discovered: installed,
                    servers: Vec::new(),
                    skills_deny,
                },
                preferred,
            ),
        )
    }

    /// Whether this repository has asked that `skill` never be offered.
    ///
    /// Matched on the name as the plugin spells it, ignoring case and surrounding space, so a config
    /// entry does not have to reproduce a name's exact typography to take effect.
    pub fn denied(&self, skill: &str) -> (r: bool)
        ensures
            r == denies(self.skills_deny@, skill@),
    {
        let wanted = text::trim(skill);
        let mut i: usize = 0;
        while i < self.skills_deny.len()
            invariant
                i <= self.skills_deny@.len(),
                wanted@ == text::trimmed(skill@),
                forall|j: int|
                    0 <= j < i ==> text::lowered(text::trimmed((#[trigger] self.skills_deny@[j])@))
                        != text::lowered(text::trimmed(skill@)),
            decreases self.skills_deny@.len() - i,
        {
            let entry = text::trim(self.skills_deny[i].as_str());
            if text::same_ignoring_case(entry.as_str(), wanted.as_str()) {
                return true;
            }
            i += 1;
        }
        false
    }

    /// Which plugins a node binds: what its ruleset declares, restricted to what was discovered. A
    /// default name nobody installed drops out rather than binding a plugin that does not exist.
    pub fn bound(&self, declared: &[String]) -> (r: Vec<String>)
        ensures
            text::views(r@) == inside(text::views(declared@), text::views(self.discovered@)),
    {
        keep_inside(declared, self.discovered.as_slice())
    }

    fn skills_of(&self, plugin: &Plugin) -> (r: Vec<Skill>)
        ensures
            r@ == permitted_skills(plugin.skills@, self.skills_deny@),
    {
        let mut out: Vec<Skill> = Vec::new();
        let ghost all = plugin.skills@;
        let ghost deny = self.skills_deny@;
        let ghost keep = |skill: Skill| !denies(deny, skill.name@);
        let mut i: usize = 0;
        assert(all.take(0).filter(keep) =~= Seq::empty()) by {
            reveal(Seq::filter);
        }
        while i < plugin.skills.len()
            invariant
                i <= plugin.skills@.len(),
                all == plugin.skills@,
                deny == self.skills_deny@,
                keep == (|skill: Skill| !denies(deny, skill.name@)),
                out@ == all.take(i as int).filter(keep),
            decreases plugin.skills@.len() - i,
        {
            if !self.denied(plugin.skills[i].name.as_str()) {
                out.push(plugin.skills[i].copy());
            }
            i += 1;
            proof {
                reveal(Seq::filter);
                assert(all.take(i as int).drop_last() =~= all.take(i - 1));
                assert(all.take(i as int).last() == all[i - 1]);
            }
        }
        assert(all.take(i as int) =~= all);
        out
    }

    /// What the plugins a node binds give it: the session context composed for them, the skills they
    /// ship less the denied ones, and the plugins whose hooks run around its tool calls.
    pub fn for_node(&self, bound: &[String], context: Option<String>) -> (r: NodePlugins)
        ensures
            r.context == context,
            r.profile_prompt@.len() == 0,
            r.skills@ == bound_skills(self.plugins@, text::views(bound@), self.skills_deny@),
            text::views(r.observers@) == observers(self.plugins@, text::views(bound@)),
    {
        let mut gathered: Vec<Skill> = Vec::new();
        let mut watching: Vec<String> = Vec::new();
        let ghost names = text::views(bound@);
        let mut i: usize = 0;
        assert(text::views(watching@) =~= Seq::empty());
        while i < self.plugins.len()
            invariant
                i <= self.plugins@.len(),
                names == text::views(bound@),
                gathered@ == bound_skills(
                    self.plugins@.take(i as int),
                    names,
                    self.skills_deny@,
                ),
                text::views(watching@) == observers(self.plugins@.take(i as int), names),
            decreases self.plugins@.len() - i,
        {
            let plugin = &self.plugins[i];
            let ghost had = text::views(watching@);
            assert(self.plugins@.take(i + 1).drop_last() =~= self.plugins@.take(i as int));
            if text::contains(bound, plugin.name.as_str()) {
                let mut shipped = self.skills_of(plugin);
                gathered.append(&mut shipped);
                if is_hooked(plugin) {
                    watching.push(plugin.name.clone());
                    assert(text::views(watching@) =~= had.push(plugin.name@));
                }
            }
            i += 1;
        }
        assert(self.plugins@.take(i as int) =~= self.plugins@);
        NodePlugins { context, profile_prompt: String::new(), observers: watching, skills: gathered }
    }

    /// The tools one node may call: the repository's index, when there is one, then the servers of
    /// the plugins it binds. The index comes first, so it wins any name collision. Without one the
    /// group is omitted rather than empty.
    pub fn pool_for(&self, bound: &[String], rag_rat: Option<ServerTools>) -> (r: ToolSet)
        ensures
            r@ == pool(self.servers@, text::views(bound@), rag_rat),
    {
        let mut tools = ToolSet::new();
        if let Some(offer) = &rag_rat {
            tools.merge(offer);
        }
        let ghost start = tools@;
        let ghost names = text::views(bound@);
        let mut i: usize = 0;
        while i < self.servers.len()
            invariant
                i <= self.servers@.len(),
                names == text::views(bound@),
                tools@ == merged_bound(start, self.servers@.take(i as int), names),
            decreases self.servers@.len() - i,
        {
            let server = &self.servers[i];
            assert(self.servers@.take(i + 1).drop_last() =~= self.servers@.take(i as int));
            if text::contains(bound, server.plugin.as_str()) {
                tools.merge(&server.offer);
            }
            i += 1;
        }
        assert(self.servers@.take(i as int) =~= self.servers@);
        tools
    }
}

/// Tools with the offers of the bound servers merged in, in order.
pub open spec fn merged_bound(
    start: Seq<ToolView>,
    servers: Seq<PluginServer>,
    bound: Seq<Seq<char>>,
) -> Seq<ToolView>
    decreases servers.len(),
{
    if servers.len() == 0 {
        start
    } else {
        let so_far = merged_bound(start, servers.drop_last(), bound);
        if bound.contains(servers.last().plugin@) {
            tools::merged(so_far, text::views(servers.last().offer.tools@))
        } else {
            so_far
        }
    }
}

/// The tools one node may call.
pub open spec fn pool(
    servers: Seq<PluginServer>,
    bound: Seq<Seq<char>>,
    rag_rat: Option<ServerTools>,
) -> Seq<ToolView> {
    merged_bound(
        match rag_rat {
            Some(offer) => tools::merged(Seq::empty(), text::views(offer.tools@)),
            None => Seq::empty(),
        },
        servers,
        bound,
    )
}

/// A server to start, with the plugin that declared it.
pub open spec fn started(list: Seq<(&str, &McpServerSpec)>) -> Seq<(Seq<char>, McpServerSpec)> {
    Seq::new(list.len(), |i: int| (list[i].0@, *list[i].1))
}

/// Whether a server name is already taken: the repository's index, or a server that is to be
/// started.
pub open spec fn claimed(start: Seq<(Seq<char>, McpServerSpec)>, name: Seq<char>) -> bool {
    ||| name == RAG_RAT@
    ||| exists|i: int| 0 <= i < start.len() && (#[trigger] start[i]).1.name@ == name
}

/// The servers to start, with those of one more plugin.
pub open spec fn starting(
    start: Seq<(Seq<char>, McpServerSpec)>,
    plugin: Seq<char>,
    specs: Seq<McpServerSpec>,
) -> Seq<(Seq<char>, McpServerSpec)>
    decreases specs.len(),
{
    if specs.len() == 0 {
        start
    } else {
        let so_far = starting(start, plugin, specs.drop_last());
        if claimed(so_far, specs.last().name@) {
            so_far
        } else {
            so_far.push((plugin, specs.last()))
        }
    }
}

/// The servers to start for a list of plugins.
pub open spec fn starting_all(plugins: Seq<Plugin>) -> Seq<(Seq<char>, McpServerSpec)>
    decreases plugins.len(),
{
    if plugins.len() == 0 {
        Seq::empty()
    } else {
        starting(
            starting_all(plugins.drop_last()),
            plugins.last().name@,
            plugins.last().mcp_servers@,
        )
    }
}

fn is_claimed(start: &Vec<(&str, &McpServerSpec)>, name: &str) -> (r: bool)
    ensures
        r == claimed(started(start@), name@),
{
    if text::same(name, RAG_RAT) {
        return true;
    }
    let mut i: usize = 0;
    while i < start.len()
        invariant
            i <= start@.len(),
            forall|j: int| 0 <= j < i ==> (#[trigger] started(start@)[j]).1.name@ != name@,
        decreases start@.len() - i,
    {
        assert(started(start@)[i as int].1 == *start@[i as int].1);
        if text::same(start[i].1.name.as_str(), name) {
            return true;
        }
        i += 1;
    }
    false
}

/// Which declared servers actually get started, paired with the plugin that declared each.
///
/// One per server name, and the repository's index counts as already taken: its plugin declares the
/// very server the run already has, and a second copy would offer the identical tools.
pub fn servers_to_start<'a>(plugins: &'a [Plugin]) -> (r: Vec<(&'a str, &'a McpServerSpec)>)
    ensures
        started(r@) == starting_all(plugins@),
{
    let mut start: Vec<(&'a str, &'a McpServerSpec)> = Vec::new();
    let mut i: usize = 0;
    assert(started(start@) =~= Seq::empty());
    while i < plugins.len()
        invariant
            i <= plugins@.len(),
            started(start@) == starting_all(plugins@.take(i as int)),
        decreases plugins@.len() - i,
    {
        let plugin = &plugins[i];
        let specs = &plugin.mcp_servers;
        let ghost base = started(start@);
        let mut j: usize = 0;
        assert(specs@.take(0) =~= Seq::empty());
        while j < specs.len()
            invariant
                i < plugins@.len(),
                plugin == &plugins@[i as int],
                specs == &plugin.mcp_servers,
                j <= specs@.len(),
                started(start@) == starting(base, plugin.name@, specs@.take(j as int)),
            decreases specs@.len() - j,
        {
            let ghost had = started(start@);
            if !is_claimed(&start, specs[j].name.as_str()) {
                start.push((plugin.name.as_str(), &specs[j]));
                assert(started(start@) =~= had.push((plugin.name@, specs@[j as int])));
            }
            assert(specs@.take(j + 1).drop_last() =~= specs@.take(j as int));
            j += 1;
        }
        assert(specs@.take(j as int) =~= specs@);
        assert(plugins@.take(i + 1).drop_last() =~= plugins@.take(i as int));
        i += 1;
    }
    assert(plugins@.take(i as int) =~= plugins@);
    start
}

/// No server is started twice, and never a second copy of the repository's index.
pub proof fn each_server_starts_once(plugins: Seq<Plugin>)
    ensures
        forall|i: int|
            0 <= i < starting_all(plugins).len() ==> (#[trigger] starting_all(plugins)[i]).1.name@
                != RAG_RAT@,
        forall|i: int, j: int|
            0 <= i < j < starting_all(plugins).len() ==> (#[trigger] starting_all(
                plugins,
            )[i]).1.name@ != (#[trigger] starting_all(plugins)[j]).1.name@,
    decreases plugins.len(),
{
    if plugins.len() > 0 {
        each_server_starts_once(plugins.drop_last());
        starting_keeps_names_apart(
            starting_all(plugins.drop_last()),
            plugins.last().name@,
            plugins.last().mcp_servers@,
        );
    }
}

proof fn starting_keeps_names_apart(
    start: Seq<(Seq<char>, McpServerSpec)>,
    plugin: Seq<char>,
    specs: Seq<McpServerSpec>,
)
    requires
        forall|i: int| 0 <= i < start.len() ==> (#[trigger] start[i]).1.name@ != RAG_RAT@,
        forall|i: int, j: int|
            0 <= i < j < start.len() ==> (#[trigger] start[i]).1.name@ != (
            #[trigger] start[j]).1.name@,
    ensures
        ({
            let all = starting(start, plugin, specs);
            &&& forall|i: int| 0 <= i < all.len() ==> (#[trigger] all[i]).1.name@ != RAG_RAT@
            &&& forall|i: int, j: int|
                0 <= i < j < all.len() ==> (#[trigger] all[i]).1.name@ != (
                #[trigger] all[j]).1.name@
        }),
    decreases specs.len(),
{
    if specs.len() > 0 {
        starting_keeps_names_apart(start, plugin, specs.drop_last());
        let so_far = starting(start, plugin, specs.drop_last());
        let all = starting(start, plugin, specs);
        assert forall|i: int, j: int| 0 <= i < j < all.len() implies (#[trigger] all[i]).1.name@ != (
        #[trigger] all[j]).1.name@ by {
            if j < so_far.len() {
                assert(so_far[i].1.name@ != so_far[j].1.name@);
            } else {
                assert(!claimed(so_far, specs.last().name@));
                assert(so_far[i].1.name@ != specs.last().name@);
            }
        }
        assert forall|i: int| 0 <= i < all.len() implies (#[trigger] all[i]).1.name@ != RAG_RAT@ by {
            if i < so_far.len() {
                assert(so_far[i].1.name@ != RAG_RAT@);
            }
        }
    }
}

/// How a node's turn is reported to have ended.
#[derive(Clone, Copy, Debug, PartialEq, Eq, Structural)]
pub enum Ending {
    /// The turn produced an answer.
    Stop,
    /// The turn failed.
    StopFailure,
}

/// What is reported when a node's turn is over: how the turn ended, and the text that goes with it.
/// The subagent is over either way, and is told the same text.
pub fn turn_ended<'a>(outcome: Result<&'a str, &'a str>) -> (r: (Ending, &'a str))
    ensures
        match outcome {
            Ok(last) => r == (Ending::Stop, last),
            Err(error) => r == (Ending::StopFailure, error),
        },
{
    match outcome {
        Ok(last) => (Ending::Stop, last),
        Err(error) => (Ending::StopFailure, error),
    }
}

/// What the hooks that ran at the end of a turn answered, taken together: nothing where neither
/// answered, and otherwise what was said, with a blank line between the two.
pub fn closing_answer(stop: Option<String>, subagent: Option<String>) -> (r: Option<String>)
    ensures
        match (stop, subagent) {
            (None, None) => r is None,
            (Some(a), None) => r matches Some(all) && all@ == a@,
            (None, Some(b)) => r matches Some(all) && all@ == b@,
            (Some(a), Some(b)) => r matches Some(all) && all@ == a@ + "\n\n"@ + b@,
        },
{
    match (stop, subagent) {
        (None, None) => None,
        (Some(a), None) => Some(a),
        (None, Some(b)) => Some(b),
        (Some(a), Some(b)) => {
            let mut all = a;
            all.append("\n\n");
            all.append(b.as_str());
            Some(all)
        },
    }
}

/// What a policy says to one tool call.
#[derive(Debug)]
pub enum ToolDecision {
    Allow,
    /// Refused, and why.
    Deny(String),
    /// Allowed with other arguments, as JSON text.
    Rewrite(String),
}

/// What becomes of a tool call once the stage's own policy has spoken.
#[derive(Debug)]
pub enum StageVerdict {
    /// The call is refused; the profile is not asked.
    Refused(String),
    /// The profile decides, on these arguments.
    AskProfile(String),
}

/// Apply a stage ruleset first, then the reusable profile policy to the resulting arguments. The
/// profile is the authority boundary, so its decision is always last.
pub fn after_stage(decision: ToolDecision, args_json: &str) -> (r: StageVerdict)
    ensures
        match decision {
            ToolDecision::Allow => r matches StageVerdict::AskProfile(args) && args@ == args_json@,
            ToolDecision::Deny(reason) => r == StageVerdict::Refused(reason),
            ToolDecision::Rewrite(args) => r == StageVerdict::AskProfile(args),
        },
{
    match decision {
        ToolDecision::Allow => StageVerdict::AskProfile(args_json.to_owned()),
        ToolDecision::Deny(reason) => StageVerdict::Refused(reason),
        ToolDecision::Rewrite(args) => StageVerdict::AskProfile(args),
    }
}

/// Who decides a node's tool calls.
#[derive(Debug)]
pub enum CallPolicy {
    /// The node's ruleset.
    Stage,
    /// The policy of this name that its agent has.
    Profile(String),
    /// The node's ruleset first, then the policy of this name on what the ruleset lets through.
    StageThenProfile(String),
}

/// What is worth saying about the tools a node named.
#[derive(Debug)]
pub struct ToolNotes {
    /// Named, and beyond what the stage may do.
    pub excluded_by_ceiling: Vec<String>,
    /// Named and allowed, and nowhere on offer.
    pub missing: Vec<String>,
    /// Whether what is missing is missing by configuration: the node's own list names tools of an
    /// index this repository does not have.
    pub absent_by_configuration: bool,
    /// On offer from the node's plugins, and left out by an exhaustive list.
    pub left_out: Vec<String>,
}

/// The resolved agent settings for one stage: profile defaults plus stage ruleset overrides.
#[derive(Debug)]
pub struct NodeAgentConfig {
    pub route: ModelRoute,
    pub tools: ToolSet,
    pub capability_ceiling: Option<Capability>,
    /// The repository the stage's built-in file tools read within.
    pub files: Option<String>,
    pub policy: Option<CallPolicy>,
    pub max_turns: Option<usize>,
    /// Replaces the stage's built-in preamble when its ruleset declares one.
    pub system_prompt: Option<String>,
    pub notes: ToolNotes,
}

/// What a node may call when its ruleset names no tools: its built-in list, plus everything the
/// plugins it binds offer.
///
/// The built-in lists were written before any plugin was in the picture, so on their own they would
/// filter a bound plugin's every tool straight back out.
pub fn default_allow(built_in: &[&str], from_plugins: Vec<String>) -> (r: Vec<String>)
    ensures
        text::views(r@) == text::views(built_in@) + text::views(from_plugins@),
{
    let mut out: Vec<String> = Vec::new();
    let ghost own = text::views(built_in@);
    let mut i: usize = 0;
    assert(text::views(out@) =~= own.take(0));
    while i < built_in.len()
        invariant
            i <= built_in@.len(),
            own == text::views(built_in@),
            text::views(out@) == own.take(i as int),
        decreases built_in@.len() - i,
    {
        let ghost had = text::views(out@);
        out.push(built_in[i].to_owned());
        assert(text::views(out@) =~= had.push(own[i as int]));
        assert(own.take(i + 1) =~= own.take(i as int).push(own[i as int]));
        i += 1;
    }
    assert(own.take(i as int) =~= own);
    let ghost theirs = text::views(from_plugins@);
    let mut rest = from_plugins;
    out.append(&mut rest);
    assert(text::views(out@) =~= own + theirs);
    out
}

/// Whether a bound on authority lets something through. No bound at all lets nothing through.
pub open spec fn permits(ceiling: Option<Capability>, needed: Capability) -> bool {
    ceiling matches Some(most) && needed.within(most)
}

fn is_permitted(ceiling: Option<Capability>, needed: Capability) -> (r: bool)
    ensures
        r == permits(ceiling, needed),
{
    match ceiling {
        Some(most) => needed.is_within(most),
        None => false,
    }
}

/// The tools a node is offered before anything is narrowed: the file tools too, where the node
/// declares any reach at all and may read.
pub open spec fn with_files(
    tools: Seq<ToolView>,
    default_tools: Seq<Seq<char>>,
    ceiling: Option<Capability>,
) -> Seq<ToolView> {
    if default_tools.len() > 0 && permits(ceiling, Capability::Read) {
        tools.push(ToolView::local("Read"@, Capability::Read)).push(
            ToolView::local("Grep"@, Capability::Read),
        ).push(ToolView::local("Glob"@, Capability::Read))
    } else {
        tools
    }
}

/// The exhaustive list of tools a ruleset spells out, where it does.
pub open spec fn spelled_out(rules: Option<RulesetConfig>) -> Option<Seq<Seq<char>>> {
    match rules {
        Some(RulesetConfig { tools: Some(list), .. }) => match list.allow {
            Some(allow) => Some(text::views(allow@)),
            None => None,
        },
        _ => None,
    }
}

/// The tools a ruleset takes away.
pub open spec fn denied_tools(rules: Option<RulesetConfig>) -> Seq<Seq<char>> {
    match rules {
        Some(RulesetConfig { tools: Some(list), .. }) => text::views(list.deny@),
        _ => Seq::empty(),
    }
}

/// The tools a node names: what its ruleset spells out, or its own list and everything not of the
/// index.
pub open spec fn named_tools(
    rules: Option<RulesetConfig>,
    default_tools: Seq<Seq<char>>,
    offered: Seq<ToolView>,
) -> Seq<Seq<char>> {
    match spelled_out(rules) {
        Some(allow) => allow,
        None => default_tools + tools::names(tools::beyond(offered, RAG_RAT@)),
    }
}

/// The named tools that are within what the stage may do.
pub open spec fn within_ceiling(
    named: Seq<Seq<char>>,
    offered: Seq<ToolView>,
    ceiling: Option<Capability>,
) -> Seq<Seq<char>> {
    named.filter(
        |name: Seq<char>| permits(ceiling, tools::capability_of(offered, name)),
    )
}

/// The named tools that are beyond what the stage may do.
pub open spec fn beyond_ceiling(
    named: Seq<Seq<char>>,
    offered: Seq<ToolView>,
    ceiling: Option<Capability>,
) -> Seq<Seq<char>> {
    named.filter(
        |name: Seq<char>| !permits(ceiling, tools::capability_of(offered, name)),
    )
}

/// The tools a node ends up with: those it names, is not denied and may use, and the one that loads
/// a skill where it binds any and may read.
pub open spec fn granted(
    rules: Option<RulesetConfig>,
    offered: Seq<ToolView>,
    default_tools: Seq<Seq<char>>,
    ceiling: Option<Capability>,
    bound: Seq<Skill>,
) -> Seq<ToolView> {
    let all = with_files(offered, default_tools, ceiling);
    let allow = within_ceiling(named_tools(rules, default_tools, all), all, ceiling);
    let left = tools::narrowed(all, allow, denied_tools(rules));
    if permits(ceiling, Capability::Read) && skills::kept(bound).len() > 0 {
        left.push(ToolView::local(skills::SKILL_TOOL_NAME@, Capability::Read))
    } else {
        left
    }
}

/// The route a node's turn takes: its ruleset's model, then its agent's, then the configured one.
pub open spec fn turn_route(
    engine: ScriptEngine,
    config: RatatoskrConfig,
    node: Seq<char>,
    profile: Option<ProfileView>,
) -> Option<RouteView> {
    match routes::ruleset_route(engine, node) {
        Some(route) => Some(route),
        None => match profile {
            Some(ProfileView { model: Some(route), .. }) => Some(route@),
            _ => match config.route_to(node) {
                Some(route) => Some(route@),
                None => None,
            },
        },
    }
}

/// How many turns a node may take: what its ruleset says, else what its agent says.
pub open spec fn turn_limit(rules: Option<RulesetConfig>, profile: Option<ProfileView>) -> Option<
    usize,
> {
    match rules {
        Some(RulesetConfig { max_turns: Some(turns), .. }) => Some(turns),
        _ => match profile {
            Some(profile) => profile.max_turns,
            None => None,
        },
    }
}

/// Who decides a node's tool calls.
pub open spec fn call_policy(rules: Option<RulesetConfig>, profile: Option<ProfileView>) -> Option<
    CallPolicy,
> {
    let stage = rules matches Some(rules) && rules.has_on_tool_call;
    let agent = match profile {
        Some(profile) => profile.tool_policy,
        None => None,
    };
    match agent {
        Some(name) => Some(
            if stage {
                CallPolicy::StageThenProfile(name)
            } else {
                CallPolicy::Profile(name)
            },
        ),
        None => if stage {
            Some(CallPolicy::Stage)
        } else {
            None
        },
    }
}

/// What is worth saying about the tools a node named.
pub open spec fn noted(
    notes: ToolNotes,
    rules: Option<RulesetConfig>,
    offered: Seq<ToolView>,
    default_tools: Seq<Seq<char>>,
    ceiling: Option<Capability>,
) -> bool {
    let all = with_files(offered, default_tools, ceiling);
    let named = named_tools(rules, default_tools, all);
    let allow = within_ceiling(named, all, ceiling);
    &&& text::views(notes.excluded_by_ceiling@) == beyond_ceiling(named, all, ceiling)
    &&& text::views(notes.missing@) == outside(
        outside(allow, tools::names(all)),
        denied_tools(rules),
    )
    &&& notes.absent_by_configuration == (spelled_out(rules) is None && !(exists|i: int|
        0 <= i < all.len() && (#[trigger] all[i]).from_server(RAG_RAT@)))
    &&& text::views(notes.left_out@) == (if spelled_out(rules) is Some {
        outside(tools::names(tools::beyond(all, RAG_RAT@)), allow)
    } else {
        Seq::empty()
    })
}

/// The settings a node's turn runs with.
pub open spec fn configured(
    cfg: NodeAgentConfig,
    engine: ScriptEngine,
    config: RatatoskrConfig,
    offered: Seq<ToolView>,
    node: Seq<char>,
    default_tools: Seq<Seq<char>>,
    bound: Seq<Skill>,
    ceiling: Option<Capability>,
    profile: Option<ProfileView>,
    files: Option<String>,
) -> bool {
    let rules = engine.rules(node);
    &&& Some(cfg.route@) == turn_route(engine, config, node, profile)
    &&& cfg.tools@ == granted(rules, offered, default_tools, ceiling, bound)
    &&& cfg.capability_ceiling == ceiling
    &&& cfg.files == files
    &&& cfg.policy == call_policy(rules, profile)
    &&& cfg.max_turns == turn_limit(rules, profile)
    &&& cfg.system_prompt == (match rules {
        Some(rules) => rules.system_prompt,
        None => None,
    })
    &&& noted(cfg.notes, rules, offered, default_tools, ceiling)
}

fn keep_within(named: &[String], offered: &ToolSet, ceiling: Option<Capability>, wanted: bool) -> (r:
    Vec<String>)
    ensures
        text::views(r@) == (if wanted {
            within_ceiling(text::views(named@), offered@, ceiling)
        } else {
            beyond_ceiling(text::views(named@), offered@, ceiling)
        }),
{
    let mut out: Vec<String> = Vec::new();
    let ghost all = text::views(named@);
    let ghost tools = offered@;
    let ghost keep = |name: Seq<char>|
        permits(ceiling, tools::capability_of(tools, name)) == wanted;
    let mut i: usize = 0;
    assert(all.take(0).filter(keep) =~= Seq::empty()) by {
        reveal(Seq::filter);
    }
    assert(text::views(out@) =~= Seq::empty());
    while i < named.len()
        invariant
            i <= named@.len(),
            all == text::views(named@),
            tools == offered@,
            keep == (|name: Seq<char>|
                permits(ceiling, tools::capability_of(tools, name)) == wanted),
            text::views(out@) == all.take(i as int).filter(keep),
        decreases named@.len() - i,
    {
        let ghost had = text::views(out@);
        if is_permitted(ceiling, offered.capability(named[i].as_str())) == wanted {
            out.push(named[i].clone());
            assert(text::views(out@) =~= had.push(all[i as int]));
        }
        i += 1;
        proof {
            reveal(Seq::filter);
            assert(all.take(i as int).drop_last() =~= all.take(i - 1));
            assert(all.take(i as int).last() == all[i - 1]);
        }
    }
    proof {
        assert(all.take(i as int) =~= all);
        if wanted {
            assert(keep =~= (|name: Seq<char>| permits(ceiling, tools::capability_of(tools, name))));
        } else {
            assert(keep =~= (|name: Seq<char>|
                !permits(ceiling, tools::capability_of(tools, name))));
        }
    }
    out
}

/// What a stage's settings are resolved from, besides its name.
pub struct AgentSettings<'a> {
    pub capabilities: &'a [Capability],
    pub profile: Option<&'a AgentProfile>,
}

/// The view of a profile that may be absent.
pub open spec fn profile_view(profile: Option<&AgentProfile>) -> Option<ProfileView> {
    match profile {
        Some(profile) => Some(profile@),
        None => None,
    }
}

fn resolve_route(
    engine: &ScriptEngine,
    config: &RatatoskrConfig,
    node: &str,
    profile: Option<&AgentProfile>,
) -> (r: Result<ModelRoute, PlanError>)
    ensures
        match turn_route(*engine, *config, node@, profile_view(profile)) {
            Some(route) => r matches Ok(resolved) && resolved@ == route,
            None => r matches Err(PlanError::MissingRoute(name)) && name@ == node@,
        },
{
    if let Some(route) = routes::named_by_ruleset(engine, node) {
        return Ok(route);
    }
    if let Some(profile) = profile {
        if let Some(route) = &profile.model {
            return Ok(route.copy());
        }
    }
    routes::route(config, node)
}

fn resolve_policy(rules: Option<&RulesetConfig>, profile: Option<&AgentProfile>) -> (r: Option<
    CallPolicy,
>)
    ensures
        r == call_policy(rules_view(rules), profile_view(profile)),
{
    let stage = match rules {
        Some(rules) => rules.has_on_tool_call,
        None => false,
    };
    let agent = match profile {
        Some(profile) => text::copy_opt(&profile.tool_policy),
        None => None,
    };
    match agent {
        Some(name) => Some(
            if stage {
                CallPolicy::StageThenProfile(name)
            } else {
                CallPolicy::Profile(name)
            },
        ),
        None => if stage {
            Some(CallPolicy::Stage)
        } else {
            None
        },
    }
}

/// The rules behind a reference to them.
pub open spec fn rules_view(rules: Option<&RulesetConfig>) -> Option<RulesetConfig> {
    match rules {
        Some(rules) => Some(*rules),
        None => None,
    }
}

/// Narrows the tools on offer to what the node may call, and notes what that left out.
fn resolve_tools(
    rules: Option<&RulesetConfig>,
    offered: ToolSet,
    default_tools: &[&str],
    ceiling: Option<Capability>,
) -> (r: (ToolSet, ToolNotes))
    ensures
        ({
            let all = with_files(offered@, text::views(default_tools@), ceiling);
            let allow = within_ceiling(
                named_tools(rules_view(rules), text::views(default_tools@), all),
                all,
                ceiling,
            );
            &&& r.0@ == tools::narrowed(all, allow, denied_tools(rules_view(rules)))
            &&& noted(
                r.1,
                rules_view(rules),
                offered@,
                text::views(default_tools@),
                ceiling,
            )
        }),
{
    let ghost whole = with_files(offered@, text::views(default_tools@), ceiling);
    let mut all = offered;
    assert(text::views(default_tools@).len() == default_tools@.len());
    if default_tools.len() > 0 && is_permitted(ceiling, Capability::Read) {
        all.add_local("Read", Capability::Read);
        all.add_local("Grep", Capability::Read);
        all.add_local("Glob", Capability::Read);
    }
    assert(all@ == whole);
    let spelled: Option<&Vec<String>> = match rules {
        Some(rules) => match &rules.tools {
            Some(list) => match &list.allow {
                Some(allow) => Some(allow),
                None => None,
            },
            None => None,
        },
        None => None,
    };
    let deny: Vec<String> = match rules {
        Some(rules) => match &rules.tools {
            Some(list) => text::copies(list.deny.as_slice()),
            None => Vec::new(),
        },
        None => Vec::new(),
    };
    assert(text::views(deny@) =~= denied_tools(rules_view(rules)));
    let from_plugins = all.names_beyond(RAG_RAT);
    let named: Vec<String> = match spelled {
        Some(allow) => text::copies(allow.as_slice()),
        None => default_allow(default_tools, text::copies(from_plugins.as_slice())),
    };
    assert(text::views(named@) =~= named_tools(
        rules_view(rules),
        text::views(default_tools@),
        all@,
    ));
    let allow = keep_within(named.as_slice(), &all, ceiling, true);
    let excluded = keep_within(named.as_slice(), &all, ceiling, false);
    let on_offer = all.names();
    let unseen = keep_outside(allow.as_slice(), on_offer.as_slice());
    let missing = keep_outside(unseen.as_slice(), deny.as_slice());
    let absent = spelled.is_none() && !all.has_server(RAG_RAT);
    let left_out = if spelled.is_some() {
        keep_outside(from_plugins.as_slice(), allow.as_slice())
    } else {
        Vec::new()
    };
    assert(spelled is None ==> text::views(left_out@) =~= Seq::empty());
    proof {
        let named_views = named_tools(rules_view(rules), text::views(default_tools@), whole);
        assert(text::views(allow@) == within_ceiling(named_views, whole, ceiling));
        assert(text::views(excluded@) == beyond_ceiling(named_views, whole, ceiling));
        assert(spelled is Some <==> spelled_out(rules_view(rules)) is Some);
    }
    let notes = ToolNotes {
        excluded_by_ceiling: excluded,
        missing,
        absent_by_configuration: absent,
        left_out,
    };
    (all.narrow(allow.as_slice(), deny.as_slice()), notes)
}

/// Resolve a node's agent settings. Ruleset values override the selected profile, which overrides
/// the configured route; a ruleset's `allow` (if given) REPLACES `default_tools`, its `deny` is
/// always removed, and its own decision on tool calls (if it has one) comes before the profile's.
/// Offered tools are narrowed to the stage's effective capability ceiling.
///
/// Whether a node is *offered* the file tools follows from whether it declares any reach: an empty
/// list has to mean none. The root it reads within is separate, and always set: it is not a
/// capability, only where a tool resolves paths.
pub fn node_agent_config(
    engine: &ScriptEngine,
    config: &RatatoskrConfig,
    offered: ToolSet,
    node: &str,
    default_tools: &[&str],
    plugins: &NodePlugins,
    settings: AgentSettings<'_>,
    files: Option<String>,
) -> (r: Result<NodeAgentConfig, PlanError>)
    ensures
        match turn_route(*engine, *config, node@, profile_view(settings.profile)) {
            Some(_) => r matches Ok(cfg) && configured(
                cfg,
                *engine,
                *config,
                offered@,
                node@,
                text::views(default_tools@),
                plugins.skills@,
                Capability::most(settings.capabilities@),
                profile_view(settings.profile),
                files,
            ),
            None => r matches Err(PlanError::MissingRoute(name)) && name@ == node@,
        },
{
    let ceiling = Capability::ceiling(settings.capabilities);
    let rules = engine.ruleset(node);
    let route = match resolve_route(engine, config, node, settings.profile) {
        Ok(route) => route,
        Err(error) => return Err(error),
    };
    assert(rules_view(rules) == engine.rules(node@));
    let (mut tools, notes) = resolve_tools(rules, offered, default_tools, ceiling);
    let max_turns: Option<usize> = match rules {
        Some(RulesetConfig { max_turns: Some(turns), .. }) => Some(*turns),
        _ => match settings.profile {
            Some(profile) => profile.max_turns,
            None => None,
        },
    };
    let system_prompt = match rules {
        Some(rules) => text::copy_opt(&rules.system_prompt),
        None => None,
    };
    let policy = resolve_policy(rules, settings.profile);
    // Every node reaches this function: a node that binds a skill and is never offered it is the
    // failure this seam exists to prevent.
    if is_permitted(ceiling, Capability::Read) {
        if let Some(_tool) = skills::skill_tool(plugins.skills.as_slice()) {
            tools.add_local(skills::SKILL_TOOL_NAME, Capability::Read);
        }
    }
    Ok(
        NodeAgentConfig {
            route,
            tools,
            capability_ceiling: ceiling,
            files,
            policy,
            max_turns,
            system_prompt,
            notes,
        },
    )
}

/// The most a stage of a run may do: what its profile and its own declaration allow, and no more
/// than the run grants it.
pub open spec fn run_ceiling(stage: StageView, profile: ProfileView, grant: Capability) -> Option<
    Capability,
> {
    match stage.effective_ceiling(profile) {
        Some(most) => Some(most.lesser(grant)),
        None => None,
    }
}

/// The list of one capability, or of none.
fn at_most(ceiling: Option<Capability>) -> (r: Vec<Capability>)
    ensures
        Capability::most(r@) == ceiling,
{
    let mut list: Vec<Capability> = Vec::new();
    if let Some(most) = ceiling {
        list.push(most);
        proof {
            reveal_with_fuel(Capability::most, 2);
            assert(list@.drop_last() =~= Seq::empty());
        }
    }
    list
}

/// Resolve a declared workflow stage through the profile it names, under the identity its turn runs
/// under, and within what the run grants it.
pub fn declared_stage_agent_config(
    engine: &ScriptEngine,
    config: &RatatoskrConfig,
    offered: ToolSet,
    stage: &Stage,
    default_tools: &[&str],
    plugins: &NodePlugins,
    grant: Capability,
    files: Option<String>,
) -> (r: Result<(NodeAgentConfig, AgentProfile), PlanError>)
    ensures
        match stage::profile_named(stage::profiles_with(config.agents@), stage.agent@) {
            None => r matches Err(PlanError::Configuration(why)) && why@ == "stage `"@ + stage.id@
                + "` references unknown agent `"@ + stage.agent@ + "`"@,
            Some(profile) => match turn_route(
                *engine,
                *config,
                stage@.governance(),
                Some(profile),
            ) {
                None => r matches Err(PlanError::MissingRoute(name)) && name@
                    == stage@.governance(),
                Some(_) => r matches Ok((cfg, chosen)) && chosen@ == profile && configured(
                    cfg,
                    *engine,
                    *config,
                    offered@,
                    stage@.governance(),
                    text::views(default_tools@),
                    plugins.skills@,
                    run_ceiling(stage@, profile, grant),
                    Some(profile),
                    files,
                ),
            },
        },
{
    let profiles = stage::agent_profiles(config);
    let at: usize = stage::find_profile(profiles.as_slice(), stage.agent.as_str());
    if at >= profiles.len() {
        let mut m = "stage `".to_owned();
        m.append(stage.id.as_str());
        m.append("` references unknown agent `");
        m.append(stage.agent.as_str());
        m.append("`");
        return Err(PlanError::Configuration(m));
    }
    let profile = &profiles[at];
    assert(text::views(profiles@)[at as int] == profile@);
    let ceiling = match stage.effective_ceiling(profile) {
        Some(most) => Some(most.min(grant)),
        None => None,
    };
    let capabilities = at_most(ceiling);
    let settings = AgentSettings {
        capabilities: capabilities.as_slice(),
        profile: Some(profile),
    };
    let resolved = node_agent_config(
        engine,
        config,
        offered,
        stage.governance_id(),
        default_tools,
        plugins,
        settings,
        files,
    );
    match resolved {
        Ok(cfg) => Ok((cfg, profile.copy())),
        Err(error) => Err(error),
    }
}

/// The guidance a profile that may be absent has.
pub open spec fn guidance(profile: Option<ProfileView>) -> Seq<char> {
    match profile {
        Some(profile) => profile.base_prompt,
        None => Seq::empty(),
    }
}

/// The most the stage that runs for a node may do: what it and its profile allow, and reading where
/// no stage or no profile is known.
pub open spec fn node_ceiling(
    config: RatatoskrConfig,
    stages: Seq<StageView>,
    node: Seq<char>,
) -> Option<Capability> {
    match (stage::stage_for(stages, node), stage::profile_of(config.agents@, stages, node)) {
        (Some(stage), Some(profile)) => stage.effective_ceiling(profile),
        _ => Some(Capability::Read),
    }
}

/// Resolve the stage that runs for a node through its selected reusable profile, whose guidance the
/// node is given.
pub fn stage_agent_config(
    engine: &ScriptEngine,
    config: &RatatoskrConfig,
    offered: ToolSet,
    stages: &[Stage],
    node: &str,
    default_tools: &[&str],
    plugins: &mut NodePlugins,
    files: Option<String>,
) -> (r: Result<NodeAgentConfig, PlanError>)
    ensures
        ({
            let profile = stage::profile_of(config.agents@, text::views(stages@), node@);
            &&& final(plugins).profile_prompt@ == guidance(profile)
            &&& final(plugins).context == old(plugins).context
            &&& final(plugins).observers == old(plugins).observers
            &&& final(plugins).skills == old(plugins).skills
            &&& match turn_route(*engine, *config, node@, profile) {
                Some(_) => r matches Ok(cfg) && configured(
                    cfg,
                    *engine,
                    *config,
                    offered@,
                    node@,
                    text::views(default_tools@),
                    old(plugins).skills@,
                    node_ceiling(*config, text::views(stages@), node@),
                    profile,
                    files,
                ),
                None => r matches Err(PlanError::MissingRoute(name)) && name@ == node@,
            }
        }),
{
    let profile = stage::profile_for(config, stages, node);
    plugins.profile_prompt = match &profile {
        Some(profile) => profile.base_prompt.clone(),
        None => String::new(),
    };
    let ceiling = match (stage::for_node(stages, node), &profile) {
        (Some(stage), Some(profile)) => stage.effective_ceiling(profile),
        _ => Some(Capability::Read),
    };
    let capabilities = at_most(ceiling);
    let settings = AgentSettings {
        capabilities: capabilities.as_slice(),
        profile: profile.as_ref(),
    };
    node_agent_config(
        engine,
        config,
        offered,
        node,
        default_tools,
        &*plugins,
        settings,
        files,
    )
}

/// Resolve the red-team test author. It shares the `redteam` route and ruleset with the optional
/// classifier, but its fixed job is to write tests into the worktree before the change, so the
/// classifier's read ceiling must not take its editing tools away.
pub fn redteam_author_agent_config(
    engine: &ScriptEngine,
    config: &RatatoskrConfig,
    offered: ToolSet,
    stages: &[Stage],
    default_tools: &[&str],
    plugins: &mut NodePlugins,
    files: Option<String>,
) -> (r: Result<NodeAgentConfig, PlanError>)
    ensures
        ({
            let profile = stage::profile_of(config.agents@, text::views(stages@), "redteam"@);
            &&& final(plugins).profile_prompt@ == guidance(profile)
            &&& final(plugins).context == old(plugins).context
            &&& final(plugins).observers == old(plugins).observers
            &&& final(plugins).skills == old(plugins).skills
            &&& match turn_route(*engine, *config, "redteam"@, profile) {
                Some(_) => r matches Ok(cfg) && configured(
                    cfg,
                    *engine,
                    *config,
                    offered@,
                    "redteam"@,
                    text::views(default_tools@),
                    old(plugins).skills@,
                    Some(Capability::Write),
                    profile,
                    files,
                ),
                None => r matches Err(PlanError::MissingRoute(name)) && name@ == "redteam"@,
            }
        }),
{
    let profile = stage::profile_for(config, stages, "redteam");
    plugins.profile_prompt = match &profile {
        Some(profile) => profile.base_prompt.clone(),
        None => String::new(),
    };
    let capabilities = at_most(Some(Capability::Write));
    let settings = AgentSettings {
        capabilities: capabilities.as_slice(),
        profile: profile.as_ref(),
    };
    node_agent_config(
        engine,
        config,
        offered,
        "redteam",
        default_tools,
        &*plugins,
        settings,
        files,
    )
}

/// No node is ever handed a tool beyond what it may do, whatever its ruleset or its plugins name;
/// and a node that may do nothing is handed none.
pub proof fn tools_stay_within_the_ceiling(
    rules: Option<RulesetConfig>,
    offered: Seq<ToolView>,
    default_tools: Seq<Seq<char>>,
    ceiling: Option<Capability>,
    bound: Seq<Skill>,
    tool: ToolView,
)
    requires
        granted(rules, offered, default_tools, ceiling, bound).contains(tool),
        crate::names::distinct(tools::names(with_files(offered, default_tools, ceiling))),
    ensures
        permits(ceiling, tool.capability),
{
    let all = with_files(offered, default_tools, ceiling);
    let named = named_tools(rules, default_tools, all);
    let allow = within_ceiling(named, all, ceiling);
    let left = tools::narrowed(all, allow, denied_tools(rules));
    if left.contains(tool) {
        tools::narrowing_only_takes_away(all, allow, denied_tools(rules), tool);
        let keep = |name: Seq<char>| permits(ceiling, tools::capability_of(all, name));
        assert(allow == named.filter(keep));
        named.filter_lemma(keep);
        let k = choose|k: int| 0 <= k < allow.len() && allow[k] == tool.name;
        assert(keep(named.filter(keep)[k]));
        let at = choose|at: int| 0 <= at < all.len() && all[at] == tool;
        tool_index_is_unique(all, at);
    }
}

proof fn tool_index_is_unique(all: Seq<ToolView>, at: int)
    requires
        0 <= at < all.len(),
        crate::names::distinct(tools::names(all)),
    ensures
        tools::tool_index(all, all[at].name) == at,
    decreases all.len(),
{
    if at > 0 {
        let rest = all.drop_first();
        assert(tools::names(all)[0] != tools::names(all)[at]);
        assert forall|i: int, j: int| 0 <= i < j < rest.len() implies #[trigger] tools::names(
            rest,
        )[i] != #[trigger] tools::names(rest)[j] by {
            assert(tools::names(all)[i + 1] != tools::names(all)[j + 1]);
        }
        assert(rest[at - 1] == all[at]);
        tool_index_is_unique(rest, at - 1);
    }
}

/// The tools on offer to a node: those it was given, and the three that read files where it declares
/// any tool at all and may do anything at all.
pub open spec fn offer(
    offered: Seq<ToolView>,
    default_tools: Seq<Seq<char>>,
    ceiling: Option<Capability>,
) -> Seq<ToolView> {
    offered + (if default_tools.len() > 0 && ceiling is Some {
        seq![
            ToolView { name: "Read"@, server: None, capability: Capability::Read },
            ToolView { name: "Grep"@, server: None, capability: Capability::Read },
            ToolView { name: "Glob"@, server: None, capability: Capability::Read },
        ]
    } else {
        Seq::empty()
    })
}

/// Whether a node asks for a tool by name: its ruleset's `allow` has the name; or, where the ruleset
/// gives none, its own list has it, or something other than the index offers it.
pub open spec fn asked_for(
    rules: Option<RulesetConfig>,
    default_tools: Seq<Seq<char>>,
    all: Seq<ToolView>,
    name: Seq<char>,
) -> bool {
    if rules is Some && rules->0.tools is Some && rules->0.tools->0.allow is Some {
        text::named(rules->0.tools->0.allow->0@, name)
    } else {
        ||| exists|i: int| 0 <= i < default_tools.len() && #[trigger] default_tools[i] == name
        ||| exists|i: int|
            0 <= i < all.len() && (#[trigger] all[i]).name == name && !(all[i].server is Some
                && all[i].server->0@ == RAG_RAT@)
    }
}

/// Whether a ruleset takes a tool away: its `deny` has the name.
pub open spec fn taken_away(rules: Option<RulesetConfig>, name: Seq<char>) -> bool {
    rules is Some && rules->0.tools is Some && text::named(rules->0.tools->0.deny@, name)
}

/// Whether a bound covers what the first tool of a name may do.
pub open spec fn covered(all: Seq<ToolView>, ceiling: Option<Capability>, name: Seq<char>) -> bool {
    exists|i: int|
        {
            &&& 0 <= i < all.len()
            &&& (#[trigger] all[i]).name == name
            &&& forall|j: int| 0 <= j < i ==> (#[trigger] all[j]).name != name
            &&& ceiling is Some && all[i].capability.within(ceiling->0)
        }
}

proof fn named_tools_are_asked_for(
    rules: Option<RulesetConfig>,
    default_tools: Seq<Seq<char>>,
    all: Seq<ToolView>,
    name: Seq<char>,
)
    ensures
        named_tools(rules, default_tools, all).contains(name) <==> asked_for(
            rules,
            default_tools,
            all,
            name,
        ),
{
    let own = tools::names(tools::beyond(all, RAG_RAT@));
    match spelled_out(rules) {
        Some(allow) => {
            text::named_somewhere(rules->0.tools->0.allow->0@, name);
        },
        None => {
            let far = tools::beyond(all, RAG_RAT@);
            let stays = |tool: ToolView| tool.server is None || tool.server->0@ != RAG_RAT@;
            let apart = |tool: ToolView| !tool.from_server(RAG_RAT@);
            assert(far == all.filter(apart));
            lists::a_filter_keeps(all, apart, stays);
            let list = default_tools + own;
            if list.contains(name) {
                let k = choose|k: int| 0 <= k < list.len() && list[k] == name;
                if k < default_tools.len() {
                    assert(default_tools[k] == name);
                } else {
                    let tool = far[k - default_tools.len()];
                    assert(far.contains(tool));
                    lists::kept_is_membership(far, all, stays, tool);
                    let i = choose|i: int| 0 <= i < all.len() && all[i] == tool;
                    assert(all[i].name == name);
                }
            }
            if asked_for(rules, default_tools, all, name) {
                if exists|i: int| 0 <= i < default_tools.len() && #[trigger] default_tools[i] == name {
                    let i = choose|i: int|
                        0 <= i < default_tools.len() && #[trigger] default_tools[i] == name;
                    assert(list[i] == name);
                } else {
                    let i = choose|i: int|
                        0 <= i < all.len() && (#[trigger] all[i]).name == name && !(all[i].server is Some
                            && all[i].server->0@ == RAG_RAT@);
                    lists::kept_is_membership(far, all, stays, all[i]);
                    assert(all.contains(all[i]));
                    let k = choose|k: int| 0 <= k < far.len() && far[k] == all[i];
                    assert(own[k] == name);
                    assert(list[default_tools.len() + k] == name);
                }
            }
        },
    }
}

/// What a node is granted: of the tools on offer, in their order, exactly those it asks for by name,
/// whose name its ruleset does not deny, and whose name its bound covers; and then the tool that
/// loads a skill, exactly where it binds a skill and may do anything at all. A denied name is always
/// removed, and one that is asked for, covered and not denied is always there.
pub proof fn a_node_is_granted_what_it_asks_for_and_is_not_denied(
    rules: Option<RulesetConfig>,
    offered: Seq<ToolView>,
    default_tools: Seq<Seq<char>>,
    ceiling: Option<Capability>,
    bound: Seq<Skill>,
)
    ensures
        ({
            let all = offer(offered, default_tools, ceiling);
            let loader = if ceiling is Some && bound.len() > 0 {
                seq![ToolView { name: "Skill"@, server: None, capability: Capability::Read }]
            } else {
                Seq::empty()
            };
            let result = granted(rules, offered, default_tools, ceiling, bound);
            let n = result.len() - loader.len();
            &&& n >= 0
            &&& result == result.take(n) + loader
            &&& lists::kept(
                result.take(n),
                all,
                |tool: ToolView|
                    {
                        &&& asked_for(rules, default_tools, all, tool.name)
                        &&& !taken_away(rules, tool.name)
                        &&& covered(all, ceiling, tool.name)
                    },
            )
        }),
{
    let all = offer(offered, default_tools, ceiling);
    assert(with_files(offered, default_tools, ceiling) =~= all);
    let named = named_tools(rules, default_tools, all);
    let allow = within_ceiling(named, all, ceiling);
    let deny = denied_tools(rules);
    let left = tools::narrowed(all, allow, deny);
    let keep = |tool: ToolView| allow.contains(tool.name) && !deny.contains(tool.name);
    let stays = |tool: ToolView|
        {
            &&& asked_for(rules, default_tools, all, tool.name)
            &&& !taken_away(rules, tool.name)
            &&& covered(all, ceiling, tool.name)
        };
    assert forall|i: int| 0 <= i < all.len() implies keep(#[trigger] all[i]) == stays(all[i]) by {
        one_tool_is_granted(rules, default_tools, all, ceiling, i);
    }
    lists::a_filter_keeps(all, keep, stays);
    assert(left == all.filter(keep));
    skills::each_name_is_kept_once(bound);
    let result = granted(rules, offered, default_tools, ceiling, bound);
    assert(result.take(left.len() as int) =~= left);
    assert(result =~= left + result.skip(left.len() as int));
}

proof fn one_tool_is_granted(
    rules: Option<RulesetConfig>,
    default_tools: Seq<Seq<char>>,
    all: Seq<ToolView>,
    ceiling: Option<Capability>,
    i: int,
)
    requires
        0 <= i < all.len(),
    ensures
        (within_ceiling(named_tools(rules, default_tools, all), all, ceiling).contains(all[i].name)
            && !denied_tools(rules).contains(all[i].name)) <==> asked_for(
            rules,
            default_tools,
            all,
            all[i].name,
        ) && !taken_away(rules, all[i].name) && covered(all, ceiling, all[i].name),
{
    let name = all[i].name;
    let named = named_tools(rules, default_tools, all);
    named_tools_are_asked_for(rules, default_tools, all, name);
    what_fits_is_within(named, all, ceiling, name);
    what_is_denied_is_taken_away(rules, name);
    what_is_permitted_is_covered(all, ceiling, i);
}

proof fn what_fits_is_within(
    named: Seq<Seq<char>>,
    all: Seq<ToolView>,
    ceiling: Option<Capability>,
    name: Seq<char>,
)
    ensures
        within_ceiling(named, all, ceiling).contains(name) <==> named.contains(name) && permits(
            ceiling,
            tools::capability_of(all, name),
        ),
        beyond_ceiling(named, all, ceiling).contains(name) <==> named.contains(name) && !permits(
            ceiling,
            tools::capability_of(all, name),
        ),
{
    let fits = |name: Seq<char>| permits(ceiling, tools::capability_of(all, name));
    let unfit = |name: Seq<char>| !permits(ceiling, tools::capability_of(all, name));
    lists::a_filter_keeps(named, fits, fits);
    lists::kept_is_membership(within_ceiling(named, all, ceiling), named, fits, name);
    lists::a_filter_keeps(named, unfit, unfit);
    lists::kept_is_membership(beyond_ceiling(named, all, ceiling), named, unfit, name);
}

proof fn what_is_denied_is_taken_away(rules: Option<RulesetConfig>, name: Seq<char>)
    ensures
        denied_tools(rules).contains(name) <==> taken_away(rules, name),
{
    if rules is Some && rules->0.tools is Some {
        text::named_somewhere(rules->0.tools->0.deny@, name);
    }
}

proof fn what_is_permitted_is_covered(all: Seq<ToolView>, ceiling: Option<Capability>, i: int)
    requires
        0 <= i < all.len(),
    ensures
        permits(ceiling, tools::capability_of(all, all[i].name)) <==> covered(
            all,
            ceiling,
            all[i].name,
        ),
{
    let name = all[i].name;
    let at = first_of(all, name, i);
    tools::a_name_may_do_what_its_first_tool_may(all, name, at);
    if covered(all, ceiling, name) {
        let k = choose|k: int|
            {
                &&& 0 <= k < all.len()
                &&& (#[trigger] all[k]).name == name
                &&& forall|j: int| 0 <= j < k ==> (#[trigger] all[j]).name != name
                &&& ceiling is Some && all[k].capability.within(ceiling->0)
            };
        if k < at {
            assert(all[k].name != name);
        }
        if at < k {
            assert(all[at].name != name);
        }
    }
}

proof fn first_of(all: Seq<ToolView>, name: Seq<char>, i: int) -> (at: int)
    requires
        0 <= i < all.len(),
        all[i].name == name,
    ensures
        0 <= at <= i,
        all[at].name == name,
        forall|j: int| 0 <= j < at ==> (#[trigger] all[j]).name != name,
    decreases i,
{
    if forall|j: int| 0 <= j < i ==> (#[trigger] all[j]).name != name {
        i
    } else {
        let j = choose|j: int| 0 <= j < i && (#[trigger] all[j]).name == name;
        first_of(all, name, j)
    }
}

/// A ruleset's `deny` is always applied: no tool that was on offer is granted under a denied name.
pub proof fn a_denied_tool_is_never_granted(
    rules: RulesetConfig,
    offered: Seq<ToolView>,
    default_tools: Seq<Seq<char>>,
    ceiling: Option<Capability>,
    bound: Seq<Skill>,
    tool: ToolView,
    i: int,
)
    requires
        rules.tools is Some,
        0 <= i < rules.tools->0.deny@.len(),
        rules.tools->0.deny@[i]@ == tool.name,
        tool.name != "Skill"@,
    ensures
        !granted(Some(rules), offered, default_tools, ceiling, bound).contains(tool),
{
    let some = Some(rules);
    let all = offer(offered, default_tools, ceiling);
    a_node_is_granted_what_it_asks_for_and_is_not_denied(
        some,
        offered,
        default_tools,
        ceiling,
        bound,
    );
    let stays = |tool: ToolView|
        {
            &&& asked_for(some, default_tools, all, tool.name)
            &&& !taken_away(some, tool.name)
            &&& covered(all, ceiling, tool.name)
        };
    let result = granted(some, offered, default_tools, ceiling, bound);
    let loader = if ceiling is Some && bound.len() > 0 {
        seq![ToolView { name: "Skill"@, server: None, capability: Capability::Read }]
    } else {
        Seq::empty()
    };
    let n = result.len() - loader.len();
    assert(text::named(rules.tools->0.deny@, tool.name));
    assert(taken_away(some, tool.name));
    lists::kept_is_membership(result.take(n), all, stays, tool);
    if result.contains(tool) {
        let k = choose|k: int| 0 <= k < result.len() && result[k] == tool;
        if k < n {
            assert(result.take(n)[k] == tool);
        } else {
            assert(result[k] == loader[k - n]);
        }
    }
}

/// How many turns a node may take is what its ruleset says where it says anything, whatever its agent
/// says; else what its agent says.
pub proof fn a_ruleset_limits_turns_before_the_agent_does(
    rules: Option<RulesetConfig>,
    profile: Option<ProfileView>,
)
    ensures
        rules is Some && rules->0.max_turns is Some ==> turn_limit(rules, profile)
            == rules->0.max_turns,
        !(rules is Some && rules->0.max_turns is Some) && profile is Some ==> turn_limit(
            rules,
            profile,
        ) == profile->0.max_turns,
        !(rules is Some && rules->0.max_turns is Some) && profile is None ==> turn_limit(
            rules,
            profile,
        ) is None,
{
}

/// A call passes every policy there is: the ruleset's where it has one, the agent's where it has one,
/// and the ruleset's first where both have.
pub proof fn a_call_passes_every_policy_there_is(
    rules: Option<RulesetConfig>,
    profile: Option<ProfileView>,
)
    ensures
        ({
            let ruled = rules is Some && rules->0.has_on_tool_call;
            let owned = profile is Some && profile->0.tool_policy is Some;
            let policy = call_policy(rules, profile);
            &&& policy is None <==> !ruled && !owned
            &&& ruled && !owned ==> policy == Some(CallPolicy::Stage)
            &&& !ruled && owned ==> policy == Some(
                CallPolicy::Profile(profile->0.tool_policy->0),
            )
            &&& ruled && owned ==> policy == Some(
                CallPolicy::StageThenProfile(profile->0.tool_policy->0),
            )
        }),
{
}

/// Who decides where a node's turn goes: its ruleset's model, then its agent's own route, then the
/// configured route of its name; and it goes nowhere exactly when none of them speaks.
pub proof fn a_turn_goes_where_the_first_to_speak_says(
    engine: ScriptEngine,
    config: RatatoskrConfig,
    node: Seq<char>,
    profile: Option<ProfileView>,
)
    ensures
        ({
            let rules = engine.rules(node);
            let ruled = rules is Some && rules->0.model is Some;
            let owned = profile is Some && profile->0.model is Some;
            let result = turn_route(engine, config, node, profile);
            &&& ruled ==> result is Some && result->0.provider == rules->0.model->0.provider@
                && result->0.model == rules->0.model->0.model@ && result->0.max_tokens is None
                && result->0.context_window is None && result->0.temperature is None
                && result->0.params is None
            &&& !ruled && owned ==> result == Some(profile->0.model->0@)
            &&& !ruled && !owned ==> (result is Some <==> config.route_to(node) is Some)
            &&& !ruled && !owned && result is Some ==> result == Some(config.route_to(node)->0@)
        }),
{
}

/// What is noted of the tools a node named: those its bound does not cover; those it may use that
/// nothing offers and nothing denies; and, where its ruleset spells its tools out, those its plugins
/// bring that it left out.
pub proof fn what_a_node_named_in_vain_is_noted(
    notes: ToolNotes,
    rules: Option<RulesetConfig>,
    offered: Seq<ToolView>,
    default_tools: Seq<Seq<char>>,
    ceiling: Option<Capability>,
    name: Seq<char>,
)
    requires
        noted(notes, rules, offered, default_tools, ceiling),
    ensures
        ({
            let all = offer(offered, default_tools, ceiling);
            let asked = asked_for(rules, default_tools, all, name);
            let spelled = rules is Some && rules->0.tools is Some && rules->0.tools->0.allow is Some;
            let reach = permits(ceiling, tools::capability_of(all, name));
            let there = exists|i: int| 0 <= i < all.len() && (#[trigger] all[i]).name == name;
            &&& text::named(notes.excluded_by_ceiling@, name) <==> asked && !reach
            &&& text::named(notes.missing@, name) <==> asked && reach && !there && !taken_away(
                rules,
                name,
            )
            &&& notes.absent_by_configuration <==> !spelled && forall|i: int|
                0 <= i < all.len() ==> !((#[trigger] all[i]).server is Some && all[i].server->0@
                    == RAG_RAT@)
            &&& !spelled ==> notes.left_out@.len() == 0
        }),
{
    let all = offer(offered, default_tools, ceiling);
    assert(with_files(offered, default_tools, ceiling) =~= all);
    let named = named_tools(rules, default_tools, all);
    let allow = within_ceiling(named, all, ceiling);
    named_tools_are_asked_for(rules, default_tools, all, name);
    what_fits_is_within(named, all, ceiling, name);
    what_is_denied_is_taken_away(rules, name);
    let unseen = outside(allow, tools::names(all));
    outside_is_what_is_not_there(allow, tools::names(all), name);
    outside_is_what_is_not_there(unseen, denied_tools(rules), name);
    text::named_somewhere(notes.excluded_by_ceiling@, name);
    text::named_somewhere(notes.missing@, name);
    if exists|i: int| 0 <= i < all.len() && (#[trigger] all[i]).name == name {
        let i = choose|i: int| 0 <= i < all.len() && (#[trigger] all[i]).name == name;
        assert(tools::names(all)[i] == name);
    }
    if tools::names(all).contains(name) {
        let i = choose|i: int| 0 <= i < tools::names(all).len() && tools::names(all)[i] == name;
        assert(all[i].name == name);
    }
    assert(text::views(notes.left_out@).len() == notes.left_out@.len());
    assert forall|i: int| 0 <= i < all.len() implies (#[trigger] all[i]).from_server(RAG_RAT@) == (
    all[i].server is Some && all[i].server->0@ == RAG_RAT@) by {}
}

/// What is outside a list is exactly what is not in it, in order; and what is inside it, what is.
pub proof fn outside_is_what_is_not_there(
    list: Seq<Seq<char>>,
    of: Seq<Seq<char>>,
    name: Seq<char>,
)
    ensures
        lists::kept(
            outside(list, of),
            list,
            |name: Seq<char>| forall|j: int| 0 <= j < of.len() ==> #[trigger] of[j] != name,
        ),
        lists::kept(
            inside(list, of),
            list,
            |name: Seq<char>| exists|j: int| 0 <= j < of.len() && #[trigger] of[j] == name,
        ),
        outside(list, of).contains(name) <==> list.contains(name) && !of.contains(name),
        inside(list, of).contains(name) <==> list.contains(name) && of.contains(name),
{
    let out = |name: Seq<char>| !of.contains(name);
    let absent = |name: Seq<char>| forall|j: int| 0 <= j < of.len() ==> #[trigger] of[j] != name;
    let within = |name: Seq<char>| of.contains(name);
    let present = |name: Seq<char>| exists|j: int| 0 <= j < of.len() && #[trigger] of[j] == name;
    lists::a_filter_keeps(list, out, absent);
    lists::a_filter_keeps(list, within, present);
    lists::a_filter_keeps(list, out, out);
    lists::a_filter_keeps(list, within, within);
    lists::kept_is_membership(outside(list, of), list, out, name);
    lists::kept_is_membership(inside(list, of), list, within, name);
}

/// The settings a turn runs with are each resolved on their own account.
pub proof fn every_setting_is_resolved(
    cfg: NodeAgentConfig,
    engine: ScriptEngine,
    config: RatatoskrConfig,
    offered: Seq<ToolView>,
    node: Seq<char>,
    default_tools: Seq<Seq<char>>,
    bound: Seq<Skill>,
    ceiling: Option<Capability>,
    profile: Option<ProfileView>,
    files: Option<String>,
)
    requires
        configured(
            cfg,
            engine,
            config,
            offered,
            node,
            default_tools,
            bound,
            ceiling,
            profile,
            files,
        ),
    ensures
        Some(cfg.route@) == turn_route(engine, config, node, profile),
        cfg.tools@ == granted(engine.rules(node), offered, default_tools, ceiling, bound),
        cfg.capability_ceiling == ceiling,
        cfg.files == files,
        cfg.policy == call_policy(engine.rules(node), profile),
        cfg.max_turns == turn_limit(engine.rules(node), profile),
        engine.rules(node) is Some ==> cfg.system_prompt == engine.rules(node)->0.system_prompt,
        engine.rules(node) is None ==> cfg.system_prompt is None,
{
}

/// What a declared stage may do in a run is what it may do under its profile and the run grants it.
pub proof fn a_run_grants_no_more_than_it_says(
    stage: StageView,
    profile: ProfileView,
    grant: Capability,
    wanted: Capability,
)
    ensures
        stage::lets(run_ceiling(stage, profile, grant), wanted) <==> stage::lets(
            stage.effective_ceiling(profile),
            wanted,
        ) && wanted.within(grant),
{
}

/// The events a run has: these and no others.
pub proof fn a_run_has_these_events(event: Seq<char>)
    ensures
        node_event(event) <==> seq![
            "SubagentStart"@,
            "UserPromptSubmit"@,
            "PreToolUse"@,
            "PostToolUse"@,
            "Stop"@,
            "StopFailure"@,
            "SubagentStop"@,
        ].contains(event),
{
    let all = seq![
        "SubagentStart"@,
        "UserPromptSubmit"@,
        "PreToolUse"@,
        "PostToolUse"@,
        "Stop"@,
        "StopFailure"@,
        "SubagentStop"@,
    ];
    assert(all[0] == "SubagentStart"@ && all[1] == "UserPromptSubmit"@ && all[2] == "PreToolUse"@);
    assert(all[3] == "PostToolUse"@ && all[4] == "Stop"@ && all[5] == "StopFailure"@);
    assert(all[6] == "SubagentStop"@);
}

/// A plugin's hooks run for a node exactly when the node binds it and it registers, anywhere among its
/// hooks, an event a run has; those plugins in order, and no others.
pub proof fn every_bound_plugin_with_a_hook_observes(plugins: Seq<Plugin>, bound: Seq<Seq<char>>)
    ensures
        lists::gathered(
            observers(plugins, bound),
            plugins,
            |plugin: Plugin|
                {
                    &&& exists|j: int| 0 <= j < bound.len() && #[trigger] bound[j] == plugin.name@
                    &&& exists|i: int|
                        0 <= i < plugin.hooks@.len() && node_event((#[trigger] plugin.hooks@[i])@)
                },
            |plugin: Plugin| plugin.name@,
        ),
{
    let gives = |plugin: Plugin|
        {
            &&& exists|j: int| 0 <= j < bound.len() && #[trigger] bound[j] == plugin.name@
            &&& exists|i: int|
                0 <= i < plugin.hooks@.len() && node_event((#[trigger] plugin.hooks@[i])@)
        };
    let what = |plugin: Plugin| plugin.name@;
    observers_are_gathered(plugins, bound, gives, what);
    lists::going_through_gathers(plugins, gives, what);
}

proof fn observers_are_gathered(
    plugins: Seq<Plugin>,
    bound: Seq<Seq<char>>,
    gives: spec_fn(Plugin) -> bool,
    what: spec_fn(Plugin) -> Seq<char>,
)
    requires
        forall|plugin: Plugin| #[trigger]
            gives(plugin) == (bound.contains(plugin.name@) && hooked(plugin)),
        forall|plugin: Plugin| #[trigger] what(plugin) == plugin.name@,
    ensures
        observers(plugins, bound) == lists::gather(plugins, gives, what),
    decreases plugins.len(),
{
    if plugins.len() > 0 {
        observers_are_gathered(plugins.drop_last(), bound, gives, what);
        assert(gives(plugins.last()) == (bound.contains(plugins.last().name@) && hooked(
            plugins.last(),
        )));
        assert(what(plugins.last()) == plugins.last().name@);
    }
}

/// A repository denies a skill exactly when one of its entries, wherever it stands, is the skill's
/// name but for case and the space around it.
pub proof fn any_entry_denies(deny: Seq<String>, skill: Seq<char>)
    ensures
        denies(deny, skill) <==> exists|i: int|
            0 <= i < deny.len() && text::lowered(text::trimmed((#[trigger] deny[i])@))
                == text::lowered(text::trimmed(skill)),
{
}

/// The skills a node is given are those of the plugins it binds, plugin by plugin: of each bound one,
/// all its skills that are not denied, in order; of one that is not bound, none.
pub proof fn a_node_gets_the_skills_of_what_it_binds(
    a: Seq<Plugin>,
    b: Seq<Plugin>,
    plugin: Plugin,
    bound: Seq<Seq<char>>,
    deny: Seq<String>,
)
    ensures
        bound_skills(a + b, bound, deny) == bound_skills(a, bound, deny) + bound_skills(
            b,
            bound,
            deny,
        ),
        bound.contains(plugin.name@) ==> lists::kept(
            bound_skills(seq![plugin], bound, deny),
            plugin.skills@,
            |skill: Skill| !denies(deny, skill.name@),
        ),
        !bound.contains(plugin.name@) ==> bound_skills(seq![plugin], bound, deny).len() == 0,
    decreases b.len(),
{
    let one = seq![plugin];
    let keep = |skill: Skill| !denies(deny, skill.name@);
    assert(one.drop_last() =~= Seq::empty());
    assert(bound_skills(one.drop_last(), bound, deny) =~= Seq::empty());
    assert(bound.contains(plugin.name@) ==> bound_skills(one, bound, deny) =~= plugin.skills@.filter(
        keep,
    ));
    lists::a_filter_keeps(plugin.skills@, keep, keep);
    if b.len() == 0 {
        assert(a + b =~= a);
        assert(bound_skills(a, bound, deny) + bound_skills(b, bound, deny) =~= bound_skills(
            a,
            bound,
            deny,
        ));
    } else {
        assert((a + b).drop_last() =~= a + b.drop_last());
        assert((a + b).last() == b.last());
        a_node_gets_the_skills_of_what_it_binds(a, b.drop_last(), plugin, bound, deny);
        assert(bound_skills(a + b, bound, deny) =~= bound_skills(a, bound, deny) + bound_skills(
            b,
            bound,
            deny,
        ));
    }
}

/// Every server the plugins declare, plugin by plugin, with the plugin that declares it.
pub open spec fn declared_servers(plugins: Seq<Plugin>) -> Seq<(Seq<char>, McpServerSpec)>
    decreases plugins.len(),
{
    if plugins.len() == 0 {
        Seq::empty()
    } else {
        declared_servers(plugins.drop_last()) + Seq::new(
            plugins.last().mcp_servers@.len(),
            |i: int| (plugins.last().name@, plugins.last().mcp_servers@[i]),
        )
    }
}

/// The servers that are started are, in order, the first declared of each name that is not the
/// index's; every other declaration is left out.
pub proof fn the_first_server_of_each_name_is_started(plugins: Seq<Plugin>)
    ensures
        lists::firsts(
            starting_all(plugins),
            declared_servers(plugins),
            |server: (Seq<char>, McpServerSpec)| server.1.name@,
            |name: Seq<char>| name == RAG_RAT@,
        ),
{
    let name = |server: (Seq<char>, McpServerSpec)| server.1.name@;
    let held = |name: Seq<char>| name == RAG_RAT@;
    starting_is_deduped(plugins, name, held);
    lists::deduping_keeps_the_first(declared_servers(plugins), name, held);
}

proof fn starting_is_deduped(
    plugins: Seq<Plugin>,
    name: spec_fn((Seq<char>, McpServerSpec)) -> Seq<char>,
    held: spec_fn(Seq<char>) -> bool,
)
    requires
        forall|server: (Seq<char>, McpServerSpec)| #[trigger] name(server) == server.1.name@,
        forall|n: Seq<char>| #[trigger] held(n) <==> n == RAG_RAT@,
    ensures
        starting_all(plugins) == lists::dedupe(declared_servers(plugins), name, held),
    decreases plugins.len(),
{
    if plugins.len() > 0 {
        let front = plugins.drop_last();
        let last = plugins.last();
        starting_is_deduped(front, name, held);
        let specs = last.mcp_servers@;
        starting_more_is_deduped(declared_servers(front), last.name@, specs, name, held);
        let here = Seq::new(specs.len(), |i: int| (last.name@, specs[i]));
        assert(declared_servers(plugins) == declared_servers(front) + here);
    }
}

proof fn starting_more_is_deduped(
    base: Seq<(Seq<char>, McpServerSpec)>,
    plugin: Seq<char>,
    specs: Seq<McpServerSpec>,
    name: spec_fn((Seq<char>, McpServerSpec)) -> Seq<char>,
    held: spec_fn(Seq<char>) -> bool,
)
    requires
        forall|server: (Seq<char>, McpServerSpec)| #[trigger] name(server) == server.1.name@,
        forall|n: Seq<char>| #[trigger] held(n) <==> n == RAG_RAT@,
    ensures
        starting(lists::dedupe(base, name, held), plugin, specs) == lists::dedupe(
            base + Seq::new(specs.len(), |i: int| (plugin, specs[i])),
            name,
            held,
        ),
    decreases specs.len(),
{
    let here = Seq::new(specs.len(), |i: int| (plugin, specs[i]));
    if specs.len() == 0 {
        assert(base + here =~= base);
    } else {
        let front = specs.drop_last();
        let before = base + Seq::new(front.len(), |i: int| (plugin, front[i]));
        let all = base + here;
        let n = before.len() as int;
        let wanted = specs.last().name@;
        starting_more_is_deduped(base, plugin, front, name, held);
        assert(all.drop_last() =~= before);
        assert(all[n] == (plugin, specs.last()));
        let started = lists::dedupe(before, name, held);
        lists::deduping_loses_no_name(before, name, held, wanted);
        assert(name(all[n]) == wanted);
        if claimed(started, wanted) {
            if wanted != RAG_RAT@ {
                let k = choose|k: int| 0 <= k < started.len() && (#[trigger] started[k]).1.name@
                    == wanted;
                assert(name(started[k]) == wanted);
                let i = choose|i: int| 0 <= i < before.len() && name(#[trigger] before[i]) == wanted;
                assert(name(all[i]) == wanted);
            }
            assert(!lists::fresh(all, name, held)(n));
        } else {
            assert forall|i: int| 0 <= i < n implies name(#[trigger] all[i]) != name(all[n]) by {
                if name(all[i]) == name(all[n]) {
                    assert(name(before[i]) == wanted);
                    let k = choose|k: int| 0 <= k < started.len() && name(#[trigger] started[k])
                        == wanted;
                    assert(started[k].1.name@ == wanted);
                }
            }
            assert(lists::fresh(all, name, held)(n));
        }
    }
}

/// A node's pool is its index's tools and then those of each bound server, in order: a server that is
/// not bound brings nothing, and of a bound one the first of each new name is added.
pub proof fn a_pool_is_the_index_and_then_the_bound_servers(
    servers: Seq<PluginServer>,
    more: PluginServer,
    bound: Seq<Seq<char>>,
    rag_rat: Option<ServerTools>,
)
    ensures
        pool(Seq::empty(), bound, rag_rat) == (if rag_rat is Some {
            tools::merged(Seq::empty(), text::views(rag_rat->0.tools@))
        } else {
            Seq::empty()
        }),
        pool(servers.push(more), bound, rag_rat) == (if exists|j: int|
            0 <= j < bound.len() && #[trigger] bound[j] == more.plugin@ {
            tools::merged(pool(servers, bound, rag_rat), text::views(more.offer.tools@))
        } else {
            pool(servers, bound, rag_rat)
        }),
{
    assert(servers.push(more).drop_last() =~= servers);
}

/// What the stage that runs for a node may do: what both it and its agent allow, and reading where
/// either of them is not known.
pub proof fn a_node_may_do_what_its_stage_and_agent_allow(
    config: RatatoskrConfig,
    stages: Seq<StageView>,
    node: Seq<char>,
)
    ensures
        ({
            let stage = stage::stage_for(stages, node);
            let profile = stage::profile_of(config.agents@, stages, node);
            &&& stage is Some && profile is Some ==> node_ceiling(config, stages, node)
                == stage->0.effective_ceiling(profile->0)
            &&& !(stage is Some && profile is Some) ==> node_ceiling(config, stages, node) == Some(
                Capability::Read,
            )
        }),
{
}

/// Which plugins there are is told by every name there is, in order, and where there are none it is
/// said that there are none.
pub proof fn every_plugin_there_is_is_told(lead: Seq<Plugin>, plugin: Plugin)
    ensures
        known(Seq::empty()) == "none"@,
        known(seq![plugin]) == plugin.name@,
        lead.len() > 0 ==> known(lead.push(plugin)) == known(lead) + ", "@ + plugin.name@,
{
    assert(plugin_names(seq![plugin]) =~= seq![plugin.name@]);
    text::joined_of_one(plugin.name@, ", "@);
    if lead.len() > 0 {
        assert(plugin_names(lead.push(plugin)) =~= plugin_names(lead).push(plugin.name@));
        assert(plugin_names(lead.push(plugin)).drop_last() =~= plugin_names(lead));
    }
}

} // verus!
