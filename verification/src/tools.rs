//! The tools a node may be offered, and the narrowing of them to what it may call.

use vstd::prelude::*;

use crate::config::Capability;
use crate::lists;
use crate::text;

verus! {

broadcast use vstd::string::group_string_axioms;

/// The server every repository's index is served by.
pub const RAG_RAT: &'static str = "rag-rat";

/// One argument of a call of a tool.
#[derive(Clone, Debug)]
pub enum Argument {
    Text(String),
    Number(u32),
    List(Vec<String>),
    /// An object with this one field.
    Field(&'static str, String),
}

/// What an [`Argument`] says.
pub enum ArgumentView {
    Text(Seq<char>),
    Number(int),
    List(Seq<Seq<char>>),
    Field(Seq<char>, Seq<char>),
}

impl View for Argument {
    type V = ArgumentView;

    open spec fn view(&self) -> ArgumentView {
        match self {
            Argument::Text(text) => ArgumentView::Text(text@),
            Argument::Number(n) => ArgumentView::Number(*n as int),
            Argument::List(list) => ArgumentView::List(text::views(list@)),
            Argument::Field(name, value) => ArgumentView::Field(name@, value@),
        }
    }
}

/// A call to make of a tool: which tool, and its arguments by name.
#[derive(Clone, Debug)]
pub struct ToolRequest {
    pub tool: &'static str,
    pub arguments: Vec<(&'static str, Argument)>,
}

/// One tool on offer.
#[derive(Debug)]
pub struct Tool {
    pub name: String,
    /// The server that offers it; `None` for one the run answers itself.
    pub server: Option<String>,
    /// What calling it may do.
    pub capability: Capability,
}

/// What a [`Tool`] says.
pub struct ToolView {
    pub name: Seq<char>,
    pub server: Option<String>,
    pub capability: Capability,
}

impl View for Tool {
    type V = ToolView;

    open spec fn view(&self) -> ToolView {
        ToolView { name: self.name@, server: self.server, capability: self.capability }
    }
}

impl Tool {
    /// A tool the run answers itself.
    pub fn local(name: &str, capability: Capability) -> (r: Tool)
        ensures
            r@ == ToolView::local(name@, capability),
    {
        Tool { name: name.to_owned(), server: None, capability }
    }

    /// A copy.
    pub fn copy(&self) -> (r: Tool)
        ensures
            r@ == self@,
            r == *self,
    {
        Tool {
            name: self.name.clone(),
            server: text::copy_opt(&self.server),
            capability: self.capability,
        }
    }
}

impl ToolView {
    /// A tool the run answers itself.
    pub open spec fn local(name: Seq<char>, capability: Capability) -> ToolView {
        ToolView { name, server: None, capability }
    }

    /// Whether a server of this name offers it.
    pub open spec fn from_server(self, server: Seq<char>) -> bool {
        self.server matches Some(named) && named@ == server
    }
}

/// The tools one server offers.
#[derive(Debug)]
pub struct ServerTools {
    pub tools: Vec<Tool>,
}

/// The tools a node is offered, in order.
#[derive(Debug)]
pub struct ToolSet {
    pub tools: Vec<Tool>,
}

impl View for ToolSet {
    type V = Seq<ToolView>;

    open spec fn view(&self) -> Seq<ToolView> {
        text::views(self.tools@)
    }
}

/// The names of a list of tools.
pub open spec fn names(tools: Seq<ToolView>) -> Seq<Seq<char>> {
    Seq::new(tools.len(), |i: int| tools[i].name)
}

/// The tools of a list that no server of this name offers.
pub open spec fn beyond(tools: Seq<ToolView>, server: Seq<char>) -> Seq<ToolView> {
    tools.filter(|tool: ToolView| !tool.from_server(server))
}

/// Where a tool of this name stands, the end of the list when it is not there.
pub open spec fn tool_index(tools: Seq<ToolView>, name: Seq<char>) -> int
    decreases tools.len(),
{
    if tools.len() == 0 || tools[0].name == name {
        0
    } else {
        1 + tool_index(tools.drop_first(), name)
    }
}

/// What calling a tool may do. Of a tool that is not on offer nothing is known, so it counts as able
/// to do the most.
pub open spec fn capability_of(tools: Seq<ToolView>, name: Seq<char>) -> Capability {
    let i = tool_index(tools, name);
    if 0 <= i < tools.len() {
        tools[i].capability
    } else {
        Capability::Publish
    }
}

/// The tools named in `allow` and not in `deny`.
pub open spec fn narrowed(
    tools: Seq<ToolView>,
    allow: Seq<Seq<char>>,
    deny: Seq<Seq<char>>,
) -> Seq<ToolView> {
    tools.filter(|tool: ToolView| allow.contains(tool.name) && !deny.contains(tool.name))
}

/// One more server's tools, less the ones whose names are already taken.
pub open spec fn with_tool(tools: Seq<ToolView>, tool: ToolView) -> Seq<ToolView> {
    if names(tools).contains(tool.name) {
        tools
    } else {
        tools.push(tool)
    }
}

/// The tools of several in order, the first of each name.
pub open spec fn merged(tools: Seq<ToolView>, more: Seq<ToolView>) -> Seq<ToolView>
    decreases more.len(),
{
    if more.len() == 0 {
        tools
    } else {
        with_tool(merged(tools, more.drop_last()), more.last())
    }
}

impl ToolSet {
    /// No tools.
    pub fn new() -> (r: ToolSet)
        ensures
            r@ == Seq::<ToolView>::empty(),
    {
        let r = ToolSet { tools: Vec::new() };
        assert(r@ =~= Seq::empty());
        r
    }

    /// Offers the tools of one more server, less the ones whose names are already taken.
    pub fn merge(&mut self, server: &ServerTools)
        ensures
            final(self)@ == merged(old(self)@, text::views(server.tools@)),
    {
        let offered = &server.tools;
        let ghost base = self@;
        let ghost more = text::views(offered@);
        let mut j: usize = 0;
        assert(more.take(0) =~= Seq::empty());
        while j < offered.len()
            invariant
                j <= offered@.len(),
                more == text::views(offered@),
                self@ == merged(base, more.take(j as int)),
            decreases offered@.len() - j,
        {
            let ghost had = self@;
            if !self.offers(offered[j].name.as_str()) {
                let tool = offered[j].copy();
                let ghost seen = tool@;
                self.tools.push(tool);
                assert(self@ =~= had.push(seen));
            }
            assert(more.take(j + 1).drop_last() =~= more.take(j as int));
            j += 1;
        }
        assert(more.take(j as int) =~= more);
    }

    /// The names on offer, in order.
    pub fn names(&self) -> (r: Vec<String>)
        ensures
            text::views(r@) == names(self@),
    {
        let mut out: Vec<String> = Vec::new();
        let mut i: usize = 0;
        while i < self.tools.len()
            invariant
                i <= self.tools@.len(),
                out@.len() == i,
                forall|j: int| 0 <= j < i ==> (#[trigger] out@[j])@ == self.tools@[j].name@,
            decreases self.tools@.len() - i,
        {
            out.push(self.tools[i].name.clone());
            i += 1;
        }
        assert(text::views(out@) =~= names(self@));
        out
    }

    /// Whether no tool is on offer.
    pub fn is_empty(&self) -> (r: bool)
        ensures
            r == (self@.len() == 0),
    {
        self.tools.len() == 0
    }

    /// Whether a tool of this name is on offer.
    pub fn offers(&self, name: &str) -> (r: bool)
        ensures
            r == names(self@).contains(name@),
    {
        let mut i: usize = 0;
        while i < self.tools.len()
            invariant
                i <= self.tools@.len(),
                forall|j: int| 0 <= j < i ==> (#[trigger] self.tools@[j]).name@ != name@,
            decreases self.tools@.len() - i,
        {
            if text::same(self.tools[i].name.as_str(), name) {
                assert(names(self@)[i as int] == name@);
                return true;
            }
            i += 1;
        }
        assert(!names(self@).contains(name@));
        false
    }

    /// The names of the tools that no server of this name offers, in order.
    pub fn names_beyond(&self, server: &str) -> (r: Vec<String>)
        ensures
            text::views(r@) == names(beyond(self@, server@)),
    {
        let mut out: Vec<String> = Vec::new();
        let ghost all = self@;
        let ghost keep = |tool: ToolView| !tool.from_server(server@);
        let mut i: usize = 0;
        proof {
            assert(all.take(0).filter(keep) =~= Seq::empty()) by {
                reveal(Seq::filter);
            }
            assert(text::views(out@) =~= names(all.take(0).filter(keep)));
        }
        while i < self.tools.len()
            invariant
                i <= self.tools@.len(),
                all == self@,
                keep == (|tool: ToolView| !tool.from_server(server@)),
                text::views(out@) == names(all.take(i as int).filter(keep)),
            decreases self.tools@.len() - i,
        {
            let ghost had = text::views(out@);
            let ghost kept = all.take(i as int).filter(keep);
            let offered_there = match &self.tools[i].server {
                Some(named) => text::same(named.as_str(), server),
                None => false,
            };
            if !offered_there {
                out.push(self.tools[i].name.clone());
                assert(text::views(out@) =~= had.push(all[i as int].name));
                assert(names(kept.push(all[i as int])) =~= had.push(all[i as int].name));
            }
            i += 1;
            proof {
                reveal(Seq::filter);
                assert(all.take(i as int).drop_last() =~= all.take(i - 1));
                assert(all.take(i as int).last() == all[i - 1]);
            }
        }
        assert(all.take(i as int) =~= all);
        out
    }

    /// Whether a server of this name offers any of the tools.
    pub fn has_server(&self, server: &str) -> (r: bool)
        ensures
            r == (exists|i: int| 0 <= i < self@.len() && (#[trigger] self@[i]).from_server(server@)),
    {
        let mut i: usize = 0;
        while i < self.tools.len()
            invariant
                i <= self.tools@.len(),
                forall|j: int| 0 <= j < i ==> !(#[trigger] self@[j]).from_server(server@),
            decreases self.tools@.len() - i,
        {
            assert(self@[i as int] == self.tools@[i as int]@);
            if let Some(named) = &self.tools[i].server {
                if text::same(named.as_str(), server) {
                    assert(self@[i as int].from_server(server@));
                    return true;
                }
            }
            i += 1;
        }
        false
    }

    /// What calling a tool may do; the most, of a tool that is not on offer.
    pub fn capability(&self, name: &str) -> (r: Capability)
        ensures
            r == capability_of(self@, name@),
    {
        let ghost all = self@;
        let mut i: usize = 0;
        assert(all.skip(0) =~= all);
        while i < self.tools.len()
            invariant
                i <= self.tools@.len(),
                all == self@,
                tool_index(all, name@) == i + tool_index(all.skip(i as int), name@),
            decreases self.tools@.len() - i,
        {
            assert(all.skip(i as int)[0] == self.tools@[i as int]@);
            if text::same(self.tools[i].name.as_str(), name) {
                return self.tools[i].capability;
            }
            assert(all.skip(i as int).drop_first() =~= all.skip(i + 1));
            i += 1;
        }
        Capability::Publish
    }

    /// Offers one more tool, last, that the run answers itself.
    pub fn add_local(&mut self, name: &str, capability: Capability)
        ensures
            final(self)@ == old(self)@.push(ToolView::local(name@, capability)),
    {
        let ghost had = self@;
        let tool = Tool::local(name, capability);
        let ghost seen = tool@;
        self.tools.push(tool);
        assert(self@ =~= had.push(seen));
    }

    /// Keeps the tools named in `allow` and not in `deny`.
    pub fn narrow(self, allow: &[String], deny: &[String]) -> (r: ToolSet)
        ensures
            r@ == narrowed(self@, text::views(allow@), text::views(deny@)),
    {
        let ghost all = self@;
        let ghost named = text::views(allow@);
        let ghost denied = text::views(deny@);
        let ghost keep = |tool: ToolView| named.contains(tool.name) && !denied.contains(tool.name);
        let mut out = ToolSet::new();
        assert(all.take(0).filter(keep) =~= Seq::empty()) by {
            reveal(Seq::filter);
        }
        let mut i: usize = 0;
        while i < self.tools.len()
            invariant
                i <= self.tools@.len(),
                all == self@,
                named == text::views(allow@),
                denied == text::views(deny@),
                keep == (|tool: ToolView|
                    named.contains(tool.name) && !denied.contains(tool.name)),
                out@ == all.take(i as int).filter(keep),
            decreases self.tools@.len() - i,
        {
            let tool = &self.tools[i];
            let ghost had = out@;
            assert(all[i as int] == tool@);
            if text::contains(allow, tool.name.as_str()) && !text::contains(
                deny,
                tool.name.as_str(),
            ) {
                let kept = tool.copy();
                let ghost seen = kept@;
                out.tools.push(kept);
                assert(out@ =~= had.push(seen));
            }
            i += 1;
            proof {
                reveal(Seq::filter);
                assert(all.take(i as int).drop_last() =~= all.take(i - 1));
                assert(all.take(i as int).last() == all[i - 1]);
            }
        }
        assert(all.take(i as int) =~= all);
        out
    }
}

/// Narrowing never adds a tool: what is left was on offer, was allowed, and was not denied.
pub proof fn narrowing_only_takes_away(
    tools: Seq<ToolView>,
    allow: Seq<Seq<char>>,
    deny: Seq<Seq<char>>,
    tool: ToolView,
)
    ensures
        narrowed(tools, allow, deny).contains(tool) <==> tools.contains(tool) && allow.contains(
            tool.name,
        ) && !deny.contains(tool.name),
{
    let keep = |t: ToolView| allow.contains(t.name) && !deny.contains(t.name);
    assert(narrowed(tools, allow, deny) == tools.filter(keep));
    tools.filter_lemma(keep);
    if tools.filter(keep).contains(tool) {
        tools.lemma_filter_contains_rev(keep, tool);
        let k = choose|k: int| 0 <= k < tools.filter(keep).len() && tools.filter(keep)[k] == tool;
        assert(keep(tools.filter(keep)[k]));
    }
    if tools.contains(tool) && keep(tool) {
        let k = choose|k: int| 0 <= k < tools.len() && tools[k] == tool;
        assert(tools.filter(keep).contains(tools[k]));
    }
}

/// The first server to offer a name keeps it: adding tools never changes the ones already there, and
/// no name is offered twice.
pub proof fn the_first_offer_of_a_name_wins(tools: Seq<ToolView>, more: Seq<ToolView>)
    requires
        crate::names::distinct(names(tools)),
    ensures
        tools.is_prefix_of(merged(tools, more)),
        crate::names::distinct(names(merged(tools, more))),
    decreases more.len(),
{
    if more.len() == 0 {
        assert(tools =~= merged(tools, more).subrange(0, tools.len() as int));
    } else {
        let front = merged(tools, more.drop_last());
        let all = merged(tools, more);
        let tool = more.last();
        the_first_offer_of_a_name_wins(tools, more.drop_last());
        assert(tools =~= all.subrange(0, tools.len() as int));
        assert forall|a: int, b: int| 0 <= a < b < names(all).len() implies #[trigger] names(all)[a]
            != #[trigger] names(all)[b] by {
            if b < front.len() {
                assert(names(front)[a] != names(front)[b]);
            } else {
                assert(names(front)[a] != tool.name);
            }
        }
    }
}

/// Narrowing keeps exactly the tools that are allowed by name and not denied by name, in their order.
pub proof fn narrowing_keeps_what_is_allowed_and_not_denied(
    tools: Seq<ToolView>,
    allow: Seq<Seq<char>>,
    deny: Seq<Seq<char>>,
)
    ensures
        lists::kept(
            narrowed(tools, allow, deny),
            tools,
            |tool: ToolView|
                {
                    &&& exists|i: int| 0 <= i < allow.len() && #[trigger] allow[i] == tool.name
                    &&& forall|i: int| 0 <= i < deny.len() ==> #[trigger] deny[i] != tool.name
                },
        ),
{
    let keep = |tool: ToolView| allow.contains(tool.name) && !deny.contains(tool.name);
    let stays = |tool: ToolView|
        {
            &&& exists|i: int| 0 <= i < allow.len() && #[trigger] allow[i] == tool.name
            &&& forall|i: int| 0 <= i < deny.len() ==> #[trigger] deny[i] != tool.name
        };
    lists::a_filter_keeps(tools, keep, stays);
}

/// The tools beyond a server are all those that do not come from it, in their order.
pub proof fn what_is_beyond_a_server(tools: Seq<ToolView>, server: Seq<char>)
    ensures
        lists::kept(
            beyond(tools, server),
            tools,
            |tool: ToolView| tool.server is None || tool.server->0@ != server,
        ),
{
    let keep = |tool: ToolView| !tool.from_server(server);
    let stays = |tool: ToolView| tool.server is None || tool.server->0@ != server;
    lists::a_filter_keeps(tools, keep, stays);
}

/// What calling a name may do is what the first tool of that name may do; of a name nothing offers,
/// it is publishing.
pub proof fn a_name_may_do_what_its_first_tool_may(tools: Seq<ToolView>, name: Seq<char>, i: int)
    requires
        0 <= i <= tools.len(),
        i < tools.len() ==> tools[i].name == name,
        forall|j: int| 0 <= j < i ==> (#[trigger] tools[j]).name != name,
    ensures
        i < tools.len() ==> capability_of(tools, name) == tools[i].capability,
        i == tools.len() ==> capability_of(tools, name) == Capability::Publish,
{
    tool_index_is_first(tools, name);
    let at = tool_index(tools, name);
    if at < i {
        assert(tools[at].name != name);
    }
    if i < at {
        assert(tools[i].name != name);
    }
}

proof fn tool_index_is_first(tools: Seq<ToolView>, name: Seq<char>)
    ensures
        0 <= tool_index(tools, name) <= tools.len(),
        tool_index(tools, name) < tools.len() ==> tools[tool_index(tools, name)].name == name,
        forall|j: int| 0 <= j < tool_index(tools, name) ==> (#[trigger] tools[j]).name != name,
    decreases tools.len(),
{
    if tools.len() > 0 && tools[0].name != name {
        let rest = tools.drop_first();
        tool_index_is_first(rest, name);
        assert forall|j: int| 0 <= j < tool_index(tools, name) implies (#[trigger] tools[j]).name
            != name by {
            if j > 0 {
                assert(tools[j] == rest[j - 1]);
            }
        }
    }
}

/// Merging adds, after the tools there were and in order, each tool that is the first of a name none
/// of them has; and adds no other.
pub proof fn merging_adds_the_first_of_each_new_name(tools: Seq<ToolView>, more: Seq<ToolView>)
    ensures
        tools.is_prefix_of(merged(tools, more)),
        lists::firsts(
            merged(tools, more).skip(tools.len() as int),
            more,
            |tool: ToolView| tool.name,
            |name: Seq<char>|
                exists|i: int| 0 <= i < tools.len() && (#[trigger] tools[i]).name == name,
        ),
{
    let name = |tool: ToolView| tool.name;
    let held = |name: Seq<char>|
        exists|i: int| 0 <= i < tools.len() && (#[trigger] tools[i]).name == name;
    merged_is_deduped(tools, more, name, held);
    lists::deduping_keeps_the_first(more, name, held);
    let added = lists::dedupe(more, name, held);
    assert(merged(tools, more).skip(tools.len() as int) =~= added);
    assert(merged(tools, more).take(tools.len() as int) =~= tools);
}

proof fn merged_is_deduped(
    tools: Seq<ToolView>,
    more: Seq<ToolView>,
    name: spec_fn(ToolView) -> Seq<char>,
    held: spec_fn(Seq<char>) -> bool,
)
    requires
        forall|tool: ToolView| #[trigger] name(tool) == tool.name,
        forall|n: Seq<char>| #[trigger]
            held(n) <==> exists|i: int| 0 <= i < tools.len() && (#[trigger] tools[i]).name == n,
    ensures
        merged(tools, more) == tools + lists::dedupe(more, name, held),
    decreases more.len(),
{
    if more.len() == 0 {
        assert(tools + lists::dedupe(more, name, held) =~= tools);
    } else {
        let front = more.drop_last();
        let n = front.len() as int;
        let tool = more.last();
        let so_far = merged(tools, front);
        let added = lists::dedupe(front, name, held);
        merged_is_deduped(tools, front, name, held);
        lists::deduping_loses_no_name(front, name, held, tool.name);
        assert(more[n] == tool);
        if names(so_far).contains(tool.name) {
            let k = choose|k: int| 0 <= k < names(so_far).len() && names(so_far)[k] == tool.name;
            if k < tools.len() {
                assert(tools[k].name == tool.name);
                assert(held(tool.name));
            } else {
                assert(name(added[k - tools.len()]) == tool.name);
                let i = choose|i: int| 0 <= i < front.len() && name(#[trigger] front[i])
                    == tool.name;
                assert(name(more[i]) == name(more[n]));
            }
        } else {
            assert(!held(tool.name)) by {
                if held(tool.name) {
                    let i = choose|i: int|
                        0 <= i < tools.len() && (#[trigger] tools[i]).name == tool.name;
                    assert(names(so_far)[i] == tool.name);
                }
            }
            assert forall|i: int| 0 <= i < n implies name(#[trigger] more[i]) != name(more[n]) by {
                if name(more[i]) == name(more[n]) {
                    assert(name(front[i]) == tool.name);
                    let k = choose|k: int| 0 <= k < added.len() && name(#[trigger] added[k])
                        == tool.name;
                    assert(names(so_far)[tools.len() + k] == tool.name);
                }
            }
        }
        assert(merged(tools, more) =~= tools + lists::dedupe(more, name, held));
    }
}

/// A tool is a server's exactly where it names that server, and one of the run's own is no server's.
pub proof fn a_tool_is_of_the_server_it_names(tool: ToolView, server: Seq<char>)
    ensures
        tool.from_server(server) <==> tool.server is Some && tool.server->0@ == server,
        !ToolView::local(tool.name, tool.capability).from_server(server),
        ToolView::local(tool.name, tool.capability).name == tool.name,
        ToolView::local(tool.name, tool.capability).capability == tool.capability,
{
}

} // verus!
