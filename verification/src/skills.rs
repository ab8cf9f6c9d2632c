//! The synthetic `Skill` tool: how a node is offered the skills its plugins ship.
//!
//! The two halves of progressive disclosure are split by where each lives. Every bound skill's *name
//! and description* is listed in the node's preamble, prose in the cached prefix rather than a
//! schema that grows with the number of skills; the *body* of the one it picks arrives as this
//! tool's result, and only then. A node that binds no skill gets no tool at all.

use vstd::prelude::*;
use vstd::string::StringExecFns;

use crate::lists;
use crate::text;

verus! {

broadcast use vstd::string::group_string_axioms;

/// A skill as a plugin ships it.
#[derive(Clone, Debug)]
pub struct Skill {
    pub name: String,
    pub description: String,
    pub body: String,
    /// Where the skill's files are.
    pub dir: String,
}

impl Skill {
    /// A copy.
    pub fn copy(&self) -> (r: Skill)
        ensures
            r == *self,
    {
        Skill {
            name: self.name.clone(),
            description: self.description.clone(),
            body: self.body.clone(),
            dir: self.dir.clone(),
        }
    }
}

/// A skill ready to be answered with: its name and its instructions.
#[derive(Clone, Debug)]
pub struct LoadedSkill {
    pub name: String,
    pub body: String,
}

/// What a [`LoadedSkill`] says.
pub struct LoadedView {
    pub name: Seq<char>,
    pub body: Seq<char>,
}

impl View for LoadedSkill {
    type V = LoadedView;

    open spec fn view(&self) -> LoadedView {
        LoadedView { name: self.name@, body: self.body@ }
    }
}

/// A tool as it is declared to a model.
#[derive(Clone, Debug)]
pub struct ToolDeclaration {
    pub name: &'static str,
    pub description: &'static str,
    /// The schema of the tool's arguments, as JSON text.
    pub input_schema: &'static str,
}

/// What the tool that loads a skill is called.
pub const SKILL_TOOL_NAME: &'static str = "Skill";

/// What the tool that loads a skill says of itself. It names no skill and does not grow with the
/// number bound.
pub const SKILL_TOOL_DESCRIPTION: &'static str =
    "Load a skill's full instructions as this tool's result, then follow them. A skill is a procedure this repository has written down; your instructions list the available skills and say when each applies. Load one when its description matches what you are doing — not otherwise, and not more than you need. Call this only with a skill name listed in your instructions.";

/// What the tool that loads a skill takes: one free-form name, resolved when it is called.
pub const SKILL_TOOL_SCHEMA: &'static str =
    "{\"type\":\"object\",\"properties\":{\"skill\":{\"type\":\"string\",\"description\":\"The name of the skill to load, exactly as listed in your instructions.\"}},\"required\":[\"skill\"]}";

/// Where a skill's body names the directory its files are in.
pub const SKILL_DIR_PLACEHOLDER: &'static str = "${CLAUDE_SKILL_DIR}";

/// Whether one of the skills has a name.
pub open spec fn offers(skills: Seq<Skill>, name: Seq<char>) -> bool {
    exists|i: int| 0 <= i < skills.len() && (#[trigger] skills[i]).name@ == name
}

/// The bound skills in binding order, the first binding of each name.
pub open spec fn kept(skills: Seq<Skill>) -> Seq<Skill>
    decreases skills.len(),
{
    if skills.len() == 0 {
        Seq::empty()
    } else {
        let so_far = kept(skills.drop_last());
        if offers(so_far, skills.last().name@) {
            so_far
        } else {
            so_far.push(skills.last())
        }
    }
}

/// The values behind a list of references.
pub open spec fn behind(list: Seq<&Skill>) -> Seq<Skill> {
    Seq::new(list.len(), |i: int| *list[i])
}

fn offered(list: &Vec<&Skill>, name: &str) -> (r: bool)
    ensures
        r == offers(behind(list@), name@),
{
    let mut i: usize = 0;
    while i < list.len()
        invariant
            i <= list@.len(),
            forall|j: int| 0 <= j < i ==> (#[trigger] behind(list@)[j]).name@ != name@,
        decreases list@.len() - i,
    {
        assert(behind(list@)[i as int] == *list@[i as int]);
        if text::same(list[i].name.as_str(), name) {
            return true;
        }
        i += 1;
    }
    false
}

/// The bound skills, deduped by name in binding order: a node's own plugins before ones it merely
/// inherits, and the first binding of a name wins.
pub fn deduped<'a>(skills: &'a [Skill]) -> (r: Vec<&'a Skill>)
    ensures
        behind(r@) == kept(skills@),
{
    let mut out: Vec<&'a Skill> = Vec::new();
    let mut i: usize = 0;
    assert(behind(out@) =~= Seq::empty());
    while i < skills.len()
        invariant
            i <= skills@.len(),
            behind(out@) == kept(skills@.take(i as int)),
        decreases skills@.len() - i,
    {
        let skill = &skills[i];
        let ghost had = behind(out@);
        assert(skills@.take(i + 1).drop_last() =~= skills@.take(i as int));
        if !offered(&out, skill.name.as_str()) {
            out.push(skill);
            assert(behind(out@) =~= had.push(*skill));
        }
        i += 1;
    }
    assert(skills@.take(i as int) =~= skills@);
    out
}

/// The names of the bindings that an earlier one of the same name shadows, in binding order. Two
/// bound plugins can ship a skill of the same name, and offering it twice would leave which body
/// loads to discovery order.
pub fn shadowed(skills: &[Skill]) -> (r: Vec<String>)
    ensures
        text::views(r@) == shadowed_names(skills@),
{
    let mut out: Vec<String> = Vec::new();
    let mut i: usize = 0;
    assert(text::views(out@) =~= Seq::empty());
    while i < skills.len()
        invariant
            i <= skills@.len(),
            text::views(out@) == shadowed_names(skills@.take(i as int)),
        decreases skills@.len() - i,
    {
        let before = vstd::slice::slice_subrange(skills, 0, i);
        let ghost had = text::views(out@);
        proof {
            assert(before@ =~= skills@.take(i as int));
            assert(skills@.take(i + 1).drop_last() =~= skills@.take(i as int));
        }
        if offered(&deduped(before), skills[i].name.as_str()) {
            out.push(skills[i].name.clone());
            assert(text::views(out@) =~= had.push(skills@[i as int].name@));
        }
        i += 1;
    }
    assert(skills@.take(i as int) =~= skills@);
    out
}

/// The names of the bindings that an earlier one of the same name shadows.
pub open spec fn shadowed_names(skills: Seq<Skill>) -> Seq<Seq<char>>
    decreases skills.len(),
{
    if skills.len() == 0 {
        Seq::empty()
    } else if offers(kept(skills.drop_last()), skills.last().name@) {
        shadowed_names(skills.drop_last()).push(skills.last().name@)
    } else {
        shadowed_names(skills.drop_last())
    }
}

/// The `Skill` tool for `skills`, or `None` when there is nothing to offer.
pub fn skill_tool(skills: &[Skill]) -> (r: Option<ToolDeclaration>)
    ensures
        r is Some <==> kept(skills@).len() > 0,
        r matches Some(tool) ==> tool == (ToolDeclaration {
            name: SKILL_TOOL_NAME,
            description: SKILL_TOOL_DESCRIPTION,
            input_schema: SKILL_TOOL_SCHEMA,
        }),
{
    let offered = deduped(skills);
    assert(behind(offered@).len() == offered@.len());
    if offered.len() == 0 {
        return None;
    }
    Some(
        ToolDeclaration {
            name: SKILL_TOOL_NAME,
            description: SKILL_TOOL_DESCRIPTION,
            input_schema: SKILL_TOOL_SCHEMA,
        },
    )
}

/// One line of the listing.
pub open spec fn listed(skill: Skill) -> Seq<char> {
    "- "@ + skill.name@ + ": "@ + skill.description@
}

/// The lines of the listing.
pub open spec fn listed_lines(skills: Seq<Skill>) -> Seq<Seq<char>> {
    Seq::new(kept(skills).len(), |i: int| listed(kept(skills)[i]))
}

/// The listing for a node's preamble: every deduped bound skill, one per line. `None` when nothing
/// is bound. This is the same set [`loaded`] answers, so offered and loadable agree.
pub fn listing(skills: &[Skill]) -> (r: Option<String>)
    ensures
        r is Some <==> kept(skills@).len() > 0,
        r matches Some(lines) ==> lines@ == text::joined(listed_lines(skills@), "\n"@),
{
    let offered = deduped(skills);
    let ghost all = kept(skills@);
    assert(behind(offered@).len() == offered@.len());
    if offered.len() == 0 {
        return None;
    }
    let mut lines: Vec<String> = Vec::new();
    let mut i: usize = 0;
    while i < offered.len()
        invariant
            i <= offered@.len(),
            behind(offered@) == all,
            all == kept(skills@),
            lines@.len() == i,
            forall|j: int| 0 <= j < i ==> (#[trigger] lines@[j])@ == listed(all[j]),
        decreases offered@.len() - i,
    {
        assert(all[i as int] == behind(offered@)[i as int]);
        let mut line = "- ".to_owned();
        line.append(offered[i].name.as_str());
        line.append(": ");
        line.append(offered[i].description.as_str());
        lines.push(line);
        i += 1;
    }
    assert(behind(offered@).len() == offered@.len());
    assert(text::views(lines@) =~= listed_lines(skills@));
    Some(text::join(lines.as_slice(), "\n"))
}

/// What a skill is answered with: its body, with the directory it names put in.
pub open spec fn answered(skill: Skill) -> LoadedView {
    LoadedView {
        name: skill.name@,
        body: text::replaced(skill.body@, SKILL_DIR_PLACEHOLDER@, skill.dir@),
    }
}

/// What the bound skills answer with.
pub open spec fn loadable(skills: Seq<Skill>) -> Seq<LoadedView> {
    Seq::new(kept(skills).len(), |i: int| answered(kept(skills)[i]))
}

/// What answers a `Skill` call: the name, and the instructions.
///
/// The directory placeholder is resolved here, because it is only meaningful once the body is about
/// to be read by a model that might act on the paths in it.
pub fn loaded(skills: &[Skill]) -> (r: Vec<LoadedSkill>)
    ensures
        text::views(r@) == loadable(skills@),
{
    let offered = deduped(skills);
    let ghost all = kept(skills@);
    let mut out: Vec<LoadedSkill> = Vec::new();
    let mut i: usize = 0;
    proof {
        reveal_strlit("${CLAUDE_SKILL_DIR}");
        assert(behind(offered@).len() == offered@.len());
    }
    while i < offered.len()
        invariant
            i <= offered@.len(),
            SKILL_DIR_PLACEHOLDER@.len() > 0,
            behind(offered@) == all,
            all == kept(skills@),
            out@.len() == i,
            forall|j: int| 0 <= j < i ==> (#[trigger] out@[j])@ == answered(all[j]),
        decreases offered@.len() - i,
    {
        assert(all[i as int] == behind(offered@)[i as int]);
        out.push(
            LoadedSkill {
                name: offered[i].name.clone(),
                body: text::replace(
                    offered[i].body.as_str(),
                    SKILL_DIR_PLACEHOLDER,
                    offered[i].dir.as_str(),
                ),
            },
        );
        i += 1;
    }
    assert(behind(offered@).len() == offered@.len());
    assert(text::views(out@) =~= loadable(skills@));
    out
}

/// What is listed and what loads are one set, in one order: every line of the listing names the
/// skill that answers to it, and there is a line for every skill that answers.
pub proof fn what_is_listed_is_what_loads(skills: Seq<Skill>)
    ensures
        listed_lines(skills).len() == loadable(skills).len(),
        forall|i: int|
            0 <= i < listed_lines(skills).len() ==> ("- "@ + (#[trigger] loadable(skills)[i]).name
                + ": "@).is_prefix_of(listed_lines(skills)[i]),
{
    assert forall|i: int| 0 <= i < listed_lines(skills).len() implies ("- "@ + (
    #[trigger] loadable(skills)[i]).name + ": "@).is_prefix_of(listed_lines(skills)[i]) by {
        let line = listed(kept(skills)[i]);
        let head = "- "@ + loadable(skills)[i].name + ": "@;
        assert(line =~= head + kept(skills)[i].description@);
    }
}

/// A name is offered exactly when some plugin ships it, exactly once, and under its first binding:
/// what is listed and what loads are one set.
pub proof fn each_name_is_kept_once(skills: Seq<Skill>)
    ensures
        forall|name: Seq<char>|
            #![trigger offers(kept(skills), name)]
            #![trigger offers(skills, name)]
            offers(kept(skills), name) <==> offers(skills, name),
        forall|i: int, j: int|
            0 <= i < j < kept(skills).len() ==> (#[trigger] kept(skills)[i]).name@ != (
            #[trigger] kept(skills)[j]).name@,
        kept(skills).len() == 0 <==> skills.len() == 0,
    decreases skills.len(),
{
    if skills.len() > 0 {
        let front = skills.drop_last();
        let last = skills.last();
        each_name_is_kept_once(front);
        let all = kept(skills);
        assert forall|name: Seq<char>|
            #![trigger offers(kept(skills), name)]
            #![trigger offers(skills, name)]
            offers(kept(skills), name) <==> offers(skills, name) by {
            if offers(skills, name) {
                let k = choose|k: int| 0 <= k < skills.len() && (#[trigger] skills[k]).name@ == name;
                if k < front.len() {
                    assert(front[k].name@ == name);
                    assert(offers(kept(front), name));
                    let m = choose|m: int|
                        0 <= m < kept(front).len() && (#[trigger] kept(front)[m]).name@ == name;
                    assert(all[m].name@ == name);
                } else if offers(kept(front), last.name@) {
                    let m = choose|m: int|
                        0 <= m < kept(front).len() && (#[trigger] kept(front)[m]).name@ == last.name@;
                    assert(all[m].name@ == name);
                } else {
                    assert(all[all.len() - 1].name@ == name);
                }
            }
            if offers(all, name) {
                let k = choose|k: int| 0 <= k < all.len() && (#[trigger] all[k]).name@ == name;
                if k < kept(front).len() {
                    assert(kept(front)[k].name@ == name);
                    assert(offers(front, name));
                    let m = choose|m: int| 0 <= m < front.len() && (#[trigger] front[m]).name@ == name;
                    assert(skills[m].name@ == name);
                } else {
                    assert(skills[skills.len() - 1].name@ == name);
                }
            }
        }
        assert(offers(skills, last.name@)) by {
            assert(skills[skills.len() - 1].name@ == last.name@);
        }
        assert(offers(all, last.name@));
        assert forall|i: int, j: int| 0 <= i < j < all.len() implies (#[trigger] all[i]).name@ != (
        #[trigger] all[j]).name@ by {
            if j < kept(front).len() {
                assert(kept(front)[i].name@ != kept(front)[j].name@);
            } else {
                assert(all[i] == kept(front)[i]);
            }
        }
    }
}

/// Of two bindings of one name the earlier one is kept.
pub proof fn the_first_binding_wins(skills: Seq<Skill>, i: int)
    requires
        0 <= i < skills.len(),
        forall|j: int| 0 <= j < i ==> (#[trigger] skills[j]).name@ != skills[i].name@,
    ensures
        kept(skills).contains(skills[i]),
    decreases skills.len(),
{
    let front = skills.drop_last();
    if i < skills.len() - 1 {
        the_first_binding_wins(front, i);
        let k = choose|k: int| 0 <= k < kept(front).len() && kept(front)[k] == front[i];
        assert(kept(skills)[k] == skills[i]);
    } else {
        each_name_is_kept_once(front);
        if offers(front, skills[i].name@) {
            let m = choose|m: int|
                0 <= m < front.len() && (#[trigger] front[m]).name@ == skills[i].name@;
            assert(skills[m].name@ == skills[i].name@);
        }
        assert(!offers(kept(front), skills[i].name@));
        assert(kept(skills)[kept(skills).len() - 1] == skills[i]);
    }
}

/// What is offered is the first binding of each name, in binding order, and nothing else.
pub proof fn the_first_of_each_name_is_offered(skills: Seq<Skill>)
    ensures
        lists::firsts(
            kept(skills),
            skills,
            |skill: Skill| skill.name@,
            |name: Seq<char>| false,
        ),
{
    let name = |skill: Skill| skill.name@;
    let held = |name: Seq<char>| false;
    kept_is_deduped(skills, name, held);
    lists::deduping_keeps_the_first(skills, name, held);
}

proof fn kept_is_deduped(
    skills: Seq<Skill>,
    name: spec_fn(Skill) -> Seq<char>,
    held: spec_fn(Seq<char>) -> bool,
)
    requires
        forall|skill: Skill| #[trigger] name(skill) == skill.name@,
        forall|n: Seq<char>| !#[trigger] held(n),
    ensures
        kept(skills) == lists::dedupe(skills, name, held),
    decreases skills.len(),
{
    if skills.len() > 0 {
        let front = skills.drop_last();
        let last = skills.last();
        let n = front.len() as int;
        kept_is_deduped(front, name, held);
        lists::deduping_loses_no_name(front, name, held, last.name@);
        assert(skills[n] == last);
        if offers(kept(front), last.name@) {
            let k = choose|k: int|
                0 <= k < kept(front).len() && (#[trigger] kept(front)[k]).name@ == last.name@;
            assert(name(lists::dedupe(front, name, held)[k]) == last.name@);
            let i = choose|i: int| 0 <= i < front.len() && name(#[trigger] front[i]) == last.name@;
            assert(name(skills[i]) == name(skills[n]));
        } else {
            assert forall|i: int| 0 <= i < n implies name(#[trigger] skills[i]) != name(
                skills[n],
            ) by {
                if name(skills[i]) == name(skills[n]) {
                    assert(name(front[i]) == last.name@);
                    let k = choose|k: int|
                        0 <= k < lists::dedupe(front, name, held).len() && name(
                            #[trigger] lists::dedupe(front, name, held)[k],
                        ) == last.name@;
                    assert(kept(front)[k].name@ == last.name@);
                }
            }
        }
    }
}

/// What is listed of a skill is its name and its description, and what it loads is its own body with
/// its own directory put in.
pub proof fn a_skill_is_listed_and_loaded_as_its_own(skills: Seq<Skill>, i: int)
    requires
        0 <= i < kept(skills).len(),
    ensures
        listed_lines(skills)[i] == "- "@ + kept(skills)[i].name@ + ": "@
            + kept(skills)[i].description@,
        loadable(skills)[i].name == kept(skills)[i].name@,
        loadable(skills)[i].body == text::replaced(
            kept(skills)[i].body@,
            "${CLAUDE_SKILL_DIR}"@,
            kept(skills)[i].dir@,
        ),
{
}

/// A binding is reported as shadowed exactly when an earlier one has its name, each time and in
/// order.
pub proof fn every_later_binding_of_a_name_is_shadowed(skills: Seq<Skill>)
    ensures
        exists|at: Seq<int>| #[trigger]
            lists::places(at, skills.len() as int, repeats(skills)) && shadowed_names(skills)
                == Seq::new(at.len(), |k: int| skills[at[k]].name@),
{
    let at = shadowed_places(skills);
    assert(lists::places(at, skills.len() as int, repeats(skills)));
}

/// Where a binding stands whose name an earlier one has.
pub open spec fn repeats(skills: Seq<Skill>) -> spec_fn(int) -> bool {
    |j: int| exists|i: int| 0 <= i < j && (#[trigger] skills[i]).name@ == skills[j].name@
}

proof fn shadowed_places(skills: Seq<Skill>) -> (at: Seq<int>)
    ensures
        lists::places(at, skills.len() as int, repeats(skills)),
        shadowed_names(skills) == Seq::new(at.len(), |k: int| skills[at[k]].name@),
    decreases skills.len(),
{
    if skills.len() == 0 {
        let at = Seq::<int>::empty();
        assert(shadowed_names(skills) =~= Seq::new(at.len(), |k: int| skills[at[k]].name@));
        at
    } else {
        let front = skills.drop_last();
        let n = front.len() as int;
        let before = shadowed_places(front);
        assert forall|p: int| 0 <= p < n implies repeats(front)(p) == #[trigger] repeats(skills)(p) by {
            assert forall|i: int| 0 <= i <= p implies #[trigger] front[i] == skills[i] by {}
            if repeats(skills)(p) {
                let i = choose|i: int| 0 <= i < p && (#[trigger] skills[i]).name@ == skills[p].name@;
                assert(front[i].name@ == front[p].name@);
            }
            if repeats(front)(p) {
                let i = choose|i: int| 0 <= i < p && (#[trigger] front[i]).name@ == front[p].name@;
                assert(skills[i].name@ == skills[p].name@);
            }
        }
        lists::places_grow(before, n, repeats(front), repeats(skills));
        each_name_is_kept_once(front);
        let name = skills.last().name@;
        assert(offers(kept(front), name) == offers(front, name));
        assert(repeats(skills)(n) == offers(front, name)) by {
            if offers(front, name) {
                let i = choose|i: int| 0 <= i < front.len() && (#[trigger] front[i]).name@ == name;
                assert(skills[i].name@ == skills[n].name@);
            }
            if repeats(skills)(n) {
                let i = choose|i: int| 0 <= i < n && (#[trigger] skills[i]).name@ == skills[n].name@;
                assert(front[i].name@ == name);
            }
        }
        let at = lists::grown(before, n, repeats(skills)(n));
        assert(shadowed_names(skills) =~= Seq::new(at.len(), |k: int| skills[at[k]].name@));
        at
    }
}

} // verus!
