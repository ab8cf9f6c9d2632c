//! What a node is told before its question: the repository's conventions, its plugins' context, its
//! agent's guidance, its own instructions, and the skills it may load.

use vstd::prelude::*;
use vstd::string::StringExecFns;
use vstd::string::StringSliceAdditionalSpecFns;

use crate::skills;
use crate::skills::Skill;
use crate::stage;
use crate::text;

verus! {

broadcast use vstd::string::group_string_axioms;

/// What introduces the listing of skills.
pub const SKILLS_HEADER: &'static str =
    "\n\nAvailable skills: call the Skill tool with one of these names, and only these, when its description matches what you are doing.\n";

/// The preamble without its skills: the context where there is any, then the agent's guidance, then
/// the ruleset's text where it replaces the node's own.
pub open spec fn composed(
    built_in: Seq<char>,
    profile_prompt: Seq<char>,
    system_prompt: Option<&str>,
    context: Option<&str>,
) -> Seq<char> {
    let own = match system_prompt {
        Some(prompt) => prompt@,
        None => built_in,
    };
    let base = stage::paragraphs(seq![profile_prompt, own]);
    match context {
        Some(context) => context@ + "\n\n"@ + base,
        None => base,
    }
}

/// The preamble a node runs with.
pub open spec fn effective(
    built_in: Seq<char>,
    profile_prompt: Seq<char>,
    system_prompt: Option<&str>,
    context: Option<&str>,
    bound: Seq<Skill>,
) -> Seq<char> {
    let base = composed(built_in, profile_prompt, system_prompt, context);
    if skills::kept(bound).len() > 0 {
        base + SKILLS_HEADER@ + text::joined(skills::listed_lines(bound), "\n"@)
    } else {
        base
    }
}

/// The preamble a node actually runs with: its built-in text or a ruleset replacement, prefixed by
/// whatever context plugins contributed for this run and suffixed by the listing of the skills its
/// plugins bind.
///
/// The listing is appended to whichever base applies: a ruleset override replaces the node's text,
/// not the skills its plugins ship. No skills bound leaves the preamble as the composition of
/// context and base.
pub fn effective_preamble(
    built_in: &str,
    system_prompt: Option<&str>,
    context: Option<&str>,
    bound: &[Skill],
) -> (r: String)
    ensures
        r@ == effective(built_in@, Seq::empty(), system_prompt, context, bound@),
{
    proof {
        reveal_strlit("");
        assert(""@ =~= Seq::<char>::empty());
    }
    effective_preamble_with_profile(built_in, "", system_prompt, context, bound)
}

/// Compose reusable agent guidance before a stage's own preamble. A ruleset replaces only the stage
/// portion, so a shared profile cannot erase the stage contract.
pub fn effective_preamble_with_profile(
    built_in: &str,
    profile_prompt: &str,
    system_prompt: Option<&str>,
    context: Option<&str>,
    bound: &[Skill],
) -> (r: String)
    ensures
        r@ == effective(built_in@, profile_prompt@, system_prompt, context, bound@),
{
    let own = match system_prompt {
        Some(prompt) => prompt,
        None => built_in,
    };
    let parts: Vec<&str> = vec![profile_prompt, own];
    assert(text::views(parts@) =~= seq![profile_prompt@, own@]);
    let base = stage::join_paragraphs(parts.as_slice());
    let mut out = match context {
        Some(context) => {
            let mut prefixed = context.to_owned();
            prefixed.append("\n\n");
            prefixed.append(base.as_str());
            prefixed
        },
        None => base,
    };
    if let Some(listing) = skills::listing(bound) {
        out.append(SKILLS_HEADER);
        out.append(listing.as_str());
    }
    out
}

/// A ruleset that replaces a node's text never costs it its context or its skills: what it replaces
/// is the node's own text and nothing else.
pub proof fn an_override_replaces_only_the_node_text(
    built_in: Seq<char>,
    profile_prompt: Seq<char>,
    prompt: &str,
    context: Option<&str>,
    bound: Seq<Skill>,
)
    ensures
        effective(built_in, profile_prompt, Some(prompt), context, bound) == effective(
            prompt@,
            profile_prompt,
            None,
            context,
            bound,
        ),
{
}

/// With no skills bound, the preamble is the composition of context and base, with nothing added.
pub proof fn no_skills_adds_nothing(
    built_in: Seq<char>,
    profile_prompt: Seq<char>,
    system_prompt: Option<&str>,
    context: Option<&str>,
)
    ensures
        effective(built_in, profile_prompt, system_prompt, context, Seq::empty()) == composed(
            built_in,
            profile_prompt,
            system_prompt,
            context,
        ),
{
}

/// The most of a conventions file, in bytes, that a writing node's preamble will carry. It is paid
/// on every model call the node makes.
pub const CONVENTIONS_BUDGET: usize = 16384;

/// The repository's own coding conventions: the `AGENTS.md` at its root, falling back to the other
/// name such a file goes by, each `None` when it is not there. A file over the budget is cut back to the last
/// whole character within it rather than dropped.
pub fn repo_conventions(agents_md: Option<&str>, claude_md: Option<&str>) -> (r: Option<String>)
    ensures
        match (agents_md, claude_md) {
            (Some(file), _) => r matches Some(kept) && text::clipped(
                file@,
                CONVENTIONS_BUDGET as int,
                kept@,
            ),
            (None, Some(file)) => r matches Some(kept) && text::clipped(
                file@,
                CONVENTIONS_BUDGET as int,
                kept@,
            ),
            (None, None) => r is None,
        },
        r is Some ==> text::byte_len(r->0@) <= 16384,
        agents_md is Some && text::byte_len(agents_md->0@) <= 16384 ==> r is Some && r->0@
            == agents_md->0@,
        agents_md is None && claude_md is Some && text::byte_len(claude_md->0@) <= 16384 ==> r is Some
            && r->0@ == claude_md->0@,
{
    match agents_md {
        Some(file) => Some(text::clip(file, CONVENTIONS_BUDGET)),
        None => match claude_md {
            Some(file) => Some(text::clip(file, CONVENTIONS_BUDGET)),
            None => None,
        },
    }
}

/// Prefix a writing node's preamble with the repository conventions. No conventions leaves `base` as
/// it is: no header, no separator.
pub fn with_conventions(conventions: Option<&str>, base: String) -> (r: String)
    ensures
        r@ == (match conventions {
            Some(conventions) => conventions@ + "\n\n"@ + base@,
            None => base@,
        }),
{
    match conventions {
        Some(conventions) => {
            let mut out = conventions.to_owned();
            out.append("\n\n");
            out.append(base.as_str());
            out
        },
        None => base,
    }
}

/// What a preamble is made of, in order: the plugins' context where there is any; the agent's guidance
/// where there is any; the ruleset's text where it gives one, and the node's own otherwise; and the
/// listing of the skills where any are bound. Nothing that is there is left out.
pub proof fn a_preamble_holds_everything_in_order(
    built_in: Seq<char>,
    guidance: Seq<char>,
    prompt: Option<&str>,
    context: Option<&str>,
    bound: Seq<Skill>,
)
    ensures
        ({
            let own = if prompt is Some {
                prompt->0@
            } else {
                built_in
            };
            let base = if guidance.len() > 0 && own.len() > 0 {
                guidance + "\n\n"@ + own
            } else {
                guidance + own
            };
            let led = if context is Some {
                context->0@ + "\n\n"@ + base
            } else {
                base
            };
            &&& bound.len() == 0 ==> effective(built_in, guidance, prompt, context, bound) == led
            &&& bound.len() > 0 ==> effective(built_in, guidance, prompt, context, bound) == led
                + SKILLS_HEADER@ + text::joined(skills::listed_lines(bound), "\n"@)
        }),
{
    skills::each_name_is_kept_once(bound);
    let own = if prompt is Some {
        prompt->0@
    } else {
        built_in
    };
    two_paragraphs(guidance, own);
}

proof fn two_paragraphs(a: Seq<char>, b: Seq<char>)
    ensures
        stage::paragraphs(seq![a, b]) == (if a.len() > 0 && b.len() > 0 {
            a + "\n\n"@ + b
        } else {
            a + b
        }),
{
    let full = |part: Seq<char>| part.len() > 0;
    let parts = seq![a, b];
    let left = parts.filter(full);
    assert(parts.drop_last() =~= seq![a]);
    assert(parts.drop_last().drop_last() =~= Seq::empty());
    reveal(Seq::filter);
    reveal_with_fuel(Seq::filter, 3);
    assert(seq![a].filter(full) =~= (if a.len() > 0 {
        seq![a]
    } else {
        Seq::empty()
    })) by {
        assert(seq![a].drop_last() =~= Seq::empty());
        assert(seq![a].last() == a);
    }
    assert(parts.last() == b);
    if a.len() > 0 && b.len() > 0 {
        assert(left =~= seq![a] + seq![b]);
        text::joined_of_one(b, "\n\n"@);
        text::joined_from_the_front(a, seq![b], "\n\n"@);
    } else if a.len() > 0 {
        assert(left =~= seq![a]);
        text::joined_of_one(a, "\n\n"@);
        assert(a + b =~= a);
    } else if b.len() > 0 {
        assert(left =~= seq![b]);
        text::joined_of_one(b, "\n\n"@);
        assert(a + b =~= b);
    } else {
        assert(left =~= Seq::empty());
        assert(text::joined(left, "\n\n"@) =~= a + b);
    }
}

} // verus!
