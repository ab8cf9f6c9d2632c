//! Validation for the resolved stage/profile registry.

use vstd::prelude::*;
use vstd::string::StringExecFns;

use crate::config;
use crate::config::Capability;
use crate::error;
use crate::error::PlanError;
use crate::lists;
use crate::names;
use crate::policy;
use crate::policy::Reserved;
use crate::stage;
use crate::stage::AgentProfile;
use crate::stage::ProfileView;
use crate::stage::Stage;
use crate::stage::StageView;
use crate::text;
use crate::workflow::WorkflowLayoutColumn;

verus! {

broadcast use vstd::string::group_string_axioms;

/// A list of names as a refusal prints it: in order, each once, comma-separated.
pub open spec fn listing(list: Seq<Seq<char>>) -> Seq<char> {
    text::joined(names::sorted(list), ", "@)
}

fn print_names(list: &[String]) -> (r: String)
    ensures
        r@ == listing(text::views(list@)),
{
    text::join(names::sort(list).as_slice(), ", ")
}

/// The ids of a list of stages.
pub(crate) fn ids_of(stages: &[Stage]) -> (r: Vec<String>)
    ensures
        text::views(r@) == stage::ids(text::views(stages@)),
{
    let mut out: Vec<String> = Vec::new();
    let mut i: usize = 0;
    while i < stages.len()
        invariant
            i <= stages@.len(),
            out@.len() == i,
            forall|j: int| 0 <= j < i ==> (#[trigger] out@[j])@ == stages@[j].id@,
        decreases stages@.len() - i,
    {
        out.push(stages[i].id.clone());
        i += 1;
    }
    assert(text::views(out@) =~= stage::ids(text::views(stages@)));
    out
}

/// The ids of a list of profiles.
pub open spec fn profile_ids(profiles: Seq<ProfileView>) -> Seq<Seq<char>> {
    Seq::new(profiles.len(), |i: int| profiles[i].id)
}

fn profile_ids_of(profiles: &[AgentProfile]) -> (r: Vec<String>)
    ensures
        text::views(r@) == profile_ids(text::views(profiles@)),
{
    let mut out: Vec<String> = Vec::new();
    let mut i: usize = 0;
    while i < profiles.len()
        invariant
            i <= profiles@.len(),
            out@.len() == i,
            forall|j: int| 0 <= j < i ==> (#[trigger] out@[j])@ == profiles@[j].id@,
        decreases profiles@.len() - i,
    {
        out.push(profiles[i].id.clone());
        i += 1;
    }
    assert(text::views(out@) =~= profile_ids(text::views(profiles@)));
    out
}

/// The characters of a machine name.
pub open spec fn machine_char(c: char) -> bool {
    ||| 'a' as int <= c as int <= 'z' as int
    ||| '0' as int <= c as int <= '9' as int
    ||| c == '_'
}

/// An underscore-separated identifier: lower-case letters, digits and underscores, at least one.
pub open spec fn machine_named(value: Seq<char>) -> bool {
    value.len() > 0 && forall|i: int| 0 <= i < value.len() ==> machine_char(#[trigger] value[i])
}

/// Whether a name is an underscore-separated identifier.
pub fn machine_name(value: &str) -> (r: bool)
    ensures
        r == machine_named(value@),
{
    let chars = text::chars_of(value);
    let mut i: usize = 0;
    while i < chars.len()
        invariant
            i <= chars@.len(),
            chars@ == value@,
            forall|j: int| 0 <= j < i ==> machine_char(#[trigger] chars@[j]),
        decreases chars@.len() - i,
    {
        let c: char = chars[i];
        let code: u32 = text::code(c);
        if !((0x61 <= code && code <= 0x7a) || (0x30 <= code && code <= 0x39) || c == '_') {
            assert(!machine_char(chars@[i as int]));
            return false;
        }
        i += 1;
    }
    chars.len() > 0
}

/// Why a workflow's declarations are refused at the `i`th of them.
pub open spec fn declaration_refusal(stages: Seq<StageView>, workflow: Seq<char>, i: int) -> Option<
    Seq<char>,
> {
    let stage = stages[i];
    let required = policy::contract_of(stage.id);
    let reserved = policy::reservation(stage.id);
    if stage::ids(stages).take(i).contains(stage.id) {
        Some("workflow `"@ + workflow + "` declares stage `"@ + stage.id + "` more than once"@)
    } else if reserved is Some {
        Some(
            "workflow `"@ + workflow + "` declares stage `"@ + stage.id + "`, which is "@
                + reserved->0.clause(),
        )
    } else if required is Some && stage.output_contract != required->0@ {
        Some(
            "workflow `"@ + workflow + "` overrides stage `"@ + stage.id
                + "` with output contract `"@ + (if stage.output_contract.len() == 0 {
                "<none>"@
            } else {
                stage.output_contract
            }) + "`; the run deserializes that stage's output as `"@ + required->0@
                + "`, so an override must keep it"@,
        )
    } else {
        match stage.governed_by {
            Some(governed_by) => match policy::governance_reservation(governed_by@) {
                Some(reason) => Some(
                    "workflow `"@ + workflow + "` stage `"@ + stage.id + "` is governedBy `"@
                        + governed_by@ + "`, which is "@ + reason.clause(),
                ),
                None => None,
            },
            None => None,
        }
    }
}

/// Why each of a workflow's declarations is refused.
pub open spec fn declaration_refusals(stages: Seq<StageView>, workflow: Seq<char>) -> spec_fn(
    int,
) -> Option<Seq<char>> {
    |i: int| declaration_refusal(stages, workflow, i)
}

/// Why a workflow's declarations are refused: the first reason, in order of declaration.
pub open spec fn declarations_refusal(stages: Seq<StageView>, workflow: Seq<char>) -> Option<
    Seq<char>,
> {
    error::first_refusal(stages.len() as int, declaration_refusals(stages, workflow))
}

fn check_declaration(stages: &[Stage], ids: &[String], workflow: &str, i: usize) -> (r: Result<
    (),
    PlanError,
>)
    requires
        i < stages@.len(),
        text::views(ids@) == stage::ids(text::views(stages@)),
    ensures
        error::refused(r, declaration_refusal(text::views(stages@), workflow@, i as int)),
{
    let stage = &stages[i];
    let ghost all = stage::ids(text::views(stages@));
    assert(text::views(ids@).len() == stages@.len());
    let earlier = vstd::slice::slice_subrange(ids, 0, i);
    assert(text::views(earlier@) =~= text::views(ids@).take(i as int));
    if text::contains(earlier, stage.id.as_str()) {
        let mut m = "workflow `".to_owned();
        m.append(workflow);
        m.append("` declares stage `");
        m.append(stage.id.as_str());
        m.append("` more than once");
        return Err(PlanError::Configuration(m));
    }
    if let Some(reason) = policy::reserved(stage.id.as_str()) {
        let mut m = "workflow `".to_owned();
        m.append(workflow);
        m.append("` declares stage `");
        m.append(stage.id.as_str());
        m.append("`, which is ");
        m.append(reason.because());
        return Err(PlanError::Configuration(m));
    }
    if let Some(required) = policy::required_contract(stage.id.as_str()) {
        if !text::same(stage.output_contract.as_str(), required) {
            let mut m = "workflow `".to_owned();
            m.append(workflow);
            m.append("` overrides stage `");
            m.append(stage.id.as_str());
            m.append("` with output contract `");
            if stage.output_contract.as_str().is_empty() {
                m.append("<none>");
            } else {
                m.append(stage.output_contract.as_str());
            }
            m.append("`; the run deserializes that stage's output as `");
            m.append(required);
            m.append("`, so an override must keep it");
            return Err(PlanError::Configuration(m));
        }
    }
    if let Some(governed_by) = &stage.governed_by {
        if let Some(reason) = policy::reserved_for_governance(governed_by.as_str()) {
            let mut m = "workflow `".to_owned();
            m.append(workflow);
            m.append("` stage `");
            m.append(stage.id.as_str());
            m.append("` is governedBy `");
            m.append(governed_by.as_str());
            m.append("`, which is ");
            m.append(reason.because());
            return Err(PlanError::Configuration(m));
        }
    }
    Ok(())
}

/// Judge what one workflow declares, before its declarations are laid over the standard registry.
///
/// A workflow may reuse a *standard* identifier: that is an override, and the overlay replaces the
/// imported stage with it. What it may not do is declare one id twice, take a name the run itself
/// owns, or change a contract the run reads. Every case is refused here, at load: silently dropping
/// a declaration is how an override comes to validate at startup and then not run.
pub fn validate_declarations(stages: &[Stage], workflow: &str) -> (r: Result<(), PlanError>)
    ensures
        error::refused(r, declarations_refusal(text::views(stages@), workflow@)),
{
    let ghost all = text::views(stages@);
    let ghost check = declaration_refusals(all, workflow@);
    let ids = ids_of(stages);
    let mut i: usize = 0;
    while i < stages.len()
        invariant
            i <= stages@.len(),
            all == text::views(stages@),
            check == declaration_refusals(all, workflow@),
            text::views(ids@) == stage::ids(all),
            error::first_refusal(i as int, check) is None,
        decreases stages@.len() - i,
    {
        let judged = check_declaration(stages, ids.as_slice(), workflow, i);
        assert(error::refused(judged, check(i as int)));
        if judged.is_err() {
            proof {
                error::the_first_refusal_decides(all.len() as int, check, i as int);
            }
            return judged;
        }
        i += 1;
    }
    Ok(())
}

/// Whether a name is one of the internal gates.
pub open spec fn gate(name: Seq<char>) -> bool {
    policy::reservation(name) == Some(Reserved::InternalGate)
}

fn is_gate(name: &str) -> (r: bool)
    ensures
        r == gate(name@),
{
    matches!(policy::reserved(name), Some(Reserved::InternalGate))
}

/// Why a profile is refused.
pub open spec fn profile_refusal(profile: ProfileView) -> Option<Seq<char>> {
    if gate(profile.id) {
        Some(
            "agent `"@ + profile.id
                + "` claims internal fixed capability; internal gates are not configurable agents"@,
        )
    } else {
        None
    }
}

/// Why each profile is refused.
pub open spec fn profile_refusals(profiles: Seq<ProfileView>) -> spec_fn(int) -> Option<Seq<char>> {
    |i: int| profile_refusal(profiles[i])
}

/// The names that are no internal gate.
pub open spec fn open_names(list: Seq<Seq<char>>) -> Seq<Seq<char>> {
    list.filter(|name: Seq<char>| !gate(name))
}

pub(crate) fn without_gates(list: &[String]) -> (r: Vec<String>)
    ensures
        text::views(r@) == open_names(text::views(list@)),
{
    let mut out: Vec<String> = Vec::new();
    let ghost all = text::views(list@);
    let ghost allowed = |name: Seq<char>| !gate(name);
    let mut i: usize = 0;
    assert(all.take(0).filter(allowed) =~= Seq::empty()) by {
        reveal(Seq::filter);
    }
    assert(text::views(out@) =~= Seq::empty());
    while i < list.len()
        invariant
            i <= list@.len(),
            all == text::views(list@),
            allowed == (|name: Seq<char>| !gate(name)),
            text::views(out@) == all.take(i as int).filter(allowed),
        decreases list@.len() - i,
    {
        let ghost had = out@;
        if !is_gate(list[i].as_str()) {
            out.push(list[i].clone());
            assert(text::views(out@) =~= text::views(had).push(all[i as int]));
        }
        i += 1;
        proof {
            reveal(Seq::filter);
            assert(all.take(i as int).drop_last() =~= all.take(i - 1));
            assert(all.take(i as int).last() == all[i - 1]);
        }
    }
    assert(all.take(i as int) =~= all);
    out
}

/// Why one stage of a registry is refused on its own account.
pub open spec fn stage_refusal(
    stages: Seq<StageView>,
    profiles: Seq<ProfileView>,
    permitted: Seq<Seq<char>>,
    i: int,
) -> Option<Seq<char>> {
    let stage = stages[i];
    if gate(stage.id) {
        Some(
            "stage `"@ + stage.id + "` claims internal fixed capability; valid stages: "@
                + text::joined(open_names(names::sorted(stage::ids(stages))), ", "@),
        )
    } else if policy::reservation(stage.id) == Some(Reserved::Record) {
        Some(
            "stage `"@ + stage.id
                + "` conflicts with a checkpoint the run writes itself; choose a different stage identifier"@,
        )
    } else if !profile_ids(profiles).contains(stage.agent) {
        Some(
            "stage `"@ + stage.id + "` references unknown agent `"@ + stage.agent
                + "`; valid agents: "@ + listing(profile_ids(profiles)),
        )
    } else if !machine_named(stage.id) {
        Some("stage `"@ + stage.id + "` must use an underscore-separated identifier"@)
    } else {
        match stage.governed_by {
            None => None,
            Some(governed_by) => if !machine_named(governed_by@) {
                Some(
                    "stage `"@ + stage.id + "` governedBy `"@ + governed_by@
                        + "` must use an underscore-separated identifier"@,
                )
            } else if !permitted.contains(governed_by@) {
                Some(
                    "stage `"@ + stage.id + "` references unknown governedBy `"@ + governed_by@
                        + "`; valid governance identities: "@ + listing(permitted),
                )
            } else {
                None
            },
        }
    }
}

/// Why each stage of a registry is refused on its own account.
pub open spec fn stage_refusals(
    stages: Seq<StageView>,
    profiles: Seq<ProfileView>,
    permitted: Seq<Seq<char>>,
) -> spec_fn(int) -> Option<Seq<char>> {
    |i: int| stage_refusal(stages, profiles, permitted, i)
}

/// The stage another delegates to, when it is there.
pub open spec fn target_of(stages: Seq<StageView>, id: Seq<char>) -> Option<StageView> {
    let at = stage::stage_index(stages, stage::called(id));
    if at < stages.len() {
        Some(stages[at])
    } else {
        None
    }
}

/// The most a stage may do under the profile it names.
pub open spec fn ceiling_of(stage: StageView, profiles: Seq<ProfileView>) -> Option<Capability> {
    match stage::profile_named(profiles, stage.agent) {
        Some(profile) => stage.effective_ceiling(profile),
        None => None,
    }
}

/// Why the delegation one stage declares is refused.
pub open spec fn delegation_refusal(
    stages: Seq<StageView>,
    profiles: Seq<ProfileView>,
    i: int,
) -> Option<Seq<char>> {
    let parent = stages[i];
    match parent.delegation {
        None => None,
        Some(delegation) => if policy::evidence(parent.id) {
            Some(
                "stage `"@ + parent.id + "` declares delegation but is "@
                    + policy::FOLDED_AS_EVIDENCE_BECAUSE@,
            )
        } else {
            match target_of(stages, delegation.target@) {
                None => Some(
                    "stage `"@ + parent.id + "` delegates to unknown target `"@
                        + delegation.target@ + "`; valid stages: "@ + listing(stage::ids(stages)),
                ),
                Some(target) => if target.delegation is Some {
                    Some(
                        "stage `"@ + parent.id + "` delegates to `"@ + target.id
                            + "`, which delegates onwards to `"@ + target.delegation->0.target@
                            + "`; a delegation target must not delegate, and `"@ + target.id
                            + "` is invoked as evidence where its own delegation cannot run"@,
                    )
                } else if target.question_renderer is Some {
                    Some(
                        "stage `"@ + parent.id + "` delegates to `"@ + target.id
                            + "`, whose renderQuestion requires an explicit workflow host call"@,
                    )
                } else if target.output_contract.len() > 0 && target.output_schema is None {
                    Some(
                        "stage `"@ + parent.id + "` delegates to `"@ + target.id
                            + "`, whose output contract `"@ + target.output_contract
                            + "` has no outputSchema"@,
                    )
                } else if config::wider(
                    ceiling_of(target, profiles),
                    ceiling_of(parent, profiles),
                ) {
                    Some(
                        "stage `"@ + parent.id + "` delegates to more privileged target `"@
                            + target.id + "`"@,
                    )
                } else if delegation.evidence_contract@.len() > 0 && delegation.evidence_contract@
                    != target.output_contract {
                    Some(
                        "stage `"@ + parent.id + "` expects `"@ + delegation.evidence_contract@
                            + "` evidence from `"@ + target.id + "`, whose output contract is `"@
                            + target.output_contract + "`"@,
                    )
                } else {
                    None
                },
            }
        },
    }
}

/// Why each stage's delegation is refused.
pub open spec fn delegation_refusals(
    stages: Seq<StageView>,
    profiles: Seq<ProfileView>,
) -> spec_fn(int) -> Option<Seq<char>> {
    |i: int| delegation_refusal(stages, profiles, i)
}

/// Why a registry is refused: repeated ids first, then a profile, then a stage on its own account,
/// then a delegation.
pub open spec fn registry_refusal(
    stages: Seq<StageView>,
    profiles: Seq<ProfileView>,
    permitted: Seq<Seq<char>>,
) -> Option<Seq<char>> {
    let by_profile = error::first_refusal(profiles.len() as int, profile_refusals(profiles));
    let by_stage = error::first_refusal(
        stages.len() as int,
        stage_refusals(stages, profiles, permitted),
    );
    if !names::distinct(stage::ids(stages)) {
        Some("stage identifiers must be unique across configured workflows"@)
    } else if by_profile is Some {
        by_profile
    } else if by_stage is Some {
        by_stage
    } else {
        error::first_refusal(stages.len() as int, delegation_refusals(stages, profiles))
    }
}

fn check_stage(
    stages: &[Stage],
    profiles: &[AgentProfile],
    permitted: &[String],
    i: usize,
) -> (r: Result<(), PlanError>)
    requires
        i < stages@.len(),
    ensures
        error::refused(
            r,
            stage_refusal(
                text::views(stages@),
                text::views(profiles@),
                text::views(permitted@),
                i as int,
            ),
        ),
{
    let stage = &stages[i];
    assert(text::views(stages@)[i as int] == stage@);
    if is_gate(stage.id.as_str()) {
        let sorted = names::sort(ids_of(stages).as_slice());
        let mut m = "stage `".to_owned();
        m.append(stage.id.as_str());
        m.append("` claims internal fixed capability; valid stages: ");
        m.append(text::join(without_gates(sorted.as_slice()).as_slice(), ", ").as_str());
        return Err(PlanError::Configuration(m));
    }
    if matches!(policy::reserved(stage.id.as_str()), Some(Reserved::Record)) {
        let mut m = "stage `".to_owned();
        m.append(stage.id.as_str());
        m.append(
            "` conflicts with a checkpoint the run writes itself; choose a different stage identifier",
        );
        return Err(PlanError::Configuration(m));
    }
    let agents = profile_ids_of(profiles);
    if !text::contains(agents.as_slice(), stage.agent.as_str()) {
        let mut m = "stage `".to_owned();
        m.append(stage.id.as_str());
        m.append("` references unknown agent `");
        m.append(stage.agent.as_str());
        m.append("`; valid agents: ");
        m.append(print_names(agents.as_slice()).as_str());
        return Err(PlanError::Configuration(m));
    }
    if !machine_name(stage.id.as_str()) {
        let mut m = "stage `".to_owned();
        m.append(stage.id.as_str());
        m.append("` must use an underscore-separated identifier");
        return Err(PlanError::Configuration(m));
    }
    if let Some(governed_by) = &stage.governed_by {
        if !machine_name(governed_by.as_str()) {
            let mut m = "stage `".to_owned();
            m.append(stage.id.as_str());
            m.append("` governedBy `");
            m.append(governed_by.as_str());
            m.append("` must use an underscore-separated identifier");
            return Err(PlanError::Configuration(m));
        }
        if !text::contains(permitted, governed_by.as_str()) {
            let mut m = "stage `".to_owned();
            m.append(stage.id.as_str());
            m.append("` references unknown governedBy `");
            m.append(governed_by.as_str());
            m.append("`; valid governance identities: ");
            m.append(print_names(permitted).as_str());
            return Err(PlanError::Configuration(m));
        }
    }
    Ok(())
}

fn stage_ceiling(stage: &Stage, profiles: &[AgentProfile]) -> (r: Option<Capability>)
    ensures
        r == ceiling_of(stage@, text::views(profiles@)),
{
    let at: usize = stage::find_profile(profiles, stage.agent.as_str());
    if at < profiles.len() {
        stage.effective_ceiling(&profiles[at])
    } else {
        None
    }
}

fn check_delegation(stages: &[Stage], profiles: &[AgentProfile], i: usize) -> (r: Result<
    (),
    PlanError,
>)
    requires
        i < stages@.len(),
    ensures
        error::refused(
            r,
            delegation_refusal(text::views(stages@), text::views(profiles@), i as int),
        ),
{
    let parent = &stages[i];
    assert(text::views(stages@)[i as int] == parent@);
    let delegation = match &parent.delegation {
        None => return Ok(()),
        Some(delegation) => delegation,
    };
    if policy::folded_as_evidence(parent.id.as_str()) {
        let mut m = "stage `".to_owned();
        m.append(parent.id.as_str());
        m.append("` declares delegation but is ");
        m.append(policy::FOLDED_AS_EVIDENCE_BECAUSE);
        return Err(PlanError::Configuration(m));
    }
    let at: usize = stage::find_stage(stages, delegation.target.as_str());
    if at >= stages.len() {
        let mut m = "stage `".to_owned();
        m.append(parent.id.as_str());
        m.append("` delegates to unknown target `");
        m.append(delegation.target.as_str());
        m.append("`; valid stages: ");
        m.append(print_names(ids_of(stages).as_slice()).as_str());
        return Err(PlanError::Configuration(m));
    }
    let target = &stages[at];
    assert(text::views(stages@)[at as int] == target@);
    if let Some(onwards) = &target.delegation {
        let mut m = "stage `".to_owned();
        m.append(parent.id.as_str());
        m.append("` delegates to `");
        m.append(target.id.as_str());
        m.append("`, which delegates onwards to `");
        m.append(onwards.target.as_str());
        m.append("`; a delegation target must not delegate, and `");
        m.append(target.id.as_str());
        m.append("` is invoked as evidence where its own delegation cannot run");
        return Err(PlanError::Configuration(m));
    }
    if target.question_renderer.is_some() {
        let mut m = "stage `".to_owned();
        m.append(parent.id.as_str());
        m.append("` delegates to `");
        m.append(target.id.as_str());
        m.append("`, whose renderQuestion requires an explicit workflow host call");
        return Err(PlanError::Configuration(m));
    }
    if !target.output_contract.as_str().is_empty() && target.output_schema.is_none() {
        let mut m = "stage `".to_owned();
        m.append(parent.id.as_str());
        m.append("` delegates to `");
        m.append(target.id.as_str());
        m.append("`, whose output contract `");
        m.append(target.output_contract.as_str());
        m.append("` has no outputSchema");
        return Err(PlanError::Configuration(m));
    }
    if config::is_wider(stage_ceiling(target, profiles), stage_ceiling(parent, profiles)) {
        let mut m = "stage `".to_owned();
        m.append(parent.id.as_str());
        m.append("` delegates to more privileged target `");
        m.append(target.id.as_str());
        m.append("`");
        return Err(PlanError::Configuration(m));
    }
    if !delegation.evidence_contract.as_str().is_empty() && !text::same(
        delegation.evidence_contract.as_str(),
        target.output_contract.as_str(),
    ) {
        let mut m = "stage `".to_owned();
        m.append(parent.id.as_str());
        m.append("` expects `");
        m.append(delegation.evidence_contract.as_str());
        m.append("` evidence from `");
        m.append(target.id.as_str());
        m.append("`, whose output contract is `");
        m.append(target.output_contract.as_str());
        m.append("`");
        return Err(PlanError::Configuration(m));
    }
    Ok(())
}

fn check_profiles(profiles: &[AgentProfile]) -> (r: Result<(), PlanError>)
    ensures
        error::refused(
            r,
            error::first_refusal(profiles@.len() as int, profile_refusals(text::views(profiles@))),
        ),
{
    let ghost check = profile_refusals(text::views(profiles@));
    let mut i: usize = 0;
    while i < profiles.len()
        invariant
            i <= profiles@.len(),
            check == profile_refusals(text::views(profiles@)),
            error::first_refusal(i as int, check) is None,
        decreases profiles@.len() - i,
    {
        assert(check(i as int) == profile_refusal(profiles@[i as int]@));
        if is_gate(profiles[i].id.as_str()) {
            proof {
                error::the_first_refusal_decides(profiles@.len() as int, check, i as int);
            }
            let mut m = "agent `".to_owned();
            m.append(profiles[i].id.as_str());
            m.append(
                "` claims internal fixed capability; internal gates are not configurable agents",
            );
            return Err(PlanError::Configuration(m));
        }
        i += 1;
    }
    Ok(())
}

fn check_stages(stages: &[Stage], profiles: &[AgentProfile], permitted: &[String]) -> (r: Result<
    (),
    PlanError,
>)
    ensures
        error::refused(
            r,
            error::first_refusal(
                stages@.len() as int,
                stage_refusals(
                    text::views(stages@),
                    text::views(profiles@),
                    text::views(permitted@),
                ),
            ),
        ),
{
    let ghost check = stage_refusals(
        text::views(stages@),
        text::views(profiles@),
        text::views(permitted@),
    );
    let mut i: usize = 0;
    while i < stages.len()
        invariant
            i <= stages@.len(),
            check == stage_refusals(
                text::views(stages@),
                text::views(profiles@),
                text::views(permitted@),
            ),
            error::first_refusal(i as int, check) is None,
        decreases stages@.len() - i,
    {
        let judged = check_stage(stages, profiles, permitted, i);
        assert(error::refused(judged, check(i as int)));
        if judged.is_err() {
            proof {
                error::the_first_refusal_decides(stages@.len() as int, check, i as int);
            }
            return judged;
        }
        i += 1;
    }
    Ok(())
}

fn check_delegations(stages: &[Stage], profiles: &[AgentProfile]) -> (r: Result<(), PlanError>)
    ensures
        error::refused(
            r,
            error::first_refusal(
                stages@.len() as int,
                delegation_refusals(text::views(stages@), text::views(profiles@)),
            ),
        ),
{
    let ghost check = delegation_refusals(text::views(stages@), text::views(profiles@));
    let mut i: usize = 0;
    while i < stages.len()
        invariant
            i <= stages@.len(),
            check == delegation_refusals(text::views(stages@), text::views(profiles@)),
            error::first_refusal(i as int, check) is None,
        decreases stages@.len() - i,
    {
        let judged = check_delegation(stages, profiles, i);
        assert(error::refused(judged, check(i as int)));
        if judged.is_err() {
            proof {
                error::the_first_refusal_decides(stages@.len() as int, check, i as int);
            }
            return judged;
        }
        i += 1;
    }
    Ok(())
}

/// Reject invalid stage references before a workflow can start a model call.
pub fn validate(stages: &[Stage], profiles: &[AgentProfile], permitted_governance: &[String]) -> (r:
    Result<(), PlanError>)
    ensures
        error::refused(
            r,
            registry_refusal(
                text::views(stages@),
                text::views(profiles@),
                text::views(permitted_governance@),
            ),
        ),
{
    if !names::are_distinct(ids_of(stages).as_slice()) {
        return Err(
            PlanError::Configuration(
                "stage identifiers must be unique across configured workflows".to_owned(),
            ),
        );
    }
    let by_profile = check_profiles(profiles);
    if by_profile.is_err() {
        return by_profile;
    }
    let by_stage = check_stages(stages, profiles, permitted_governance);
    if by_stage.is_err() {
        return by_stage;
    }
    check_delegations(stages, profiles)
}

/// What an accepted registry is known to be: each id once and a machine name, no internal gate or
/// record of the run among the ids, every agent known, every governance identity permitted.
pub proof fn an_accepted_registry_is_sound(
    stages: Seq<StageView>,
    profiles: Seq<ProfileView>,
    permitted: Seq<Seq<char>>,
)
    requires
        registry_refusal(stages, profiles, permitted) is None,
    ensures
        names::distinct(stage::ids(stages)),
        forall|i: int| 0 <= i < profiles.len() ==> !gate((#[trigger] profiles[i]).id),
        forall|i: int|
            0 <= i < stages.len() ==> {
                let stage = #[trigger] stages[i];
                &&& machine_named(stage.id)
                &&& !gate(stage.id)
                &&& policy::reservation(stage.id) != Some(Reserved::Record)
                &&& stage::profile_named(profiles, stage.agent) is Some
                &&& stage.governed_by matches Some(identity) ==> machine_named(identity@)
                    && permitted.contains(identity@)
            },
{
    error::accepted_when_every_check_passes(profiles.len() as int, profile_refusals(profiles));
    error::accepted_when_every_check_passes(
        stages.len() as int,
        stage_refusals(stages, profiles, permitted),
    );
    assert forall|i: int| 0 <= i < profiles.len() implies !gate((#[trigger] profiles[i]).id) by {
        assert(profile_refusals(profiles)(i) is None);
    }
    assert forall|i: int| 0 <= i < stages.len() implies {
        let stage = #[trigger] stages[i];
        &&& machine_named(stage.id)
        &&& !gate(stage.id)
        &&& policy::reservation(stage.id) != Some(Reserved::Record)
        &&& stage::profile_named(profiles, stage.agent) is Some
        &&& stage.governed_by matches Some(identity) ==> machine_named(identity@)
            && permitted.contains(identity@)
    } by {
        assert(stage_refusals(stages, profiles, permitted)(i) is None);
        let agent = stages[i].agent;
        let k = choose|k: int| 0 <= k < profile_ids(profiles).len() && profile_ids(profiles)[k]
            == agent;
        stage::profile_index_is_first(profiles, agent);
        assert(profiles[k].id == agent);
    }
}

/// What an accepted delegation is known to be: its target is in the registry, is a different stage,
/// does not delegate in turn, needs no question rendered, may do no more than the stage that
/// delegates to it, and produces the evidence that is asked for. So delegation never chains, never
/// loops and never widens authority.
pub proof fn an_accepted_delegation_is_sound(
    stages: Seq<StageView>,
    profiles: Seq<ProfileView>,
    permitted: Seq<Seq<char>>,
    i: int,
)
    requires
        registry_refusal(stages, profiles, permitted) is None,
        0 <= i < stages.len(),
        stages[i].delegation is Some,
    ensures
        !policy::evidence(stages[i].id),
        target_of(stages, stages[i].delegation->0.target@) matches Some(target) && {
            &&& stages.contains(target)
            &&& target.id == stages[i].delegation->0.target@
            &&& target.id != stages[i].id
            &&& target.delegation is None
            &&& target.question_renderer is None
            &&& target.output_contract.len() > 0 ==> target.output_schema is Some
            &&& !config::wider(ceiling_of(target, profiles), ceiling_of(stages[i], profiles))
            &&& stages[i].delegation->0.evidence_contract@.len() > 0
                ==> stages[i].delegation->0.evidence_contract@ == target.output_contract
        },
{
    error::accepted_when_every_check_passes(
        stages.len() as int,
        delegation_refusals(stages, profiles),
    );
    assert(delegation_refusals(stages, profiles)(i) is None);
    let wanted = stages[i].delegation->0.target@;
    stage::stage_index_is_first(stages, stage::called(wanted));
    let at = stage::stage_index(stages, stage::called(wanted));
    let target = stages[at];
    if target.id == stages[i].id {
        assert(stage::ids(stages)[at] == stage::ids(stages)[i]);
        assert(at == i);
    }
}

/// The stages of a registry without repeated ids are found by id whatever order they stand in.
proof fn a_reordered_registry_holds_the_same(
    stages: Seq<StageView>,
    reordered: Seq<StageView>,
    id: Seq<char>,
)
    requires
        names::distinct(stage::ids(stages)),
        stages.to_multiset() == reordered.to_multiset(),
    ensures
        names::distinct(stage::ids(reordered)),
        forall|i: int| 0 <= i < reordered.len() ==> stages.contains(#[trigger] reordered[i]),
        target_of(reordered, id) == target_of(stages, id),
{
    stages.to_multiset_ensures();
    reordered.to_multiset_ensures();
    assert forall|i: int| 0 <= i < reordered.len() implies stages.contains(
        #[trigger] reordered[i],
    ) by {
        assert(reordered.contains(reordered[i]));
        assert(reordered.to_multiset().count(reordered[i]) > 0);
    }
    assert forall|i: int, j: int| 0 <= i < j < stages.len() implies stages[i] != stages[j] by {
        assert(stage::ids(stages)[i] != stage::ids(stages)[j]);
    }
    stages.lemma_multiset_has_no_duplicates();
    reordered.lemma_multiset_has_no_duplicates_conv();
    assert forall|i: int, j: int| 0 <= i < j < reordered.len() implies #[trigger] stage::ids(
        reordered,
    )[i] != #[trigger] stage::ids(reordered)[j] by {
        let a = choose|a: int| 0 <= a < stages.len() && stages[a] == reordered[i];
        let b = choose|b: int| 0 <= b < stages.len() && stages[b] == reordered[j];
        assert(a != b);
        assert(stage::ids(stages)[a] != stage::ids(stages)[b]);
    }
    let wanted = stage::called(id);
    stage::stage_index_is_first(stages, wanted);
    stage::stage_index_is_first(reordered, wanted);
    let at = stage::stage_index(stages, wanted);
    let there = stage::stage_index(reordered, wanted);
    if at < stages.len() {
        assert(stages.contains(stages[at]));
        assert(stages.to_multiset().count(stages[at]) > 0);
        let k = choose|k: int| 0 <= k < reordered.len() && reordered[k] == stages[at];
        assert(wanted(reordered[k]));
        assert(there < reordered.len());
        assert(stage::ids(reordered)[k] == stage::ids(reordered)[there]);
    } else if there < reordered.len() {
        let k = choose|k: int| 0 <= k < stages.len() && stages[k] == reordered[there];
        assert(wanted(stages[k]));
    }
}

proof fn a_reordered_registry_is_accepted(
    stages: Seq<StageView>,
    reordered: Seq<StageView>,
    profiles: Seq<ProfileView>,
    permitted: Seq<Seq<char>>,
)
    requires
        stages.to_multiset() == reordered.to_multiset(),
        registry_refusal(stages, profiles, permitted) is None,
    ensures
        registry_refusal(reordered, profiles, permitted) is None,
{
    let n = stages.len() as int;
    let by_stage = stage_refusals(stages, profiles, permitted);
    let by_delegation = delegation_refusals(stages, profiles);
    error::accepted_when_every_check_passes(n, by_stage);
    error::accepted_when_every_check_passes(n, by_delegation);
    let m = reordered.len() as int;
    let again_by_stage = stage_refusals(reordered, profiles, permitted);
    let again_by_delegation = delegation_refusals(reordered, profiles);
    error::accepted_when_every_check_passes(m, again_by_stage);
    error::accepted_when_every_check_passes(m, again_by_delegation);
    a_reordered_registry_holds_the_same(stages, reordered, Seq::empty());
    assert forall|i: int| 0 <= i < m implies #[trigger] again_by_stage(i) is None by {
        assert(stages.contains(reordered[i]));
        let k = choose|k: int| 0 <= k < n && stages[k] == reordered[i];
        assert(by_stage(k) is None);
    }
    assert forall|i: int| 0 <= i < m implies #[trigger] again_by_delegation(i) is None by {
        assert(stages.contains(reordered[i]));
        let k = choose|k: int| 0 <= k < n && stages[k] == reordered[i];
        assert(by_delegation(k) is None);
        if reordered[i].delegation is Some {
            a_reordered_registry_holds_the_same(
                stages,
                reordered,
                reordered[i].delegation->0.target@,
            );
        }
    }
}

/// Whether a registry is accepted does not depend on the order its stages stand in.
pub proof fn acceptance_ignores_the_order_of_stages(
    stages: Seq<StageView>,
    reordered: Seq<StageView>,
    profiles: Seq<ProfileView>,
    permitted: Seq<Seq<char>>,
)
    requires
        stages.to_multiset() == reordered.to_multiset(),
    ensures
        registry_refusal(stages, profiles, permitted) is None <==> registry_refusal(
            reordered,
            profiles,
            permitted,
        ) is None,
{
    if registry_refusal(stages, profiles, permitted) is None {
        a_reordered_registry_is_accepted(stages, reordered, profiles, permitted);
    }
    if registry_refusal(reordered, profiles, permitted) is None {
        a_reordered_registry_is_accepted(reordered, stages, profiles, permitted);
    }
}

/// Whether a stage's whole record arrives under its own id: it governs as itself and is checkpointed
/// rather than folded as evidence.
pub open spec fn drawn_as_itself(stage: StageView) -> bool {
    stage.governance() == stage.id && !policy::evidence(stage.id)
}

fn is_drawn_as_itself(stage: &Stage) -> (r: bool)
    ensures
        r == drawn_as_itself(stage@),
{
    text::same(stage.governance_id(), stage.id.as_str()) && !policy::folded_as_evidence(
        stage.id.as_str(),
    )
}

/// The ids of the stages whose whole record arrives under them.
pub open spec fn own_names(stages: Seq<StageView>) -> Seq<Seq<char>>
    decreases stages.len(),
{
    if stages.len() == 0 {
        Seq::empty()
    } else if drawn_as_itself(stages.last()) {
        own_names(stages.drop_last()).push(stages.last().id)
    } else {
        own_names(stages.drop_last())
    }
}

/// Every name a layout column may use: the run's own identities and the stages drawn as themselves.
pub open spec fn drawable(stages: Seq<StageView>) -> Seq<Seq<char>> {
    policy::drawable_identities() + own_names(stages)
}

/// The names a layout column may use.
fn drawable_names(stages: &[Stage]) -> (r: Vec<String>)
    ensures
        text::views(r@) == drawable(text::views(stages@)),
{
    let mut out = policy::checkpoint_identities();
    let ghost all = text::views(stages@);
    let mut i: usize = 0;
    assert(text::views(out@) =~= policy::drawable_identities() + own_names(all.take(0)));
    while i < stages.len()
        invariant
            i <= stages@.len(),
            all == text::views(stages@),
            text::views(out@) == policy::drawable_identities() + own_names(all.take(i as int)),
        decreases stages@.len() - i,
    {
        let ghost had = text::views(out@);
        if is_drawn_as_itself(&stages[i]) {
            out.push(stages[i].id.clone());
            assert(text::views(out@) =~= had.push(all[i as int].id));
        }
        i += 1;
        proof {
            assert(all.take(i as int).drop_last() =~= all.take(i - 1));
            assert(all.take(i as int).last() == all[i - 1]);
            assert(text::views(out@) =~= policy::drawable_identities() + own_names(
                all.take(i as int),
            ));
        }
    }
    assert(all.take(i as int) =~= all);
    out
}

/// A stage whose record is split between two names, one of which is `node`.
pub open spec fn split_over(node: Seq<char>) -> spec_fn(StageView) -> bool {
    |stage: StageView|
        stage.governance() != stage.id && !policy::evidence(stage.id) && (stage.id == node
            || stage.governance() == node)
}

fn find_split(stages: &[Stage], node: &str) -> (r: usize)
    ensures
        r == stage::stage_index(text::views(stages@), split_over(node@)),
        r <= stages@.len(),
{
    let ghost all = text::views(stages@);
    let mut i: usize = 0;
    assert(all.skip(0) =~= all);
    while i < stages.len()
        invariant
            i <= stages@.len(),
            all == text::views(stages@),
            stage::stage_index(all, split_over(node@)) == i + stage::stage_index(
                all.skip(i as int),
                split_over(node@),
            ),
        decreases stages@.len() - i,
    {
        let stage = &stages[i];
        assert(all.skip(i as int)[0] == stage@);
        let governed = stage.governance_id();
        if !text::same(governed, stage.id.as_str()) && !policy::folded_as_evidence(
            stage.id.as_str(),
        ) && (text::same(stage.id.as_str(), node) || text::same(governed, node)) {
            return i;
        }
        assert(all.skip(i as int).drop_first() =~= all.skip(i + 1));
        i += 1;
    }
    i
}

/// The names laid out by the columns of a layout, in order.
pub open spec fn laid_out(layout: Seq<WorkflowLayoutColumn>) -> Seq<Seq<char>>
    decreases layout.len(),
{
    if layout.len() == 0 {
        Seq::empty()
    } else {
        laid_out(layout.drop_last()) + text::views(layout.last().nodes@)
    }
}

/// Why one node of one column is refused.
pub open spec fn node_refusal(
    layout: Seq<WorkflowLayoutColumn>,
    stages: Seq<StageView>,
    workflow: Seq<char>,
    column: int,
    lane: int,
) -> Option<Seq<char>> {
    let nodes = text::views(layout[column].nodes@);
    let node = nodes[lane];
    let known = drawable(stages);
    let split = stage::stage_index(stages, split_over(node));
    if !known.contains(node) {
        if split < stages.len() {
            let id = stages[split].id;
            let governed = stages[split].governance();
            Some(
                "workflow `"@ + workflow + "` lays out node `"@ + node + "`, but stage `"@ + id
                    + "` is governedBy `"@ + governed + "`: its model events are recorded under `"@
                    + governed + "` and its checkpoint under `"@ + id
                    + "`, so neither name draws it whole. Drop `governedBy` from `"@ + id
                    + "` so the two agree, or lay out one of: "@ + listing(known),
            )
        } else {
            Some(
                "workflow `"@ + workflow + "` lays out node `"@ + node
                    + "`, which nothing it runs records under; nodes that can be drawn: "@
                    + listing(known),
            )
        }
    } else if (laid_out(layout.take(column)) + nodes.take(lane)).contains(node) {
        Some(
            "workflow `"@ + workflow + "` lays out node `"@ + node
                + "` more than once; a run records one box under that name, so the later column would replace the earlier"@,
        )
    } else {
        None
    }
}

/// Why each node of one column is refused.
pub open spec fn node_refusals(
    layout: Seq<WorkflowLayoutColumn>,
    stages: Seq<StageView>,
    workflow: Seq<char>,
    column: int,
) -> spec_fn(int) -> Option<Seq<char>> {
    |lane: int| node_refusal(layout, stages, workflow, column, lane)
}

/// Why one column is refused.
pub open spec fn column_refusal(
    layout: Seq<WorkflowLayoutColumn>,
    stages: Seq<StageView>,
    workflow: Seq<char>,
    column: int,
) -> Option<Seq<char>> {
    if layout[column].nodes@.len() == 0 {
        Some(
            "workflow `"@ + workflow + "` lays out an empty column at position "@ + text::decimal(
                column as nat,
            )
                + "; a column is the nodes drawn side by side in it, and one with none leaves a gap rather than placing anything"@,
        )
    } else {
        error::first_refusal(
            layout[column].nodes@.len() as int,
            node_refusals(layout, stages, workflow, column),
        )
    }
}

/// Why each column is refused.
pub open spec fn column_refusals(
    layout: Seq<WorkflowLayoutColumn>,
    stages: Seq<StageView>,
    workflow: Seq<char>,
) -> spec_fn(int) -> Option<Seq<char>> {
    |column: int| column_refusal(layout, stages, workflow, column)
}

/// Why a layout is refused: the first reason, column by column, top to bottom.
pub open spec fn layout_refusal(
    layout: Seq<WorkflowLayoutColumn>,
    stages: Seq<StageView>,
    workflow: Seq<char>,
) -> Option<Seq<char>> {
    error::first_refusal(layout.len() as int, column_refusals(layout, stages, workflow))
}

/// An accepted layout places something in every column, places each name once, and places no name
/// that nothing of the run records under: no box of it stays empty, and none replaces another.
pub proof fn an_accepted_layout_is_sound(
    layout: Seq<WorkflowLayoutColumn>,
    stages: Seq<StageView>,
    workflow: Seq<char>,
)
    requires
        layout_refusal(layout, stages, workflow) is None,
    ensures
        forall|i: int| 0 <= i < layout.len() ==> (#[trigger] layout[i]).nodes@.len() > 0,
        names::distinct(laid_out(layout)),
        forall|i: int|
            0 <= i < laid_out(layout).len() ==> drawable(stages).contains(
                #[trigger] laid_out(layout)[i],
            ),
{
    let columns = column_refusals(layout, stages, workflow);
    error::accepted_when_every_check_passes(layout.len() as int, columns);
    assert forall|i: int| 0 <= i < layout.len() implies (#[trigger] layout[i]).nodes@.len() > 0 by {
        assert(columns(i) is None);
    }
    accepted_columns_are_sound(layout, stages, workflow, layout.len() as int);
    assert(layout.take(layout.len() as int) =~= layout);
}

proof fn accepted_columns_are_sound(
    layout: Seq<WorkflowLayoutColumn>,
    stages: Seq<StageView>,
    workflow: Seq<char>,
    n: int,
)
    requires
        layout_refusal(layout, stages, workflow) is None,
        0 <= n <= layout.len(),
    ensures
        names::distinct(laid_out(layout.take(n))),
        forall|i: int|
            0 <= i < laid_out(layout.take(n)).len() ==> drawable(stages).contains(
                #[trigger] laid_out(layout.take(n))[i],
            ),
    decreases n,
{
    if n > 0 {
        let c = n - 1;
        accepted_columns_are_sound(layout, stages, workflow, c);
        let columns = column_refusals(layout, stages, workflow);
        let lanes = node_refusals(layout, stages, workflow, c);
        let before = laid_out(layout.take(c));
        let nodes = text::views(layout[c].nodes@);
        error::accepted_when_every_check_passes(layout.len() as int, columns);
        assert(columns(c) is None);
        error::accepted_when_every_check_passes(nodes.len() as int, lanes);
        assert(layout.take(n).drop_last() =~= layout.take(c));
        let all = laid_out(layout.take(n));
        assert(all == before + nodes);
        assert forall|i: int| 0 <= i < all.len() implies drawable(stages).contains(
            #[trigger] all[i],
        ) by {
            if i >= before.len() {
                assert(lanes(i - before.len()) is None);
            } else {
                assert(all[i] == before[i]);
            }
        }
        assert forall|i: int, j: int| 0 <= i < j < all.len() implies #[trigger] all[i]
            != #[trigger] all[j] by {
            if j >= before.len() {
                let lane = j - before.len();
                assert(lanes(lane) is None);
                let earlier = before + nodes.take(lane);
                assert(earlier[i] == all[i]);
                assert(!earlier.contains(all[j]));
            } else {
                assert(before[i] != before[j]);
            }
        }
    }
}

fn refuse_unknown(stages: &[Stage], known: &[String], workflow: &str, node: &str) -> (r: String)
    requires
        text::views(known@) == drawable(text::views(stages@)),
    ensures
        ({
            let all = text::views(stages@);
            let split = stage::stage_index(all, split_over(node@));
            r@ == if split < all.len() {
                let id = all[split].id;
                let governed = all[split].governance();
                "workflow `"@ + workflow@ + "` lays out node `"@ + node@ + "`, but stage `"@ + id
                    + "` is governedBy `"@ + governed + "`: its model events are recorded under `"@
                    + governed + "` and its checkpoint under `"@ + id
                    + "`, so neither name draws it whole. Drop `governedBy` from `"@ + id
                    + "` so the two agree, or lay out one of: "@ + listing(drawable(all))
            } else {
                "workflow `"@ + workflow@ + "` lays out node `"@ + node@
                    + "`, which nothing it runs records under; nodes that can be drawn: "@
                    + listing(drawable(all))
            }
        }),
{
    let split: usize = find_split(stages, node);
    let mut m = "workflow `".to_owned();
    m.append(workflow);
    m.append("` lays out node `");
    m.append(node);
    if split < stages.len() {
        let stage = &stages[split];
        m.append("`, but stage `");
        m.append(stage.id.as_str());
        m.append("` is governedBy `");
        m.append(stage.governance_id());
        m.append("`: its model events are recorded under `");
        m.append(stage.governance_id());
        m.append("` and its checkpoint under `");
        m.append(stage.id.as_str());
        m.append("`, so neither name draws it whole. Drop `governedBy` from `");
        m.append(stage.id.as_str());
        m.append("` so the two agree, or lay out one of: ");
    } else {
        m.append("`, which nothing it runs records under; nodes that can be drawn: ");
    }
    m.append(print_names(known).as_str());
    m
}

/// Refuse a layout column naming a node the run has no way to produce.
///
/// The layout is what a viewer places a run's records against, so a name nothing records under is a
/// box that stays empty forever. A run records one node's work under *two* names: model events under
/// the stage's governance identity and the checkpoint under its id. A column may only name something
/// both halves arrive under: a stage that governs as itself and is checkpointed, or an identity the
/// run itself checkpoints under. A name may appear once, and a column holds at least one.
pub fn validate_layout(layout: &[WorkflowLayoutColumn], stages: &[Stage], workflow: &str) -> (r:
    Result<(), PlanError>)
    ensures
        error::refused(r, layout_refusal(layout@, text::views(stages@), workflow@)),
{
    let ghost all = text::views(stages@);
    let ghost columns = column_refusals(layout@, all, workflow@);
    let known = drawable_names(stages);
    let mut placed: Vec<String> = Vec::new();
    let mut column: usize = 0;
    assert(text::views(placed@) =~= laid_out(layout@.take(0)));
    while column < layout.len()
        invariant
            column <= layout@.len(),
            all == text::views(stages@),
            columns == column_refusals(layout@, all, workflow@),
            text::views(known@) == drawable(all),
            text::views(placed@) == laid_out(layout@.take(column as int)),
            error::first_refusal(column as int, columns) is None,
        decreases layout@.len() - column,
    {
        let nodes = &layout[column].nodes;
        assert(columns(column as int) == column_refusal(layout@, all, workflow@, column as int));
        if nodes.len() == 0 {
            proof {
                error::the_first_refusal_decides(layout@.len() as int, columns, column as int);
            }
            let mut m = "workflow `".to_owned();
            m.append(workflow);
            m.append("` lays out an empty column at position ");
            m.append(text::number(column as u64).as_str());
            m.append(
                "; a column is the nodes drawn side by side in it, and one with none leaves a gap rather than placing anything",
            );
            return Err(PlanError::Configuration(m));
        }
        let ghost before = text::views(placed@);
        let ghost named = text::views(nodes@);
        let ghost lanes = node_refusals(layout@, all, workflow@, column as int);
        let mut lane: usize = 0;
        assert(before + named.take(0) =~= before);
        while lane < nodes.len()
            invariant
                column < layout@.len(),
                nodes == &layout@[column as int].nodes,
                lane <= nodes@.len(),
                nodes@.len() > 0,
                all == text::views(stages@),
                named == text::views(nodes@),
                before == laid_out(layout@.take(column as int)),
                columns == column_refusals(layout@, all, workflow@),
                lanes == node_refusals(layout@, all, workflow@, column as int),
                columns(column as int) == error::first_refusal(nodes@.len() as int, lanes),
                text::views(known@) == drawable(all),
                text::views(placed@) == before + named.take(lane as int),
                error::first_refusal(column as int, columns) is None,
                error::first_refusal(lane as int, lanes) is None,
            decreases nodes@.len() - lane,
        {
            let node = &nodes[lane];
            assert(named[lane as int] == node@);
            assert(lanes(lane as int) == node_refusal(
                layout@,
                all,
                workflow@,
                column as int,
                lane as int,
            ));
            if !text::contains(known.as_slice(), node.as_str()) {
                proof {
                    error::the_first_refusal_decides(nodes@.len() as int, lanes, lane as int);
                    error::the_first_refusal_decides(layout@.len() as int, columns, column as int);
                }
                return Err(
                    PlanError::Configuration(
                        refuse_unknown(stages, known.as_slice(), workflow, node.as_str()),
                    ),
                );
            }
            if text::contains(placed.as_slice(), node.as_str()) {
                proof {
                    error::the_first_refusal_decides(nodes@.len() as int, lanes, lane as int);
                    error::the_first_refusal_decides(layout@.len() as int, columns, column as int);
                }
                let mut m = "workflow `".to_owned();
                m.append(workflow);
                m.append("` lays out node `");
                m.append(node.as_str());
                m.append(
                    "` more than once; a run records one box under that name, so the later column would replace the earlier",
                );
                return Err(PlanError::Configuration(m));
            }
            let ghost had = text::views(placed@);
            placed.push(node.clone());
            proof {
                assert(text::views(placed@) =~= had.push(node@));
                assert(before + named.take(lane + 1) =~= (before + named.take(lane as int)).push(
                    node@,
                ));
            }
            lane += 1;
        }
        column += 1;
        proof {
            assert(named.take(lane as int) =~= named);
            assert(layout@.take(column as int).drop_last() =~= layout@.take(column - 1));
        }
    }
    Ok(())
}

/// Why the contract one stage declares is refused.
pub open spec fn contract_refusal(stage: StageView) -> Option<Seq<char>> {
    match stage.output_schema {
        None => if stage.output_contract.len() > 0 {
            Some(
                "stage `"@ + stage.id + "` declares output contract `"@ + stage.output_contract
                    + "` without outputSchema"@,
            )
        } else {
            None
        },
        Some(schema) => match schema.report {
            Some(report) if "output failed schema validation: could not compile"@.is_prefix_of(
                report@,
            ) => Some("stage `"@ + stage.id + "` has invalid outputSchema: "@ + report@),
            _ => None,
        },
    }
}

/// Why each stage's contract is refused.
pub open spec fn contract_refusals(stages: Seq<StageView>) -> spec_fn(int) -> Option<Seq<char>> {
    |i: int| contract_refusal(stages[i])
}

fn check_contract(stage: &Stage) -> (r: Result<(), PlanError>)
    ensures
        error::refused(r, contract_refusal(stage@)),
{
    match &stage.output_schema {
        None => {
            if !stage.output_contract.as_str().is_empty() {
                let mut m = "stage `".to_owned();
                m.append(stage.id.as_str());
                m.append("` declares output contract `");
                m.append(stage.output_contract.as_str());
                m.append("` without outputSchema");
                return Err(PlanError::Configuration(m));
            }
        },
        Some(schema) => {
            if let Some(report) = &schema.report {
                if text::starts_with(
                    report.as_str(),
                    "output failed schema validation: could not compile",
                ) {
                    let mut m = "stage `".to_owned();
                    m.append(stage.id.as_str());
                    m.append("` has invalid outputSchema: ");
                    m.append(report.as_str());
                    return Err(PlanError::Configuration(m));
                }
            }
        },
    }
    Ok(())
}

/// A declared output contract needs the JSON Schema that makes its name enforceable, and a schema
/// that compiles: a malformed declaration is refused here rather than reaching a model call.
pub fn validate_declared_contracts(stages: &[Stage]) -> (r: Result<(), PlanError>)
    ensures
        error::refused(
            r,
            error::first_refusal(stages@.len() as int, contract_refusals(text::views(stages@))),
        ),
{
    let ghost check = contract_refusals(text::views(stages@));
    let mut i: usize = 0;
    while i < stages.len()
        invariant
            i <= stages@.len(),
            check == contract_refusals(text::views(stages@)),
            error::first_refusal(i as int, check) is None,
        decreases stages@.len() - i,
    {
        let judged = check_contract(&stages[i]);
        assert(error::refused(judged, check(i as int)));
        if judged.is_err() {
            proof {
                error::the_first_refusal_decides(stages@.len() as int, check, i as int);
            }
            return judged;
        }
        i += 1;
    }
    Ok(())
}

/// A workflow's declarations are accepted exactly when no id is declared twice, none is a name the run
/// owns, every one whose output the run reads declares exactly the contract it is read as (an override
/// that declares none is refused with the rest), and none is governed under a name reserved against
/// that.
pub proof fn declarations_are_accepted_exactly_when_they_keep_what_the_run_owns(
    stages: Seq<StageView>,
    workflow: Seq<char>,
)
    ensures
        declarations_refusal(stages, workflow) is None <==> {
            &&& forall|i: int, j: int|
                0 <= i < j < stages.len() ==> (#[trigger] stages[i]).id != (#[trigger] stages[j]).id
            &&& forall|i: int|
                0 <= i < stages.len() ==> policy::reservation((#[trigger] stages[i]).id) is None
            &&& forall|i: int|
                0 <= i < stages.len() && policy::contract_of((#[trigger] stages[i]).id) is Some
                    ==> stages[i].output_contract == policy::contract_of(stages[i].id)->0@
            &&& forall|i: int|
                0 <= i < stages.len() && (#[trigger] stages[i]).governed_by is Some
                    ==> policy::governance_reservation(stages[i].governed_by->0@) is None
        },
{
    let check = declaration_refusals(stages, workflow);
    error::accepted_when_every_check_passes(stages.len() as int, check);
    assert forall|j: int| 0 <= j < stages.len() implies (#[trigger] check(j) is None <==> {
        &&& forall|i: int| 0 <= i < j ==> (#[trigger] stages[i]).id != stages[j].id
        &&& policy::reservation(stages[j].id) is None
        &&& policy::contract_of(stages[j].id) is Some ==> stages[j].output_contract
            == policy::contract_of(stages[j].id)->0@
        &&& stages[j].governed_by is Some ==> policy::governance_reservation(
            stages[j].governed_by->0@,
        ) is None
    }) by {
        let earlier = stage::ids(stages).take(j);
        if earlier.contains(stages[j].id) {
            let i = choose|i: int| 0 <= i < earlier.len() && earlier[i] == stages[j].id;
            assert(stages[i].id == stages[j].id);
        }
        if exists|i: int| 0 <= i < j && (#[trigger] stages[i]).id == stages[j].id {
            let i = choose|i: int| 0 <= i < j && (#[trigger] stages[i]).id == stages[j].id;
            assert(earlier[i] == stages[j].id);
        }
    }
    if declarations_refusal(stages, workflow) is None {
        assert forall|i: int, j: int| 0 <= i < j < stages.len() implies (#[trigger] stages[i]).id
            != (#[trigger] stages[j]).id by {
            assert(check(j) is None);
        }
        assert forall|j: int| 0 <= j < stages.len() implies policy::reservation(
            (#[trigger] stages[j]).id,
        ) is None by {
            assert(check(j) is None);
        }
        assert forall|j: int|
            0 <= j < stages.len() && policy::contract_of(
                (#[trigger] stages[j]).id,
            ) is Some implies stages[j].output_contract == policy::contract_of(stages[j].id)->0@ by {
            assert(check(j) is None);
        }
        assert forall|j: int|
            0 <= j < stages.len() && (#[trigger] stages[j]).governed_by is Some implies policy::governance_reservation(
            stages[j].governed_by->0@) is None by {
            assert(check(j) is None);
        }
    }
}

/// Contracts are accepted exactly when every stage that declares one declares its schema too, and no
/// schema is reported not to compile.
pub proof fn contracts_are_accepted_exactly_when_enforceable(stages: Seq<StageView>)
    ensures
        error::first_refusal(stages.len() as int, contract_refusals(stages)) is None <==> forall|i: int|
            0 <= i < stages.len() ==> {
                &&& (#[trigger] stages[i]).output_contract.len() > 0 ==> stages[i].output_schema is Some
                &&& stages[i].output_schema is Some && stages[i].output_schema->0.report is Some
                    ==> !"output failed schema validation: could not compile"@.is_prefix_of(
                    stages[i].output_schema->0.report->0@,
                )
            },
{
    let check = contract_refusals(stages);
    error::accepted_when_every_check_passes(stages.len() as int, check);
    assert forall|i: int| 0 <= i < stages.len() implies (#[trigger] check(i) is None <==> {
        &&& stages[i].output_contract.len() > 0 ==> stages[i].output_schema is Some
        &&& stages[i].output_schema is Some && stages[i].output_schema->0.report is Some
            ==> !"output failed schema validation: could not compile"@.is_prefix_of(
            stages[i].output_schema->0.report->0@,
        )
    }) by {}
    if error::first_refusal(stages.len() as int, check) is None {
        assert forall|i: int| 0 <= i < stages.len() implies {
            &&& (#[trigger] stages[i]).output_contract.len() > 0 ==> stages[i].output_schema is Some
            &&& stages[i].output_schema is Some && stages[i].output_schema->0.report is Some
                ==> !"output failed schema validation: could not compile"@.is_prefix_of(
                stages[i].output_schema->0.report->0@,
            )
        } by {
            assert(check(i) is None);
        }
    }
}

/// A machine name is made of lower-case letters, digits and underscores, and of at least one.
pub proof fn a_machine_name_is_lower_case_digits_and_underscores(value: Seq<char>)
    ensures
        machine_named(value) <==> value.len() > 0 && forall|i: int|
            0 <= i < value.len() ==> ('a' <= #[trigger] value[i] && value[i] <= 'z') || ('0'
                <= value[i] && value[i] <= '9') || value[i] == '_',
{
}

/// Whether one stage of a registry may stand in it, on its own account.
pub open spec fn stands(stage: StageView, profiles: Seq<ProfileView>, permitted: Seq<Seq<char>>) -> bool {
    &&& stage.id != "referee"@
    &&& stage.id != "issue"@ && stage.id != "clarification"@
    &&& exists|k: int| 0 <= k < profiles.len() && (#[trigger] profiles[k]).id == stage.agent
    &&& machine_named(stage.id)
    &&& stage.governed_by is Some ==> {
        &&& machine_named(stage.governed_by->0@)
        &&& exists|k: int|
            0 <= k < permitted.len() && #[trigger] permitted[k] == stage.governed_by->0@
    }
}

/// Whether a delegation from one stage of a registry to another can be carried out.
pub open spec fn delegates(
    parent: StageView,
    target: StageView,
    profiles: Seq<ProfileView>,
) -> bool {
    let asked = parent.delegation->0;
    &&& target.id == asked.target@
    &&& parent.id != "redteam_author"@ && parent.id != "implementer_attempt"@
    &&& target.delegation is None
    &&& target.question_renderer is None
    &&& target.output_contract.len() > 0 ==> target.output_schema is Some
    &&& !config::wider(
        match stage::profile_named(profiles, target.agent) {
            Some(profile) => target.effective_ceiling(profile),
            None => None,
        },
        match stage::profile_named(profiles, parent.agent) {
            Some(profile) => parent.effective_ceiling(profile),
            None => None,
        },
    )
    &&& asked.evidence_contract@.len() > 0 ==> asked.evidence_contract@ == target.output_contract
}

/// A registry is accepted exactly when no id is there twice, no agent is an internal gate, every stage
/// may stand in it, and every delegation is to some stage of it that it can be carried out with.
pub proof fn a_registry_is_accepted_exactly_when_it_can_run(
    stages: Seq<StageView>,
    profiles: Seq<ProfileView>,
    permitted: Seq<Seq<char>>,
)
    ensures
        registry_refusal(stages, profiles, permitted) is None <==> {
            &&& forall|i: int, j: int|
                0 <= i < j < stages.len() ==> (#[trigger] stages[i]).id != (#[trigger] stages[j]).id
            &&& forall|i: int| 0 <= i < profiles.len() ==> (#[trigger] profiles[i]).id != "referee"@
            &&& forall|i: int|
                0 <= i < stages.len() ==> stands(#[trigger] stages[i], profiles, permitted)
            &&& forall|i: int|
                0 <= i < stages.len() && (#[trigger] stages[i]).delegation is Some ==> exists|t: int|
                    0 <= t < stages.len() && delegates(stages[i], #[trigger] stages[t], profiles)
        },
{
    let n = stages.len() as int;
    let by_profile = profile_refusals(profiles);
    let by_stage = stage_refusals(stages, profiles, permitted);
    let by_delegation = delegation_refusals(stages, profiles);
    error::accepted_when_every_check_passes(profiles.len() as int, by_profile);
    error::accepted_when_every_check_passes(n, by_stage);
    error::accepted_when_every_check_passes(n, by_delegation);
    assert(names::distinct(stage::ids(stages)) <==> forall|i: int, j: int|
        0 <= i < j < n ==> (#[trigger] stages[i]).id != (#[trigger] stages[j]).id) by {
        if names::distinct(stage::ids(stages)) {
            assert forall|i: int, j: int| 0 <= i < j < n implies (#[trigger] stages[i]).id != (
            #[trigger] stages[j]).id by {
                assert(stage::ids(stages)[i] != stage::ids(stages)[j]);
            }
        }
    }
    assert forall|i: int| 0 <= i < profiles.len() implies (#[trigger] by_profile(i) is None
        <==> profiles[i].id != "referee"@) by {
        policy::who_owns_each_name(profiles[i].id);
    }
    assert forall|i: int| 0 <= i < n implies (#[trigger] by_stage(i) is None <==> stands(
        stages[i],
        profiles,
        permitted,
    )) by {
        one_stage_stands(stages, profiles, permitted, i);
    }
    if names::distinct(stage::ids(stages)) {
        assert forall|i: int| 0 <= i < n implies (#[trigger] by_delegation(i) is None <==> (
        stages[i].delegation is Some ==> exists|t: int|
            0 <= t < n && delegates(stages[i], #[trigger] stages[t], profiles))) by {
            one_delegation_is_carried_out(stages, profiles, i);
        }
    }
    if registry_refusal(stages, profiles, permitted) is None {
        assert forall|i: int| 0 <= i < profiles.len() implies (#[trigger] profiles[i]).id
            != "referee"@ by {
            assert(by_profile(i) is None);
        }
        assert forall|i: int| 0 <= i < n implies stands(#[trigger] stages[i], profiles, permitted) by {
            assert(by_stage(i) is None);
        }
        assert forall|i: int|
            0 <= i < n && (#[trigger] stages[i]).delegation is Some implies exists|t: int|
            0 <= t < n && delegates(stages[i], #[trigger] stages[t], profiles) by {
            assert(by_delegation(i) is None);
        }
    }
}

proof fn one_stage_stands(
    stages: Seq<StageView>,
    profiles: Seq<ProfileView>,
    permitted: Seq<Seq<char>>,
    i: int,
)
    requires
        0 <= i < stages.len(),
    ensures
        stage_refusal(stages, profiles, permitted, i) is None <==> stands(
            stages[i],
            profiles,
            permitted,
        ),
{
    let stage = stages[i];
    policy::who_owns_each_name(stage.id);
    let own = profile_ids(profiles);
    if own.contains(stage.agent) {
        let k = choose|k: int| 0 <= k < own.len() && own[k] == stage.agent;
        assert(profiles[k].id == stage.agent);
    }
    if exists|k: int| 0 <= k < profiles.len() && (#[trigger] profiles[k]).id == stage.agent {
        let k = choose|k: int| 0 <= k < profiles.len() && (#[trigger] profiles[k]).id == stage.agent;
        assert(own[k] == stage.agent);
    }
}

proof fn one_delegation_is_carried_out(
    stages: Seq<StageView>,
    profiles: Seq<ProfileView>,
    i: int,
)
    requires
        0 <= i < stages.len(),
        names::distinct(stage::ids(stages)),
    ensures
        delegation_refusal(stages, profiles, i) is None <==> (stages[i].delegation is Some
            ==> exists|t: int|
            0 <= t < stages.len() && delegates(stages[i], #[trigger] stages[t], profiles)),
{
    let parent = stages[i];
    policy::who_owns_each_name(parent.id);
    if parent.delegation is Some {
        let wanted = parent.delegation->0.target@;
        stage::stage_index_is_first(stages, stage::called(wanted));
        let at = stage::stage_index(stages, stage::called(wanted));
        if delegation_refusal(stages, profiles, i) is None {
            assert(stage::called(wanted)(stages[at]));
            assert(delegates(parent, stages[at], profiles));
        }
        if exists|t: int| 0 <= t < stages.len() && delegates(parent, #[trigger] stages[t], profiles) {
            let t = choose|t: int|
                0 <= t < stages.len() && delegates(parent, #[trigger] stages[t], profiles);
            assert(stage::called(wanted)(stages[t]));
            assert(at <= t);
            assert(stages[at].id == wanted);
            if at < t {
                assert(stage::ids(stages)[at] != stage::ids(stages)[t]);
            }
        }
    }
}

/// Whether everything a run records of something arrives under this one name: the run's own
/// checkpoints and events do, under the names it keeps for them; and those of a stage do, under its
/// id, where it is governed as itself and is not folded into another's record.
pub open spec fn arrives_whole(stages: Seq<StageView>, name: Seq<char>) -> bool {
    ||| name == "context"@ || name == "implementer"@ || name == "redteam"@ || name == "red_team"@
        || name == "memory"@
    ||| exists|i: int|
        {
            &&& 0 <= i < stages.len()
            &&& (#[trigger] stages[i]).id == name
            &&& stages[i].governed_by is None || stages[i].governed_by->0@ == name
            &&& name != "redteam_author"@ && name != "implementer_attempt"@
        }
}

/// What can be drawn is exactly what arrives whole under one name.
pub proof fn what_can_be_drawn_arrives_whole(stages: Seq<StageView>, name: Seq<char>)
    ensures
        drawable(stages).contains(name) <==> arrives_whole(stages, name),
{
    let run = policy::drawable_identities();
    let own = own_names(stages);
    let all = drawable(stages);
    own_names_are_gathered(stages, name);
    assert(run[0] == "context"@ && run[1] == "implementer"@ && run[2] == "redteam"@);
    assert(run[3] == "red_team"@ && run[4] == "memory"@);
    if all.contains(name) {
        let k = choose|k: int| 0 <= k < all.len() && all[k] == name;
        if k >= run.len() {
            assert(own[k - run.len()] == name);
        }
    }
    if own.contains(name) {
        let k = choose|k: int| 0 <= k < own.len() && own[k] == name;
        assert(all[run.len() + k] == name);
    }
    if run.contains(name) {
        let k = choose|k: int| 0 <= k < run.len() && run[k] == name;
        assert(all[k] == name);
    }
}

proof fn own_names_are_gathered(stages: Seq<StageView>, name: Seq<char>)
    ensures
        own_names(stages).contains(name) <==> exists|i: int|
            {
                &&& 0 <= i < stages.len()
                &&& (#[trigger] stages[i]).id == name
                &&& stages[i].governed_by is None || stages[i].governed_by->0@ == name
                &&& name != "redteam_author"@ && name != "implementer_attempt"@
            },
    decreases stages.len(),
{
    if stages.len() > 0 {
        let front = stages.drop_last();
        let n = front.len() as int;
        let before = own_names(front);
        let all = own_names(stages);
        own_names_are_gathered(front, name);
        policy::who_owns_each_name(stages.last().id);
        assert(stages[n] == stages.last());
        assert forall|i: int| 0 <= i < n implies #[trigger] stages[i] == front[i] by {}
        if all.contains(name) {
            let k = choose|k: int| 0 <= k < all.len() && all[k] == name;
            if k < before.len() {
                assert(before[k] == name);
                let i = choose|i: int|
                    {
                        &&& 0 <= i < front.len()
                        &&& (#[trigger] front[i]).id == name
                        &&& front[i].governed_by is None || front[i].governed_by->0@ == name
                        &&& name != "redteam_author"@ && name != "implementer_attempt"@
                    };
                assert(stages[i].id == name);
            } else {
                assert(stages[n].id == name);
            }
        }
        if before.contains(name) {
            let k = choose|k: int| 0 <= k < before.len() && before[k] == name;
            assert(all[k] == name);
        }
        if stages[n].id == name && drawn_as_itself(stages[n]) {
            assert(all[before.len() as int] == name);
        }
    }
}

proof fn what_is_laid_out_stands_somewhere(layout: Seq<WorkflowLayoutColumn>, name: Seq<char>)
    ensures
        laid_out(layout).contains(name) <==> exists|c: int|
            0 <= c < layout.len() && text::named((#[trigger] layout[c]).nodes@, name),
    decreases layout.len(),
{
    if layout.len() > 0 {
        let front = layout.drop_last();
        let n = front.len() as int;
        let before = laid_out(front);
        let here = text::views(layout[n].nodes@);
        let all = laid_out(layout);
        what_is_laid_out_stands_somewhere(front, name);
        text::named_somewhere(layout[n].nodes@, name);
        assert(all == before + here);
        if all.contains(name) {
            let k = choose|k: int| 0 <= k < all.len() && all[k] == name;
            if k < before.len() {
                assert(before[k] == name);
                let c = choose|c: int|
                    0 <= c < front.len() && text::named((#[trigger] front[c]).nodes@, name);
                assert(text::named(layout[c].nodes@, name));
            } else {
                assert(here[k - before.len()] == name);
            }
        }
        if exists|c: int| 0 <= c < layout.len() && text::named((#[trigger] layout[c]).nodes@, name) {
            let c = choose|c: int|
                0 <= c < layout.len() && text::named((#[trigger] layout[c]).nodes@, name);
            if c < n {
                assert(text::named(front[c].nodes@, name));
                let k = choose|k: int| 0 <= k < before.len() && before[k] == name;
                assert(all[k] == name);
            } else {
                let k = choose|k: int| 0 <= k < here.len() && here[k] == name;
                assert(all[before.len() + k] == name);
            }
        }
    }
}

/// Whether a name is laid out before a place of a layout: in an earlier column, or above in the same.
pub open spec fn laid_out_before(
    layout: Seq<WorkflowLayoutColumn>,
    column: int,
    lane: int,
    name: Seq<char>,
) -> bool {
    ||| exists|c: int| 0 <= c < column && text::named((#[trigger] layout[c]).nodes@, name)
    ||| exists|l: int| 0 <= l < lane && (#[trigger] layout[column].nodes@[l])@ == name
}

/// A layout is accepted exactly when no column of it is empty, every name it places arrives whole, and
/// no name is placed that was placed before it.
pub proof fn a_layout_is_accepted_exactly_when_every_box_fills_once(
    layout: Seq<WorkflowLayoutColumn>,
    stages: Seq<StageView>,
    workflow: Seq<char>,
)
    ensures
        layout_refusal(layout, stages, workflow) is None <==> {
            &&& forall|c: int| 0 <= c < layout.len() ==> (#[trigger] layout[c]).nodes@.len() > 0
            &&& forall|c: int, l: int|
                0 <= c < layout.len() && 0 <= l < layout[c].nodes@.len() ==> {
                    let name = (#[trigger] layout[c].nodes@[l])@;
                    arrives_whole(stages, name) && !laid_out_before(layout, c, l, name)
                }
        },
{
    let columns = column_refusals(layout, stages, workflow);
    error::accepted_when_every_check_passes(layout.len() as int, columns);
    assert forall|c: int| 0 <= c < layout.len() implies (#[trigger] columns(c) is None <==> {
        &&& layout[c].nodes@.len() > 0
        &&& forall|l: int|
            0 <= l < layout[c].nodes@.len() ==> {
                let name = (#[trigger] layout[c].nodes@[l])@;
                arrives_whole(stages, name) && !laid_out_before(layout, c, l, name)
            }
    }) by {
        one_column_is_accepted(layout, stages, workflow, c);
    }
    if layout_refusal(layout, stages, workflow) is None {
        assert forall|c: int| 0 <= c < layout.len() implies (#[trigger] layout[c]).nodes@.len() > 0 by {
            assert(columns(c) is None);
        }
        assert forall|c: int, l: int|
            0 <= c < layout.len() && 0 <= l < layout[c].nodes@.len() implies {
            let name = (#[trigger] layout[c].nodes@[l])@;
            arrives_whole(stages, name) && !laid_out_before(layout, c, l, name)
        } by {
            assert(columns(c) is None);
        }
    }
}

proof fn one_column_is_accepted(
    layout: Seq<WorkflowLayoutColumn>,
    stages: Seq<StageView>,
    workflow: Seq<char>,
    c: int,
)
    requires
        0 <= c < layout.len(),
    ensures
        column_refusal(layout, stages, workflow, c) is None <==> {
            &&& layout[c].nodes@.len() > 0
            &&& forall|l: int|
                0 <= l < layout[c].nodes@.len() ==> {
                    let name = (#[trigger] layout[c].nodes@[l])@;
                    arrives_whole(stages, name) && !laid_out_before(layout, c, l, name)
                }
        },
{
    let lanes = node_refusals(layout, stages, workflow, c);
    let nodes = layout[c].nodes@;
    error::accepted_when_every_check_passes(nodes.len() as int, lanes);
    assert forall|l: int| 0 <= l < nodes.len() implies (#[trigger] lanes(l) is None <==> (
    arrives_whole(stages, nodes[l]@) && !laid_out_before(layout, c, l, nodes[l]@))) by {
        one_box_is_accepted(layout, stages, workflow, c, l);
    }
    if column_refusal(layout, stages, workflow, c) is None {
        assert forall|l: int| 0 <= l < nodes.len() implies {
            let name = (#[trigger] layout[c].nodes@[l])@;
            arrives_whole(stages, name) && !laid_out_before(layout, c, l, name)
        } by {
            assert(lanes(l) is None);
        }
    }
}

/// Which names may be governed by counts only as a set.
pub proof fn permission_is_by_name(
    stages: Seq<StageView>,
    profiles: Seq<ProfileView>,
    a: Seq<Seq<char>>,
    b: Seq<Seq<char>>,
)
    requires
        forall|name: Seq<char>| #[trigger] a.contains(name) <==> b.contains(name),
    ensures
        registry_refusal(stages, profiles, a) is None <==> registry_refusal(stages, profiles, b) is None,
{
    a_registry_is_accepted_exactly_when_it_can_run(stages, profiles, a);
    a_registry_is_accepted_exactly_when_it_can_run(stages, profiles, b);
    assert forall|i: int| 0 <= i < stages.len() implies stands(#[trigger] stages[i], profiles, a)
        == stands(stages[i], profiles, b) by {
        if stages[i].governed_by is Some {
            let name = stages[i].governed_by->0@;
            assert(a.contains(name) <==> b.contains(name));
            if a.contains(name) {
                let k = choose|k: int| 0 <= k < a.len() && a[k] == name;
                let m = choose|m: int| 0 <= m < b.len() && b[m] == name;
                assert(a[k] == name && b[m] == name);
            }
        }
    }
}

/// Whether one stage of a declaration, among those before it, keeps what the run owns.
pub open spec fn keeps(stages: Seq<StageView>, i: int) -> bool {
    &&& forall|j: int| 0 <= j < i ==> (#[trigger] stages[j]).id != stages[i].id
    &&& policy::reservation(stages[i].id) is None
    &&& policy::contract_of(stages[i].id) is Some ==> stages[i].output_contract
        == policy::contract_of(stages[i].id)->0@
    &&& stages[i].governed_by is Some ==> policy::governance_reservation(
        stages[i].governed_by->0@,
    ) is None
}

/// A refused declaration is refused for the first stage that does not keep what the run owns, and for
/// the first thing wrong with it: that its id was declared before, then that it is reserved, then that
/// its contract is another, an absent one told as none, and then what governs it.
pub proof fn the_first_wrong_declaration_is_told(
    stages: Seq<StageView>,
    workflow: Seq<char>,
    i: int,
)
    requires
        0 <= i < stages.len(),
        forall|j: int| 0 <= j < i ==> #[trigger] keeps(stages, j),
        !keeps(stages, i),
    ensures
        ({
            let id = stages[i].id;
            let told = declarations_refusal(stages, workflow);
            let again = exists|j: int| 0 <= j < i && (#[trigger] stages[j]).id == id;
            let reserved = policy::reservation(id);
            let required = policy::contract_of(id);
            let declared = stages[i].output_contract;
            let kept = required is Some ==> declared == required->0@;
            &&& told is Some
            &&& again ==> told->0 == "workflow `"@ + workflow + "` declares stage `"@ + id
                + "` more than once"@
            &&& !again && reserved is Some ==> told->0 == "workflow `"@ + workflow
                + "` declares stage `"@ + id + "`, which is "@ + reserved->0.clause()
            &&& !again && reserved is None && !kept && declared.len() == 0 ==> told->0
                == "workflow `"@ + workflow + "` overrides stage `"@ + id
                + "` with output contract `"@ + "<none>"@
                + "`; the run deserializes that stage's output as `"@ + required->0@
                + "`, so an override must keep it"@
            &&& !again && reserved is None && !kept && declared.len() > 0 ==> told->0
                == "workflow `"@ + workflow + "` overrides stage `"@ + id
                + "` with output contract `"@ + declared
                + "`; the run deserializes that stage's output as `"@ + required->0@
                + "`, so an override must keep it"@
            &&& !again && reserved is None && kept ==> stages[i].governed_by is Some && told->0
                == "workflow `"@ + workflow + "` stage `"@ + id + "` is governedBy `"@
                + stages[i].governed_by->0@ + "`, which is "@ + policy::governance_reservation(
                stages[i].governed_by->0@,
            )->0.clause()
        }),
{
    let check = declaration_refusals(stages, workflow);
    assert forall|j: int| 0 <= j <= i implies (#[trigger] check(j) is None <==> keeps(stages, j)) by {
        declared_before(stages, j);
    }
    error::accepted_when_every_check_passes(i, check);
    assert forall|j: int| 0 <= j < i implies #[trigger] check(j) is None by {
        assert(keeps(stages, j));
    }
    assert(check(i) is Some);
    error::the_first_refusal_decides(stages.len() as int, check, i);
    declared_before(stages, i);
}

proof fn declared_before(stages: Seq<StageView>, i: int)
    requires
        0 <= i < stages.len(),
    ensures
        stage::ids(stages).take(i).contains(stages[i].id) <==> exists|j: int|
            0 <= j < i && (#[trigger] stages[j]).id == stages[i].id,
{
    let earlier = stage::ids(stages).take(i);
    if earlier.contains(stages[i].id) {
        let j = choose|j: int| 0 <= j < earlier.len() && earlier[j] == stages[i].id;
        assert(stages[j].id == stages[i].id);
    }
    if exists|j: int| 0 <= j < i && (#[trigger] stages[j]).id == stages[i].id {
        let j = choose|j: int| 0 <= j < i && (#[trigger] stages[j]).id == stages[i].id;
        assert(earlier[j] == stages[i].id);
    }
}

/// Where no stage's id stands twice and no agent is an internal gate, a registry is refused for the
/// first stage that may not stand in it, and names it; and where all may, for the first whose
/// delegation cannot be carried out, and names it.
pub proof fn the_first_wrong_stage_is_named(
    stages: Seq<StageView>,
    profiles: Seq<ProfileView>,
    permitted: Seq<Seq<char>>,
    i: int,
)
    requires
        0 <= i < stages.len(),
        forall|a: int, b: int|
            0 <= a < b < stages.len() ==> (#[trigger] stages[a]).id != (#[trigger] stages[b]).id,
        forall|k: int| 0 <= k < profiles.len() ==> (#[trigger] profiles[k]).id != "referee"@,
    ensures
        ({
            let told = registry_refusal(stages, profiles, permitted);
            let opening = "stage `"@ + stages[i].id;
            &&& (forall|j: int| 0 <= j < i ==> stands(#[trigger] stages[j], profiles, permitted))
                && !stands(stages[i], profiles, permitted) ==> told is Some && opening.is_prefix_of(
                told->0,
            )
            &&& (forall|j: int|
                0 <= j < stages.len() ==> stands(#[trigger] stages[j], profiles, permitted)) && (
            forall|j: int| 0 <= j < i ==> #[trigger] carried_out(stages, profiles, j))
                && !carried_out(stages, profiles, i) ==> told is Some && opening.is_prefix_of(told->0)
        }),
{
    let n = stages.len() as int;
    let by_profile = profile_refusals(profiles);
    let by_stage = stage_refusals(stages, profiles, permitted);
    let by_delegation = delegation_refusals(stages, profiles);
    error::accepted_when_every_check_passes(profiles.len() as int, by_profile);
    error::accepted_when_every_check_passes(n, by_stage);
    error::accepted_when_every_check_passes(i, by_stage);
    error::accepted_when_every_check_passes(i, by_delegation);
    assert(names::distinct(stage::ids(stages)));
    assert forall|k: int| 0 <= k < profiles.len() implies #[trigger] by_profile(k) is None by {
        policy::who_owns_each_name(profiles[k].id);
    }
    assert forall|j: int| 0 <= j < n implies (#[trigger] by_stage(j) is None <==> stands(
        stages[j],
        profiles,
        permitted,
    )) by {
        one_stage_stands(stages, profiles, permitted, j);
    }
    assert forall|j: int| 0 <= j < n implies (#[trigger] by_delegation(j) is None <==> carried_out(
        stages,
        profiles,
        j,
    )) by {
        one_delegation_is_carried_out(stages, profiles, j);
    }
    a_stage_is_refused_by_name(stages, profiles, permitted, i);
    a_delegation_is_refused_by_name(stages, profiles, i);
    if (forall|j: int| 0 <= j < i ==> stands(#[trigger] stages[j], profiles, permitted)) && !stands(
        stages[i],
        profiles,
        permitted,
    ) {
        assert forall|j: int| 0 <= j < i implies #[trigger] by_stage(j) is None by {
            assert(stands(stages[j], profiles, permitted));
        }
        assert(by_stage(i) is Some);
        error::the_first_refusal_decides(n, by_stage, i);
    }
    if (forall|j: int| 0 <= j < n ==> stands(#[trigger] stages[j], profiles, permitted)) && (forall|
        j: int,
    |
        0 <= j < i ==> #[trigger] carried_out(stages, profiles, j)) && !carried_out(
        stages,
        profiles,
        i,
    ) {
        assert forall|j: int| 0 <= j < n implies #[trigger] by_stage(j) is None by {
            assert(stands(stages[j], profiles, permitted));
        }
        assert forall|j: int| 0 <= j < i implies #[trigger] by_delegation(j) is None by {
            assert(carried_out(stages, profiles, j));
        }
        assert(by_delegation(i) is Some);
        error::the_first_refusal_decides(n, by_delegation, i);
    }
}

/// Whether what a stage delegates, if it delegates, can be carried out by one of the stages.
pub open spec fn carried_out(stages: Seq<StageView>, profiles: Seq<ProfileView>, i: int) -> bool {
    stages[i].delegation is Some ==> exists|t: int|
        0 <= t < stages.len() && delegates(stages[i], #[trigger] stages[t], profiles)
}

proof fn a_stage_is_refused_by_name(
    stages: Seq<StageView>,
    profiles: Seq<ProfileView>,
    permitted: Seq<Seq<char>>,
    i: int,
)
    ensures
        stage_refusal(stages, profiles, permitted, i) is Some ==> ("stage `"@
            + stages[i].id).is_prefix_of(stage_refusal(stages, profiles, permitted, i)->0),
{
}

proof fn a_delegation_is_refused_by_name(
    stages: Seq<StageView>,
    profiles: Seq<ProfileView>,
    i: int,
)
    ensures
        delegation_refusal(stages, profiles, i) is Some ==> ("stage `"@ + stages[i].id).is_prefix_of(
            delegation_refusal(stages, profiles, i)->0,
        ),
{
}

/// Contracts are refused for the first stage whose contract cannot be enforced, and it is named.
pub proof fn the_first_contract_that_cannot_be_enforced_is_told(stages: Seq<StageView>, i: int)
    requires
        0 <= i < stages.len(),
        forall|j: int| 0 <= j < i ==> enforceable(#[trigger] stages[j]),
        !enforceable(stages[i]),
    ensures
        ({
            let told = error::first_refusal(stages.len() as int, contract_refusals(stages));
            let bare = stages[i].output_schema is None;
            &&& told is Some
            &&& bare ==> told->0 == "stage `"@ + stages[i].id + "` declares output contract `"@
                + stages[i].output_contract + "` without outputSchema"@
            &&& !bare ==> told->0 == "stage `"@ + stages[i].id + "` has invalid outputSchema: "@
                + stages[i].output_schema->0.report->0@
        }),
{
    let check = contract_refusals(stages);
    error::accepted_when_every_check_passes(i, check);
    assert forall|j: int| 0 <= j < i implies #[trigger] check(j) is None by {
        assert(enforceable(stages[j]));
    }
    assert(check(i) is Some);
    error::the_first_refusal_decides(stages.len() as int, check, i);
}

/// Whether what a stage has its answers held to can be: a contract comes with a schema, and a schema
/// compiles.
pub open spec fn enforceable(stage: StageView) -> bool {
    &&& stage.output_contract.len() > 0 ==> stage.output_schema is Some
    &&& stage.output_schema is Some && stage.output_schema->0.report is Some
        ==> !"output failed schema validation: could not compile"@.is_prefix_of(
        stage.output_schema->0.report->0@,
    )
}

/// A layout is refused for its first column that is empty or holds a box that does not fill, and in it
/// for the first such box. An empty one is told by its place, and a box by its name and by what is
/// wrong with it: that nothing records under it whole, and otherwise that it was laid out before.
pub proof fn the_first_wrong_box_is_named(
    layout: Seq<WorkflowLayoutColumn>,
    stages: Seq<StageView>,
    workflow: Seq<char>,
    c: int,
    l: int,
)
    requires
        0 <= c < layout.len(),
        forall|d: int| 0 <= d < c ==> (#[trigger] layout[d]).nodes@.len() > 0,
        forall|d: int, k: int|
            0 <= d < c && 0 <= k < layout[d].nodes@.len() ==> {
                let name = (#[trigger] layout[d].nodes@[k])@;
                arrives_whole(stages, name) && !laid_out_before(layout, d, k, name)
            },
    ensures
        ({
            let told = layout_refusal(layout, stages, workflow);
            layout[c].nodes@.len() == 0 ==> told is Some && told->0 == "workflow `"@ + workflow
                + "` lays out an empty column at position "@ + text::decimal(c as nat)
                + "; a column is the nodes drawn side by side in it, and one with none leaves a gap rather than placing anything"@
        }),
        0 <= l < layout[c].nodes@.len() && (forall|k: int|
            0 <= k < l ==> {
                let name = (#[trigger] layout[c].nodes@[k])@;
                arrives_whole(stages, name) && !laid_out_before(layout, c, k, name)
            }) && !(arrives_whole(stages, layout[c].nodes@[l]@) && !laid_out_before(
            layout,
            c,
            l,
            layout[c].nodes@[l]@,
        )) ==> {
            let told = layout_refusal(layout, stages, workflow);
            let name = layout[c].nodes@[l]@;
            &&& told is Some
            &&& ("workflow `"@ + workflow + "` lays out node `"@ + name).is_prefix_of(told->0)
            &&& arrives_whole(stages, name) ==> told->0 == "workflow `"@ + workflow
                + "` lays out node `"@ + name
                + "` more than once; a run records one box under that name, so the later column would replace the earlier"@
        },
{
    let columns = column_refusals(layout, stages, workflow);
    error::accepted_when_every_check_passes(c, columns);
    assert forall|d: int| 0 <= d < c implies #[trigger] columns(d) is None by {
        assert(layout[d].nodes@.len() > 0);
        one_column_is_accepted(layout, stages, workflow, d);
    }
    one_column_is_accepted(layout, stages, workflow, c);
    if layout[c].nodes@.len() == 0 {
        assert(columns(c) is Some);
        error::the_first_refusal_decides(layout.len() as int, columns, c);
    }
    if 0 <= l < layout[c].nodes@.len() && (forall|k: int|
        0 <= k < l ==> {
            let name = (#[trigger] layout[c].nodes@[k])@;
            arrives_whole(stages, name) && !laid_out_before(layout, c, k, name)
        }) && !(arrives_whole(stages, layout[c].nodes@[l]@) && !laid_out_before(
        layout,
        c,
        l,
        layout[c].nodes@[l]@,
    )) {
        let lanes = node_refusals(layout, stages, workflow, c);
        error::accepted_when_every_check_passes(l, lanes);
        assert forall|k: int| 0 <= k < l implies #[trigger] lanes(k) is None by {
            let name = layout[c].nodes@[k]@;
            assert(arrives_whole(stages, name) && !laid_out_before(layout, c, k, name));
            one_box_is_accepted(layout, stages, workflow, c, k);
        }
        one_box_is_accepted(layout, stages, workflow, c, l);
        assert(lanes(l) is Some);
        error::the_first_refusal_decides(layout[c].nodes@.len() as int, lanes, l);
        assert(columns(c) == lanes(l));
        error::the_first_refusal_decides(layout.len() as int, columns, c);
    }
}

proof fn one_box_is_accepted(
    layout: Seq<WorkflowLayoutColumn>,
    stages: Seq<StageView>,
    workflow: Seq<char>,
    c: int,
    l: int,
)
    requires
        0 <= c < layout.len(),
        0 <= l < layout[c].nodes@.len(),
    ensures
        ({
            let name = layout[c].nodes@[l]@;
            let refusal = node_refusal(layout, stages, workflow, c, l);
            &&& refusal is None <==> arrives_whole(stages, name) && !laid_out_before(
                layout,
                c,
                l,
                name,
            )
            &&& refusal is Some ==> ("workflow `"@ + workflow + "` lays out node `"@
                + name).is_prefix_of(refusal->0)
            &&& refusal is Some && arrives_whole(stages, name) ==> refusal->0 == "workflow `"@
                + workflow + "` lays out node `"@ + name
                + "` more than once; a run records one box under that name, so the later column would replace the earlier"@
        }),
{
    let nodes = layout[c].nodes@;
    let name = nodes[l]@;
    let seen = text::views(nodes);
    assert(seen[l] == name);
    what_can_be_drawn_arrives_whole(stages, name);
    let before = layout.take(c);
    what_is_laid_out_stands_somewhere(before, name);
    let earlier = laid_out(before) + seen.take(l);
    if earlier.contains(name) {
        let k = choose|k: int| 0 <= k < earlier.len() && earlier[k] == name;
        if k < laid_out(before).len() {
            assert(laid_out(before)[k] == name);
            let d = choose|d: int|
                0 <= d < before.len() && text::named((#[trigger] before[d]).nodes@, name);
            assert(text::named(layout[d].nodes@, name));
        } else {
            let m = k - laid_out(before).len();
            assert(seen.take(l)[m] == name);
            assert(layout[c].nodes@[m]@ == name);
        }
    }
    if laid_out_before(layout, c, l, name) {
        if exists|d: int| 0 <= d < c && text::named((#[trigger] layout[d]).nodes@, name) {
            let d = choose|d: int| 0 <= d < c && text::named((#[trigger] layout[d]).nodes@, name);
            assert(text::named(before[d].nodes@, name));
            let k = choose|k: int| 0 <= k < laid_out(before).len() && laid_out(before)[k] == name;
            assert(earlier[k] == name);
        } else {
            let m = choose|m: int| 0 <= m < l && (#[trigger] layout[c].nodes@[m])@ == name;
            assert(seen.take(l)[m] == name);
            assert(earlier[laid_out(before).len() + m] == name);
        }
    }
}

/// The names open to a stage are those of a list that are no internal gate's, in order.
pub proof fn open_names_are_no_gates(list: Seq<Seq<char>>, name: Seq<char>)
    ensures
        open_names(list).contains(name) <==> list.contains(name) && name != "referee"@,
        lists::kept(open_names(list), list, |n: Seq<char>| n != "referee"@),
{
    let open = |n: Seq<char>| n != "referee"@;
    let keep = |n: Seq<char>| !gate(n);
    assert forall|n: Seq<char>| #[trigger] gate(n) <==> n == "referee"@ by {
        policy::who_owns_each_name(n);
    }
    assert(open_names(list) == list.filter(keep));
    assert forall|i: int| 0 <= i < list.len() implies keep(#[trigger] list[i]) == open(list[i]) by {
        assert(gate(list[i]) <==> list[i] == "referee"@);
    }
    lists::a_filter_keeps(list, keep, open);
    lists::kept_is_membership(open_names(list), list, open, name);
}

/// What is said of a name that nothing records under whole: where a stage has that name for its id or
/// for what governs it, and these differ, the first such stage is named, with what governs it; and
/// otherwise that nothing records under it.
pub proof fn a_name_that_is_split_is_explained(
    layout: Seq<WorkflowLayoutColumn>,
    stages: Seq<StageView>,
    workflow: Seq<char>,
    c: int,
    l: int,
    i: int,
)
    requires
        0 <= c < layout.len(),
        0 <= l < layout[c].nodes@.len(),
        !arrives_whole(stages, layout[c].nodes@[l]@),
        forall|j: int| 0 <= j < i ==> !splits(#[trigger] stages[j], layout[c].nodes@[l]@),
        0 <= i <= stages.len(),
        i < stages.len() ==> splits(stages[i], layout[c].nodes@[l]@),
    ensures
        ({
            let name = layout[c].nodes@[l]@;
            let told = node_refusal(layout, stages, workflow, c, l);
            let opening = "workflow `"@ + workflow + "` lays out node `"@ + name;
            &&& told is Some
            &&& i < stages.len() ==> (opening + "`, but stage `"@ + stages[i].id
                + "` is governedBy `"@ + stages[i].governed_by->0@).is_prefix_of(told->0)
            &&& i == stages.len() ==> (opening
                + "`, which nothing it runs records under; nodes that can be drawn: "@).is_prefix_of(
                told->0,
            )
        }),
{
    let name = layout[c].nodes@[l]@;
    let wanted = split_over(name);
    assert(text::views(layout[c].nodes@)[l] == name);
    what_can_be_drawn_arrives_whole(stages, name);
    assert forall|j: int| 0 <= j < stages.len() implies (#[trigger] wanted(stages[j]) <==> splits(
        stages[j],
        name,
    )) by {
        policy::who_owns_each_name(stages[j].id);
    }
    stage::stage_index_is_first(stages, wanted);
    let first = stage::stage_index(stages, wanted);
    if first < i {
        assert(!splits(stages[first], name));
        assert(wanted(stages[first]));
    }
    if i < first {
        assert(!wanted(stages[i]));
        assert(splits(stages[i], name));
    }
    assert(first == i);
}

/// Whether a stage records under two names, one of them this one, and not as evidence.
pub open spec fn splits(stage: StageView, name: Seq<char>) -> bool {
    &&& stage.governed_by is Some && stage.governed_by->0@ != stage.id
    &&& stage.id == name || stage.governed_by->0@ == name
    &&& stage.id != "redteam_author"@ && stage.id != "implementer_attempt"@
}

} // verus!
