//! The run process's half of the operator controls: pause, stop and steer.
//!
//! A run executes here, and the operator is at a dashboard in another process. The dashboard holds
//! what they asked for; the run asks it, at each node's turn boundaries, what that node should do
//! now. The direction is deliberate: the run reaches out, so nothing outside it can reach in.
//!
//! At ordinary turn boundaries, **every failure means carry on.** A persisted provider pause is
//! different: it only resumes after an explicit dashboard response, so an unavailable dashboard
//! keeps it paused rather than silently spending more provider quota.
//!
//! The requests themselves are sent by whoever drives this; what they hold, and what their replies
//! come to, is settled here. A reply that did not arrive, that was refused, or that could not be read
//! is `None`.

use vstd::prelude::*;
use vstd::string::StringExecFns;

use crate::text;

verus! {

broadcast use vstd::string::group_string_axioms;

/// Ceiling on one control request, in seconds. Short: a node is waiting on it at every turn boundary.
pub const POLL_TIMEOUT_SECONDS: u64 = 5;

/// What the dashboard directs a paused waiter to do.
#[derive(Clone, Copy, Debug, PartialEq, Eq, Structural)]
pub enum ProviderPauseDirective {
    Hold,
    Continue,
    Stop,
}

/// The durable disposition returned after a provider pause is registered.
#[derive(Clone, Copy, Debug)]
pub struct ProviderPauseReply {
    pub directive: ProviderPauseDirective,
    pub generation: i64,
}

/// A regular control response, optionally carrying a paused waiter's durable generation.
#[derive(Clone, Copy, Debug)]
pub struct ProviderControlReply<C> {
    pub control: C,
    pub provider_pause_generation: Option<i64>,
}

/// What a paused node learned by asking.
#[derive(Clone, Copy, Debug)]
pub enum PausedPoll<C> {
    Response(C),
    Unavailable,
}

/// What registering a provider pause came to.
#[derive(Clone, Copy, Debug, PartialEq, Eq, Structural)]
pub enum ProviderPauseRegistration {
    Paused,
    Resumed,
    Stopped,
    Uncertain,
}

/// What acknowledging a provider pause came to.
#[derive(Clone, Copy, Debug, PartialEq, Eq, Structural)]
pub enum ProviderPauseAcknowledgement {
    Continue,
    Stop,
    Unavailable,
}

/// What a control request, or the registration of a pause, holds.
#[derive(Clone, Debug)]
pub struct ControlRequest {
    pub project: String,
    pub run_id: String,
    pub node: String,
    pub provider_pause_waiter: Option<String>,
    pub known_provider_resume_generation: Option<i64>,
}

/// What the acknowledgement of a pause holds.
#[derive(Clone, Debug)]
pub struct AcknowledgementRequest {
    pub project: String,
    pub run_id: String,
    pub node: String,
    pub provider_pause_waiter: String,
    pub provider_pause_generation: i64,
}

/// A waiter, and the generation it was paused in.
#[derive(Clone, Debug)]
pub struct Waiting {
    pub waiter: String,
    pub generation: i64,
}

/// The generation a waiter was paused in.
pub open spec fn generation_of(list: Seq<Waiting>, waiter: Seq<char>) -> Option<i64>
    decreases list.len(),
{
    if list.len() == 0 {
        None
    } else if list.last().waiter@ == waiter {
        Some(list.last().generation)
    } else {
        generation_of(list.drop_last(), waiter)
    }
}

/// The newer of a generation and the newest before it.
pub open spec fn newer(before: Option<i64>, generation: i64) -> i64 {
    match before {
        Some(previous) if previous >= generation => previous,
        _ => generation,
    }
}

/// Asks the dashboard that started this run what its nodes should do.
#[derive(Clone, Debug)]
pub struct DashboardControl {
    dashboard: String,
    project: String,
    run_id: String,
    /// The newest provider pause this child acknowledged. A fresh provider failure after it must
    /// allocate a new generation, even when another old waiter is still acknowledging.
    known: Option<i64>,
    /// Each waiter needs its exact generation for an idempotent acknowledgement.
    waiting: Vec<Waiting>,
}

impl DashboardControl {
    /// Where the dashboard is.
    pub closed spec fn address(self) -> Seq<char> {
        self.dashboard@
    }

    /// Which project and run it is asked about.
    pub closed spec fn subject(self) -> (Seq<char>, Seq<char>) {
        (self.project@, self.run_id@)
    }

    /// The newest generation acknowledged.
    pub closed spec fn newest(self) -> Option<i64> {
        self.known
    }

    /// Those who waited, in the order they came.
    pub closed spec fn waiters(self) -> Seq<Waiting> {
        self.waiting@
    }

    /// The generation of every waiter that is paused.
    pub closed spec fn paused(self) -> Map<Seq<char>, i64> {
        Map::new(
            |waiter: Seq<char>| generation_of(self.waiting@, waiter) is Some,
            |waiter: Seq<char>| generation_of(self.waiting@, waiter)->0,
        )
    }

    /// The same dashboard, asked about the same run.
    pub open spec fn same_subject(self, other: DashboardControl) -> bool {
        self.address() == other.address() && self.subject() == other.subject()
    }

    /// The newest generation acknowledged.
    pub fn known_provider_resume_generation(&self) -> (r: Option<i64>)
        ensures
            r == self.newest(),
    {
        self.known
    }

    /// The generation a waiter was paused in.
    fn generation(&self, waiter: &str) -> (r: Option<i64>)
        ensures
            r is Some <==> self.paused().contains_key(waiter@),
            r matches Some(generation) ==> generation == self.paused()[waiter@],
    {
        let mut i: usize = self.waiting.len();
        let ghost all = self.waiting@;
        assert(all.take(i as int) =~= all);
        while i > 0
            invariant
                i <= self.waiting@.len(),
                all == self.waiting@,
                generation_of(all.take(i as int), waiter@) == generation_of(all, waiter@),
            decreases i,
        {
            assert(all.take(i as int).last() == all[i - 1]);
            assert(all.take(i as int).drop_last() =~= all.take(i - 1));
            if text::same(self.waiting[i - 1].waiter.as_str(), waiter) {
                return Some(self.waiting[i - 1].generation);
            }
            i -= 1;
        }
        None
    }

    /// Forgets a waiter.
    fn forget(&mut self, waiter: &str)
        ensures
            final(self).same_subject(*old(self)),
            final(self).newest() == old(self).newest(),
            final(self).paused() == old(self).paused().remove(waiter@),
    {
        let mut kept: Vec<Waiting> = Vec::new();
        let ghost all = self.waiting@;
        let mut i: usize = 0;
        while i < self.waiting.len()
            invariant
                i <= self.waiting@.len(),
                all == self.waiting@,
                *self == *old(self),
                forall|w: Seq<char>|
                    #[trigger] generation_of(kept@, w) == (if w == waiter@ {
                        None
                    } else {
                        generation_of(all.take(i as int), w)
                    }),
            decreases self.waiting@.len() - i,
        {
            let ghost before = kept@;
            let entry = &self.waiting[i];
            let stays = !text::same(entry.waiter.as_str(), waiter);
            if stays {
                kept.push(
                    Waiting { waiter: entry.waiter.clone(), generation: entry.generation },
                );
            }
            i += 1;
            proof {
                assert(all.take(i as int).drop_last() =~= all.take(i - 1));
                assert(all.take(i as int).last() == *entry);
                if stays {
                    assert(kept@.drop_last() =~= before);
                }
                assert forall|w: Seq<char>| #[trigger] generation_of(kept@, w) == (if w == waiter@ {
                    None
                } else {
                    generation_of(all.take(i as int), w)
                }) by {
                    assert(generation_of(before, w) == (if w == waiter@ {
                        None
                    } else {
                        generation_of(all.take(i - 1), w)
                    }));
                }
            }
        }
        assert(all.take(i as int) =~= all);
        self.waiting = kept;
        assert(self.paused() =~= old(self).paused().remove(waiter@));
    }

    /// Remembers the generation a waiter was paused in.
    pub fn remember_provider_pause(&mut self, waiter: &str, generation: i64)
        ensures
            final(self).same_subject(*old(self)),
            final(self).newest() == old(self).newest(),
            final(self).paused() == old(self).paused().insert(waiter@, generation),
    {
        let ghost before = self.waiting@;
        self.waiting.push(Waiting { waiter: waiter.to_owned(), generation });
        proof {
            assert(self.waiting@.drop_last() =~= before);
            assert(self.paused() =~= old(self).paused().insert(waiter@, generation));
        }
    }

    /// Notes that a generation was acknowledged. The newest stands: acknowledging an older one
    /// changes nothing.
    pub fn acknowledge_provider_generation(&mut self, generation: i64)
        ensures
            final(self).same_subject(*old(self)),
            final(self).paused() == old(self).paused(),
            final(self).newest() == Some(newer(old(self).newest(), generation)),
    {
        let newer = match self.known {
            Some(previous) => generation > previous,
            None => true,
        };
        if newer {
            self.known = Some(generation);
        }
        assert(self.paused() =~= old(self).paused());
    }

    /// What is asked of the dashboard about a node, by one who waits on a pause or by none.
    pub fn request(&self, node: &str, waiter: Option<&str>) -> (r: ControlRequest)
        ensures
            r.project@ == self.subject().0,
            r.run_id@ == self.subject().1,
            r.node@ == node@,
            match waiter {
                Some(waiter) => text::opt(r.provider_pause_waiter) == Some(waiter@),
                None => r.provider_pause_waiter is None,
            },
            r.known_provider_resume_generation == self.newest(),
    {
        ControlRequest {
            project: self.project.clone(),
            run_id: self.run_id.clone(),
            node: node.to_owned(),
            provider_pause_waiter: match waiter {
                Some(waiter) => Some(waiter.to_owned()),
                None => None,
            },
            known_provider_resume_generation: self.known,
        }
    }

    fn at(&self, path: &str) -> (r: String)
        ensures
            r@ == self.address() + path@,
    {
        let mut url = self.dashboard.clone();
        url.append(path);
        url
    }

    /// Where a control request is sent.
    pub fn control_url(&self) -> (r: String)
        ensures
            r@ == self.address() + "/internal/control"@,
    {
        self.at("/internal/control")
    }

    /// Where a pause is registered.
    pub fn pause_url(&self) -> (r: String)
        ensures
            r@ == self.address() + "/internal/control/pause"@,
    {
        self.at("/internal/control/pause")
    }

    /// Where a pause is acknowledged.
    pub fn acknowledgement_url(&self) -> (r: String)
        ensures
            r@ == self.address() + "/internal/control/pause/ack"@,
    {
        self.at("/internal/control/pause/ack")
    }

    /// What a node does at a turn boundary: what the dashboard said, or carry on.
    pub fn poll<C>(reply: Option<ProviderControlReply<C>>, carry_on: C) -> (r: C)
        ensures
            r == match reply {
                Some(reply) => reply.control,
                None => carry_on,
            },
    {
        match reply {
            Some(reply) => reply.control,
            None => carry_on,
        }
    }

    /// What a paused node learned by asking. A generation the reply carries is remembered; no reply
    /// keeps the node paused.
    pub fn poll_while_paused<C>(&mut self, waiter: &str, reply: Option<ProviderControlReply<C>>) -> (r:
        PausedPoll<C>)
        ensures
            final(self).same_subject(*old(self)),
            final(self).newest() == old(self).newest(),
            match reply {
                None => r is Unavailable && final(self).paused() == old(self).paused(),
                Some(reply) => r == PausedPoll::Response(reply.control) && final(self).paused()
                    == (match reply.provider_pause_generation {
                    Some(generation) => old(self).paused().insert(waiter@, generation),
                    None => old(self).paused(),
                }),
            },
    {
        match reply {
            None => PausedPoll::Unavailable,
            Some(reply) => {
                if let Some(generation) = reply.provider_pause_generation {
                    self.remember_provider_pause(waiter, generation);
                }
                PausedPoll::Response(reply.control)
            },
        }
    }

    /// What registering a pause came to. The generation it was given is remembered whatever the
    /// directive; without a reply it is uncertain whether the pause stands.
    pub fn pause(&mut self, waiter: &str, reply: Option<ProviderPauseReply>) -> (r:
        ProviderPauseRegistration)
        ensures
            final(self).same_subject(*old(self)),
            final(self).newest() == old(self).newest(),
            match reply {
                None => r == ProviderPauseRegistration::Uncertain && final(self).paused() == old(
                    self,
                ).paused(),
                Some(reply) => {
                    &&& final(self).paused() == old(self).paused().insert(waiter@, reply.generation)
                    &&& r == match reply.directive {
                        ProviderPauseDirective::Hold => ProviderPauseRegistration::Paused,
                        ProviderPauseDirective::Continue => ProviderPauseRegistration::Resumed,
                        ProviderPauseDirective::Stop => ProviderPauseRegistration::Stopped,
                    }
                },
            },
    {
        match reply {
            None => ProviderPauseRegistration::Uncertain,
            Some(reply) => {
                self.remember_provider_pause(waiter, reply.generation);
                match reply.directive {
                    ProviderPauseDirective::Hold => ProviderPauseRegistration::Paused,
                    ProviderPauseDirective::Continue => ProviderPauseRegistration::Resumed,
                    ProviderPauseDirective::Stop => ProviderPauseRegistration::Stopped,
                }
            },
        }
    }

    /// What a waiter acknowledges its pause with; `None` where it was never paused, and nothing is
    /// sent.
    pub fn acknowledgement(&self, node: &str, waiter: &str) -> (r: Option<AcknowledgementRequest>)
        ensures
            r is Some <==> self.paused().contains_key(waiter@),
            r matches Some(request) ==> {
                &&& request.project@ == self.subject().0
                &&& request.run_id@ == self.subject().1
                &&& request.node@ == node@
                &&& request.provider_pause_waiter@ == waiter@
                &&& request.provider_pause_generation == self.paused()[waiter@]
            },
    {
        match self.generation(waiter) {
            Some(generation) => Some(
                AcknowledgementRequest {
                    project: self.project.clone(),
                    run_id: self.run_id.clone(),
                    node: node.to_owned(),
                    provider_pause_waiter: waiter.to_owned(),
                    provider_pause_generation: generation,
                },
            ),
            None => None,
        }
    }

    /// What the acknowledgement of the pause in `generation` came to. Only an explicit Continue or
    /// Stop ends the pause: the generation is then acknowledged and the waiter forgotten. Anything
    /// else leaves it paused, so that it can be acknowledged again.
    pub fn acknowledge_provider_pause(
        &mut self,
        waiter: &str,
        generation: i64,
        reply: Option<ProviderPauseDirective>,
    ) -> (r: ProviderPauseAcknowledgement)
        ensures
            final(self).same_subject(*old(self)),
            match reply {
                Some(ProviderPauseDirective::Continue) => r
                    == ProviderPauseAcknowledgement::Continue,
                Some(ProviderPauseDirective::Stop) => r == ProviderPauseAcknowledgement::Stop,
                _ => r == ProviderPauseAcknowledgement::Unavailable,
            },
            if r == ProviderPauseAcknowledgement::Unavailable {
                final(self).newest() == old(self).newest() && final(self).paused() == old(
                    self,
                ).paused()
            } else {
                &&& final(self).paused() == old(self).paused().remove(waiter@)
                &&& final(self).newest() == Some(newer(old(self).newest(), generation))
            },
    {
        let acknowledgement = match reply {
            Some(ProviderPauseDirective::Continue) => ProviderPauseAcknowledgement::Continue,
            Some(ProviderPauseDirective::Stop) => ProviderPauseAcknowledgement::Stop,
            _ => return ProviderPauseAcknowledgement::Unavailable,
        };
        self.acknowledge_provider_generation(generation);
        self.forget(waiter);
        acknowledgement
    }
}

/// The control of a run, if a dashboard started it. A run started from the command line has
/// none: a node that cannot be paused by anyone should not pay for asking. The project is empty
/// unless the dashboard named one.
pub fn install(dashboard: Option<String>, project: Option<String>, run_id: &str) -> (r: Option<
    DashboardControl,
>)
    ensures
        match dashboard {
            None => r is None,
            Some(address) => {
                &&& r matches Some(control)
                &&& control.address() == address@
                &&& control.subject() == (
                    match project {
                        Some(name) => name@,
                        None => Seq::empty(),
                    },
                    run_id@,
                )
                &&& control.newest() is None
                &&& control.paused() == Map::<Seq<char>, i64>::empty()
            },
        },
{
    let dashboard = match dashboard {
        Some(address) => address,
        None => return None,
    };
    let project = match project {
        Some(name) => name,
        None => "".to_owned(),
    };
    proof {
        reveal_strlit("");
        assert(""@ =~= Seq::empty());
    }
    let control = DashboardControl {
        dashboard,
        project,
        run_id: run_id.to_owned(),
        known: None,
        waiting: Vec::new(),
    };
    assert(control.paused() =~= Map::<Seq<char>, i64>::empty());
    Some(control)
}

/// The newest acknowledged generation never goes back, whatever is acknowledged in whatever order:
/// after two acknowledgements it is at least each of them and what it was before.
pub proof fn acknowledged_generations_only_grow(
    before: Option<i64>,
    first: i64,
    second: i64,
)
    ensures
        newer(Some(newer(before, first)), second) >= first,
        newer(Some(newer(before, first)), second) >= second,
        before matches Some(previous) ==> newer(Some(newer(before, first)), second) >= previous,
{
}

/// The newest of two generations is one of them, and neither is newer.
pub proof fn the_newer_generation_is_the_greater(before: Option<i64>, generation: i64)
    ensures
        newer(before, generation) >= generation,
        before is Some ==> newer(before, generation) >= before->0,
        newer(before, generation) == generation || Some(newer(before, generation)) == before,
{
}

/// Control is of the same run exactly where it is asked of the same dashboard, about the same project
/// and run.
pub proof fn control_is_of_one_run(a: DashboardControl, b: DashboardControl)
    ensures
        a.same_subject(b) <==> a.address() == b.address() && a.subject().0 == b.subject().0
            && a.subject().1 == b.subject().1,
{
}

/// A waiter's generation is the last that was remembered of it, whatever was remembered of others.
pub proof fn the_last_generation_of_a_waiter_counts(list: Seq<Waiting>, waiter: Seq<char>, i: int)
    ensures
        (forall|j: int| 0 <= j < list.len() ==> (#[trigger] list[j]).waiter@ != waiter) ==> generation_of(
            list,
            waiter,
        ) is None,
        0 <= i < list.len() && list[i].waiter@ == waiter && (forall|j: int|
            i < j < list.len() ==> (#[trigger] list[j]).waiter@ != waiter) ==> generation_of(
            list,
            waiter,
        ) == Some(list[i].generation),
    decreases list.len(),
{
    if list.len() > 0 {
        let front = list.drop_last();
        let n = front.len() as int;
        the_last_generation_of_a_waiter_counts(front, waiter, i);
        assert(list[n] == list.last());
        assert forall|j: int| 0 <= j < n implies #[trigger] front[j] == list[j] by {}
        if list.last().waiter@ != waiter && 0 <= i < n {
            if forall|j: int| i < j < list.len() ==> (#[trigger] list[j]).waiter@ != waiter {
                assert forall|j: int| i < j < front.len() implies (#[trigger] front[j]).waiter@
                    != waiter by {
                    assert(list[j].waiter@ != waiter);
                }
            }
        }
        if forall|j: int| 0 <= j < list.len() ==> (#[trigger] list[j]).waiter@ != waiter {
            assert forall|j: int| 0 <= j < front.len() implies (#[trigger] front[j]).waiter@
                != waiter by {
                assert(list[j].waiter@ != waiter);
            }
        }
    }
}

impl DashboardControl {
    /// A waiter is paused exactly where one of those waiting is that waiter, in the generation it last
    /// waited in.
    pub proof fn a_waiter_is_paused_where_it_waits(self, waiter: Seq<char>, i: int)
        ensures
            self.paused().contains_key(waiter) <==> exists|j: int|
                0 <= j < self.waiters().len() && (#[trigger] self.waiters()[j]).waiter@ == waiter,
            0 <= i < self.waiters().len() && self.waiters()[i].waiter@ == waiter && (forall|j: int|
                i < j < self.waiters().len() ==> (#[trigger] self.waiters()[j]).waiter@ != waiter)
                ==> self.paused()[waiter] == self.waiters()[i].generation,
    {
        let list = self.waiters();
        the_last_generation_of_a_waiter_counts(list, waiter, i);
        who_waits_has_a_generation(list, waiter);
    }
}

proof fn who_waits_has_a_generation(list: Seq<Waiting>, waiter: Seq<char>)
    ensures
        generation_of(list, waiter) is Some <==> exists|j: int|
            0 <= j < list.len() && (#[trigger] list[j]).waiter@ == waiter,
    decreases list.len(),
{
    if list.len() > 0 {
        let front = list.drop_last();
        who_waits_has_a_generation(front, waiter);
        assert(list.last() == list[list.len() - 1]);
        if exists|j: int| 0 <= j < front.len() && (#[trigger] front[j]).waiter@ == waiter {
            let j = choose|j: int| 0 <= j < front.len() && (#[trigger] front[j]).waiter@ == waiter;
            assert(list[j].waiter@ == waiter);
        }
        if exists|j: int| 0 <= j < list.len() && (#[trigger] list[j]).waiter@ == waiter {
            let j = choose|j: int| 0 <= j < list.len() && (#[trigger] list[j]).waiter@ == waiter;
            if j < front.len() {
                assert(front[j].waiter@ == waiter);
            }
        }
    }
}

} // verus!
