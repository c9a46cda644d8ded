//! Requests that are forwarded to fixed upstreams.

use crate::clock::{is_uuid, time_ordered_uuid};
use crate::lua::args::StaticForwardUpstream;
use crate::lua::middleware::{decisive_outcome_is_first, first_decisive, RuleOutcome};
use crate::models::{base_uri, InstanceStatus};
use crate::observability::{reachability_status, static_forward_status};
use crate::text::{joined, texts};
use vstd::prelude::*;

verus! {

/// A static forward that applies to a request, and how its upstreams stand.
#[derive(Clone, Debug)]
pub struct StaticForwardResolution {
    pub route_id: String,
    pub status: InstanceStatus,
    pub configured_upstreams: usize,
    pub reachable_upstreams: usize,
    pub reachable_targets: Vec<String>,
}

/// The base URIs of those of the first `n` upstreams that are reachable, in order.
pub open spec fn reachable_uris(
    upstreams: Seq<StaticForwardUpstream>,
    reachable: Seq<bool>,
    n: int,
) -> Seq<Seq<char>>
    decreases n,
{
    if n <= 0 {
        Seq::empty()
    } else {
        let before = reachable_uris(upstreams, reachable, n - 1);
        if reachable[n - 1] {
            let u = upstreams[n - 1];
            before.push(base_uri(u.scheme@, u.host@, u.port))
        } else {
            before
        }
    }
}

/// Where the search for the mount that applies to a request stands.
#[derive(Clone, Copy, Debug, PartialEq, Eq, Structural)]
pub enum MountStep {
    /// The mount at this place applies.
    Found(usize),
    /// No mount applies.
    NotFound,
    /// A rule failed before one held.
    Failed,
    /// The mount at this place has to be asked.
    Ask(usize),
}

/// What the search for the first of `total` mounts that applies comes to, given the
/// outcomes of those asked so far: the first outcome that holds decides, one that
/// failed before it fails, and else the next place is asked.
pub open spec fn mount_step(outcomes: Seq<RuleOutcome>, total: usize) -> MountStep {
    let at = first_decisive(outcomes, 0);
    if at < outcomes.len() {
        if outcomes[at] == RuleOutcome::Holds {
            MountStep::Found(at as usize)
        } else {
            MountStep::Failed
        }
    } else if outcomes.len() < total {
        MountStep::Ask(outcomes.len() as usize)
    } else {
        MountStep::NotFound
    }
}

/// Looks for the first of some mounts that applies, in the order in which they were
/// made, or for the first of some rules that holds.
pub fn next_mount(outcomes: &Vec<RuleOutcome>, total: usize) -> (step: MountStep)
    ensures
        step == mount_step(outcomes@, total),
        step matches MountStep::Found(place) ==> place == first_decisive(outcomes@, 0),
{
    let mut i: usize = 0;
    while i < outcomes.len()
        invariant
            i <= outcomes@.len(),
            first_decisive(outcomes@, 0) == first_decisive(outcomes@, i as int),
        decreases outcomes@.len() - i,
    {
        match outcomes[i] {
            RuleOutcome::Holds => {
                return MountStep::Found(i);
            },
            RuleOutcome::Failed => {
                return MountStep::Failed;
            },
            RuleOutcome::DoesNotHold => {},
        }
        i += 1;
    }
    if outcomes.len() < total {
        MountStep::Ask(outcomes.len())
    } else {
        MountStep::NotFound
    }
}

/// Whether `s` is the id of a static forward.
pub open spec fn is_route_id(s: Seq<char>) -> bool {
    exists|unique: Seq<char>|
        is_uuid(unique, '7') && s == #[trigger] ("static-forward-"@ + unique)
}

/// A new id for a static forward.
pub fn new_route_id() -> (id: String)
    ensures
        is_route_id(id@),
{
    let unique = time_ordered_uuid();
    joined("static-forward-", unique.as_str())
}

/// The mount that is found is the first that applies: it holds, and all before it
/// were asked and do not.
pub proof fn found_mount_is_the_first(outcomes: Seq<RuleOutcome>, total: usize, at: usize)
    requires
        outcomes.len() <= usize::MAX,
        mount_step(outcomes, total) == MountStep::Found(at),
    ensures
        at < outcomes.len(),
        outcomes[at as int] == RuleOutcome::Holds,
        forall|i: int| 0 <= i < at ==> outcomes[i] == RuleOutcome::DoesNotHold,
{
    decisive_is_first(outcomes, 0);
}

proof fn decisive_is_first(outcomes: Seq<RuleOutcome>, from: int)
    requires
        0 <= from <= outcomes.len(),
    ensures
        from <= first_decisive(outcomes, from) <= outcomes.len(),
        forall|i: int|
            from <= i < first_decisive(outcomes, from) ==> outcomes[i] == RuleOutcome::DoesNotHold,
    decreases outcomes.len() - from,
{
    if from < outcomes.len() {
        decisive_is_first(outcomes, from + 1);
    }
}

/// Resolves a static forward, given which of its upstreams are reachable.
pub fn resolve_static_forward(
    route_id: &str,
    upstreams: &Vec<StaticForwardUpstream>,
    reachable: &Vec<bool>,
) -> (resolution: StaticForwardResolution)
    requires
        upstreams@.len() == reachable@.len(),
    ensures
        resolution.route_id@ == route_id@,
        resolution.configured_upstreams == upstreams@.len(),
        texts(resolution.reachable_targets@) == reachable_uris(
            upstreams@,
            reachable@,
            upstreams@.len() as int,
        ),
        resolution.reachable_upstreams == resolution.reachable_targets@.len(),
        resolution.status == reachability_status(
            resolution.configured_upstreams,
            resolution.reachable_upstreams,
        ),
{
    let mut targets: Vec<String> = Vec::new();
    let mut i: usize = 0;
    proof {
        assert(texts(targets@) =~= Seq::<Seq<char>>::empty());
    }
    while i < upstreams.len()
        invariant
            upstreams@.len() == reachable@.len(),
            i <= upstreams@.len(),
            texts(targets@) == reachable_uris(upstreams@, reachable@, i as int),
        decreases upstreams@.len() - i,
    {
        let ghost before = targets@;
        if reachable[i] {
            targets.push(upstreams[i].to_uri());
            proof {
                let u = upstreams@[i as int];
                assert(texts(targets@) =~= texts(before).push(base_uri(u.scheme@, u.host@, u.port)));
            }
        }
        i += 1;
    }
    StaticForwardResolution {
        route_id: route_id.to_owned(),
        status: static_forward_status(upstreams.len(), targets.len()),
        configured_upstreams: upstreams.len(),
        reachable_upstreams: targets.len(),
        reachable_targets: targets,
    }
}

/// The target of a request on a static forward: the first that is reachable.
pub fn selected_target(resolution: &StaticForwardResolution) -> (target: Option<String>)
    ensures
        match target {
            Some(t) => resolution.reachable_targets@.len() > 0 && t
                == resolution.reachable_targets@[0],
            None => resolution.reachable_targets@.len() == 0,
        },
{
    if resolution.reachable_targets.len() > 0 {
        Some(resolution.reachable_targets[0].clone())
    } else {
        None
    }
}

proof fn uris_are_counted(upstreams: Seq<StaticForwardUpstream>, reachable: Seq<bool>, n: int)
    requires
        0 <= n <= reachable.len(),
    ensures
        reachable_uris(upstreams, reachable, n).len() <= n,
        reachable_uris(upstreams, reachable, n).len() == n <==> forall|i: int|
            0 <= i < n ==> reachable[i],
        reachable_uris(upstreams, reachable, n).len() == 0 <==> forall|i: int|
            0 <= i < n ==> !reachable[i],
    decreases n,
{
    if n > 0 {
        uris_are_counted(upstreams, reachable, n - 1);
        if reachable_uris(upstreams, reachable, n).len() == n {
            assert(forall|i: int| 0 <= i < n ==> reachable[i]);
        }
        if forall|i: int| 0 <= i < n ==> reachable[i] {
            assert(reachable[n - 1]);
        }
        if forall|i: int| 0 <= i < n ==> !reachable[i] {
            assert(!reachable[n - 1]);
        }
    }
}

/// A static forward is up exactly when all of its upstreams are reachable, and
/// down exactly when none is.
pub proof fn status_reflects_reachability(
    upstreams: Seq<StaticForwardUpstream>,
    reachable: Seq<bool>,
)
    requires
        upstreams.len() == reachable.len(),
        0 < upstreams.len() <= usize::MAX,
    ensures
        ({
            let n = upstreams.len() as int;
            let found = reachable_uris(upstreams, reachable, n).len();
            let status = reachability_status(n as usize, found as usize);
            &&& status == InstanceStatus::Up <==> forall|i: int| 0 <= i < n ==> reachable[i]
            &&& status == InstanceStatus::Down <==> forall|i: int| 0 <= i < n ==> !reachable[i]
        }),
{
    uris_are_counted(upstreams, reachable, upstreams.len() as int);
}

/// The search for a mount goes through them in order: as long as none applied the next
/// is asked, one that fails ends it, and after the last that does not apply none is
/// found.
pub proof fn mounts_are_asked_in_order(outcomes: Seq<RuleOutcome>, total: usize, at: int)
    requires
        outcomes.len() <= total,
    ensures
        (forall|i: int|
            0 <= i < outcomes.len() ==> #[trigger] outcomes[i] == RuleOutcome::DoesNotHold)
            ==> mount_step(outcomes, total) == (if outcomes.len() == total {
            MountStep::NotFound
        } else {
            MountStep::Ask(outcomes.len() as usize)
        }),
        0 <= at < outcomes.len() && (forall|i: int|
            0 <= i < at ==> #[trigger] outcomes[i] == RuleOutcome::DoesNotHold) && outcomes[at]
            == RuleOutcome::Holds ==> mount_step(outcomes, total) == MountStep::Found(at as usize),
        0 <= at < outcomes.len() && (forall|i: int|
            0 <= i < at ==> #[trigger] outcomes[i] == RuleOutcome::DoesNotHold) && outcomes[at]
            == RuleOutcome::Failed ==> mount_step(outcomes, total) == MountStep::Failed,
{
    decisive_outcome_is_first(outcomes, 0);
    let first = first_decisive(outcomes, 0);
    if first < outcomes.len() {
        assert(outcomes[first] != RuleOutcome::DoesNotHold);
    }
}

/// The id of a static forward says what it is and ends with a UUID.
pub proof fn route_ids_say_what_they_are(id: Seq<char>)
    requires
        is_route_id(id),
    ensures
        "static-forward-"@.is_prefix_of(id),
        id.len() == 15 + 36,
{
    reveal_strlit("static-forward-");
    let unique = choose|unique: Seq<char>|
        is_uuid(unique, '7') && id == #[trigger] ("static-forward-"@ + unique);
    assert(id == "static-forward-"@ + unique);
    assert("static-forward-"@.is_prefix_of(id));
}

} // verus!
