//! Which servers an atlas or an area is shown on.

use vstd::prelude::*;

use super::model::{AreaId, AtlasId};
use crate::list;
use crate::text;

verus! {

/// What an association is about: a whole atlas, or an area in no atlas.
#[derive(Clone, Copy, Debug, PartialEq, Eq, Structural)]
pub enum ScopeTarget {
    Atlas(AtlasId),
    Area(AreaId),
}

/// Where something is shown, seen from one server.
#[derive(Clone, Copy, Debug, PartialEq, Eq, Structural)]
pub enum ScopeState {
    Here,
    Unassigned,
    Elsewhere,
}

/// A change of an association.
#[allow(inconsistent_fields)]
pub enum ScopeDelta<T = String, L = Vec<String>> {
    SetAtlasEntry { atlas_id: AtlasId, entry: T, show: bool },
    SetAreaEntry { area_id: AreaId, entry: T, show: bool },
    SetAtlasEntries { atlas_id: AtlasId, entries: L },
    SetAreaEntries { area_id: AreaId, entries: L },
    MarkSeen { atlas_id: AtlasId },
}

pub type DeltaView = ScopeDelta<Seq<char>, Seq<Seq<char>>>;

impl View for ScopeDelta<String, Vec<String>> {
    type V = DeltaView;

    open spec fn view(&self) -> DeltaView {
        match *self {
            ScopeDelta::SetAtlasEntry { atlas_id, entry, show } => ScopeDelta::SetAtlasEntry {
                atlas_id,
                entry: entry@,
                show,
            },
            ScopeDelta::SetAreaEntry { area_id, entry, show } => ScopeDelta::SetAreaEntry {
                area_id,
                entry: entry@,
                show,
            },
            ScopeDelta::SetAtlasEntries { atlas_id, entries } => ScopeDelta::SetAtlasEntries {
                atlas_id,
                entries: text::texts(entries@),
            },
            ScopeDelta::SetAreaEntries { area_id, entries } => ScopeDelta::SetAreaEntries {
                area_id,
                entries: text::texts(entries@),
            },
            ScopeDelta::MarkSeen { atlas_id } => ScopeDelta::MarkSeen { atlas_id },
        }
    }
}

/// The view of an optional change.
pub open spec fn opt_delta(delta: Option<ScopeDelta>) -> Option<DeltaView> {
    match delta {
        Some(delta) => Some(delta@),
        None => None,
    }
}

/// Shows or hides a target on a server.
pub open spec fn entry_delta(target: ScopeTarget, entry: Seq<char>, show: bool) -> DeltaView {
    match target {
        ScopeTarget::Atlas(atlas_id) => ScopeDelta::SetAtlasEntry { atlas_id, entry, show },
        ScopeTarget::Area(area_id) => ScopeDelta::SetAreaEntry { area_id, entry, show },
    }
}

/// Shows or hides a target on a server.
pub fn set_entry(target: ScopeTarget, entry: String, show: bool) -> (delta: ScopeDelta)
    ensures
        delta@ == entry_delta(target, entry@, show),
{
    match target {
        ScopeTarget::Atlas(atlas_id) => ScopeDelta::SetAtlasEntry { atlas_id, entry, show },
        ScopeTarget::Area(area_id) => ScopeDelta::SetAreaEntry { area_id, entry, show },
    }
}

/// The change for a new atlas: one made while a server is in view is shown
/// there. Local atlases are kept apart per server and need none.
pub fn associate_new_atlas(server: &Option<String>, atlas_id: AtlasId, is_local: bool) -> (delta: Option<
    ScopeDelta,
>)
    ensures
        opt_delta(delta) == match *server {
            Some(server) => if is_local {
                None
            } else {
                Some(entry_delta(ScopeTarget::Atlas(atlas_id), server@, true))
            },
            None => None,
        },
{
    match server {
        Some(server) => if is_local {
            None
        } else {
            Some(set_entry(ScopeTarget::Atlas(atlas_id), server.clone(), true))
        },
        None => None,
    }
}

/// What is known of an area where it is scoped.
#[derive(Clone, Copy, Debug, PartialEq, Eq, Structural)]
pub struct AreaPlace {
    pub area_id: AreaId,
    pub atlas_id: Option<AtlasId>,
    /// It goes with the session.
    pub is_ephemeral: bool,
    pub is_local: bool,
    pub atlas_is_local: bool,
    /// The state of its atlas, or of the area itself when it is in none.
    pub state: ScopeState,
}

/// The change for a new area: one in no atlas that was made while a server is in
/// view is shown there. One in an atlas goes with the atlas.
pub fn associate_new_area(server: &Option<String>, place: AreaPlace) -> (delta: Option<ScopeDelta>)
    ensures
        opt_delta(delta) == match *server {
            Some(server) => if place.atlas_id is Some || place.is_ephemeral || place.is_local {
                None
            } else {
                Some(entry_delta(ScopeTarget::Area(place.area_id), server@, true))
            },
            None => None,
        },
{
    match server {
        Some(server) => if place.atlas_id.is_some() || place.is_ephemeral || place.is_local {
            None
        } else {
            Some(set_entry(ScopeTarget::Area(place.area_id), server.clone(), true))
        },
        None => None,
    }
}

/// The target that scopes an area.
pub open spec fn scoping_target(place: AreaPlace) -> ScopeTarget {
    match place.atlas_id {
        Some(atlas_id) => ScopeTarget::Atlas(atlas_id),
        None => ScopeTarget::Area(place.area_id),
    }
}

/// Whether opening an area from the tree of one server associates it.
pub open spec fn binds_on_use(scope_all: bool, place: AreaPlace) -> bool {
    &&& !scope_all
    &&& !place.is_ephemeral
    &&& !place.is_local
    &&& !(place.atlas_id is Some && place.atlas_is_local)
    &&& place.state == ScopeState::Unassigned
}

/// The change for an area that was opened: from the tree of one server, what was
/// unassigned is shown there from then on. Opening from the view of all atlases
/// is browsing.
pub fn associate_opened_area(server: &Option<String>, scope_all: bool, place: AreaPlace) -> (delta: Option<
    ScopeDelta,
>)
    ensures
        opt_delta(delta) == match *server {
            Some(server) => if binds_on_use(scope_all, place) {
                Some(entry_delta(scoping_target(place), server@, true))
            } else {
                None
            },
            None => None,
        },
{
    let server = match server {
        Some(server) => server,
        None => {
            return None;
        },
    };
    if scope_all || place.is_ephemeral || place.is_local || (place.atlas_id.is_some()
        && place.atlas_is_local) || place.state != ScopeState::Unassigned {
        return None;
    }
    let target = match place.atlas_id {
        Some(atlas_id) => ScopeTarget::Atlas(atlas_id),
        None => ScopeTarget::Area(place.area_id),
    };
    Some(set_entry(target, server.clone(), true))
}

// ===== Homing what was shared =====

/// A received grant, as far as homing goes by it.
pub struct HomingGrant {
    pub atlas_id: Option<AtlasId>,
    pub area_id: Option<AreaId>,
    /// Hosts that the grantor plays on.
    pub host_hints: Vec<String>,
}

/// The atlas of an area in a list of areas with their atlases.
pub open spec fn atlas_of(areas: Seq<(AreaId, Option<AtlasId>)>, id: AreaId) -> Option<AtlasId>
    decreases areas.len(),
{
    if areas.len() == 0 {
        None
    } else if areas.last().0 == id && areas.last().1 is Some {
        areas.last().1
    } else {
        atlas_of(areas.drop_last(), id)
    }
}

/// What a grant homes: its atlas, or that of its area, or the area itself when
/// it is in none.
pub open spec fn homed(
    grant: HomingGrant,
    areas: Seq<(AreaId, Option<AtlasId>)>,
) -> Option<ScopeTarget> {
    match (grant.atlas_id, grant.area_id) {
        (Some(atlas_id), _) => Some(ScopeTarget::Atlas(atlas_id)),
        (None, Some(area_id)) => match atlas_of(areas, area_id) {
            Some(atlas_id) => Some(ScopeTarget::Atlas(atlas_id)),
            None => Some(ScopeTarget::Area(area_id)),
        },
        (None, None) => None,
    }
}

/// A target to home, with the hints of all grants that cover it.
pub struct HomingTarget<L = Vec<String>> {
    pub target: ScopeTarget,
    pub hints: L,
}

impl View for HomingTarget<Vec<String>> {
    type V = HomingTarget<Seq<Seq<char>>>;

    open spec fn view(&self) -> HomingTarget<Seq<Seq<char>>> {
        HomingTarget { target: self.target, hints: text::texts(self.hints@) }
    }
}

/// The views of targets.
pub open spec fn targets_view(targets: Seq<HomingTarget>) -> Seq<HomingTarget<Seq<Seq<char>>>> {
    targets.map_values(|target: HomingTarget| target@)
}

/// Targets after one more grant: its hints go to its target, which is added when
/// it is new.
pub open spec fn with_hints(
    targets: Seq<HomingTarget<Seq<Seq<char>>>>,
    target: ScopeTarget,
    hints: Seq<Seq<char>>,
) -> Seq<HomingTarget<Seq<Seq<char>>>> {
    match list::place(targets, |known: HomingTarget<Seq<Seq<char>>>| known.target == target) {
        Some(i) => targets.update(
            i,
            HomingTarget { target, hints: targets[i].hints + hints },
        ),
        None => targets.push(HomingTarget { target, hints }),
    }
}

/// The targets of grants, in the order in which they first come up.
pub open spec fn homing_of(
    grants: Seq<HomingGrant>,
    areas: Seq<(AreaId, Option<AtlasId>)>,
) -> Seq<HomingTarget<Seq<Seq<char>>>>
    decreases grants.len(),
{
    if grants.len() == 0 {
        Seq::empty()
    } else {
        let before = homing_of(grants.drop_last(), areas);
        match homed(grants.last(), areas) {
            Some(target) => with_hints(before, target, text::texts(grants.last().host_hints@)),
            None => before,
        }
    }
}

/// The atlas of an area in a list of areas with their atlases.
fn find_atlas(areas: &Vec<(AreaId, Option<AtlasId>)>, id: AreaId) -> (found: Option<AtlasId>)
    ensures
        found == atlas_of(areas@, id),
{
    let mut i: usize = areas.len();
    assert(areas@.take(i as int) =~= areas@);
    while i > 0
        invariant
            i <= areas.len(),
            atlas_of(areas@, id) == atlas_of(areas@.take(i as int), id),
        decreases i,
    {
        let (area_id, atlas_id) = areas[i - 1];
        assert(areas@.take(i as int).drop_last() =~= areas@.take(i - 1));
        if area_id == id {
            if let Some(atlas_id) = atlas_id {
                return Some(atlas_id);
            }
        }
        i = i - 1;
    }
    None
}

/// Adds copies of texts to a list.
fn extend_texts(to: &mut Vec<String>, from: &Vec<String>)
    ensures
        text::texts(final(to)@) == text::texts(old(to)@) + text::texts(from@),
{
    let ghost before = to@;
    assert(text::texts(to@) =~= text::texts(before) + text::texts(from@).take(0));
    for i in 0..from.len()
        invariant
            text::texts(to@) == text::texts(before) + text::texts(from@).take(i as int),
    {
        let ghost so_far = to@;
        to.push(from[i].clone());
        assert(text::texts(to@) =~= text::texts(so_far).push(from@[i as int]@));
        assert(text::texts(to@) =~= text::texts(before) + text::texts(from@).take(i + 1));
    }
    assert(text::texts(from@).take(from.len() as int) =~= text::texts(from@));
}

/// Gives hints to a target.
fn add_hints(targets: &mut Vec<HomingTarget>, target: ScopeTarget, hints: &Vec<String>)
    ensures
        targets_view(final(targets)@) == with_hints(
            targets_view(old(targets)@),
            target,
            text::texts(hints@),
        ),
{
    let ghost before = targets@;
    let ghost views = targets_view(before);
    let ghost same = |known: HomingTarget<Seq<Seq<char>>>| known.target == target;
    let count: usize = targets.len();
    for i in 0..count
        invariant
            before == old(targets)@,
            count == before.len(),
            targets@ == before,
            views == targets_view(before),
            same == (|known: HomingTarget<Seq<Seq<char>>>| known.target == target),
            forall|k: int| 0 <= k < i ==> !same(#[trigger] views[k]),
    {
        assert(views[i as int] == before[i as int]@);
        if targets[i].target == target {
            proof {
                list::lemma_place(views, same, i as int);
            }
            let known = &mut targets[i];
            extend_texts(&mut known.hints, hints);
            assert(targets_view(targets@) =~= views.update(
                i as int,
                HomingTarget { target, hints: views[i as int].hints + text::texts(hints@) },
            ));
            return ;
        }
        assert(!same(views[i as int]));
    }
    let mut copied: Vec<String> = Vec::new();
    extend_texts(&mut copied, hints);
    assert(text::texts(copied@) =~= text::texts(hints@));
    let added = HomingTarget { target, hints: copied };
    targets.push(added);
    assert(targets_view(targets@) =~= views.push(added@));
}

/// What received grants home, with the hints that go with each.
pub fn homing_targets(grants: &Vec<HomingGrant>, areas: &Vec<(AreaId, Option<AtlasId>)>) -> (targets: Vec<
    HomingTarget,
>)
    ensures
        targets_view(targets@) == homing_of(grants@, areas@),
{
    let mut targets: Vec<HomingTarget> = Vec::new();
    assert(targets_view(targets@) =~= Seq::empty());
    assert(grants@.take(0) =~= Seq::empty());
    for i in 0..grants.len()
        invariant
            targets_view(targets@) == homing_of(grants@.take(i as int), areas@),
    {
        assert(grants@.take(i + 1).drop_last() =~= grants@.take(i as int));
        let grant = &grants[i];
        let target = match (grant.atlas_id, grant.area_id) {
            (Some(atlas_id), _) => Some(ScopeTarget::Atlas(atlas_id)),
            (None, Some(area_id)) => match find_atlas(areas, area_id) {
                Some(atlas_id) => Some(ScopeTarget::Atlas(atlas_id)),
                None => Some(ScopeTarget::Area(area_id)),
            },
            (None, None) => None,
        };
        if let Some(target) = target {
            add_hints(&mut targets, target, &grant.host_hints);
        }
    }
    assert(grants@.take(grants.len() as int) =~= grants@);
    targets
}

/// What is known of a target: whether it was seen before (an atlas), whether it
/// has associations, and the servers that its hints match.
pub struct HomingEvidence {
    pub target: ScopeTarget,
    pub seen: bool,
    pub associated: bool,
    pub matched: Vec<String>,
}

/// The changes that homing makes to one target. An atlas is homed at first sight
/// only and then counts as seen; an area in none, as long as nothing is
/// associated with it. What the user associated is never overwritten.
pub open spec fn homing_step(evidence: HomingEvidence) -> Seq<DeltaView> {
    let matched = text::texts(evidence.matched@);
    match evidence.target {
        ScopeTarget::Atlas(atlas_id) => if evidence.seen {
            Seq::empty()
        } else if !evidence.associated && matched.len() > 0 {
            seq![
                ScopeDelta::SetAtlasEntries { atlas_id, entries: matched },
                ScopeDelta::MarkSeen { atlas_id },
            ]
        } else {
            seq![ScopeDelta::MarkSeen { atlas_id }]
        },
        ScopeTarget::Area(area_id) => if !evidence.associated && matched.len() > 0 {
            seq![ScopeDelta::SetAreaEntries { area_id, entries: matched }]
        } else {
            Seq::empty()
        },
    }
}

/// The views of changes.
pub open spec fn deltas_view(deltas: Seq<ScopeDelta>) -> Seq<DeltaView> {
    deltas.map_values(|delta: ScopeDelta| delta@)
}

/// The changes that homing makes.
pub fn apply_recipient_homing(evidence: &Vec<HomingEvidence>) -> (deltas: Vec<ScopeDelta>)
    ensures
        deltas_view(deltas@) == list::collect(
            evidence@,
            |one: HomingEvidence| homing_step(one),
        ),
{
    let ghost piece = |one: HomingEvidence| homing_step(one);
    let mut deltas: Vec<ScopeDelta> = Vec::new();
    assert(evidence@.take(0) =~= Seq::empty());
    assert(deltas_view(deltas@) =~= Seq::empty());
    for i in 0..evidence.len()
        invariant
            piece == (|one: HomingEvidence| homing_step(one)),
            deltas_view(deltas@) == list::collect(evidence@.take(i as int), piece),
    {
        proof {
            list::lemma_collect_step(evidence@, piece, i as int);
        }
        let ghost before = deltas@;
        let one = &evidence[i];
        let mut entries: Vec<String> = Vec::new();
        extend_texts(&mut entries, &one.matched);
        assert(text::texts(entries@) =~= text::texts(one.matched@));
        let homes = !one.associated && one.matched.len() > 0;
        match one.target {
            ScopeTarget::Atlas(atlas_id) => {
                if !one.seen {
                    if homes {
                        deltas.push(ScopeDelta::SetAtlasEntries { atlas_id, entries });
                    }
                    deltas.push(ScopeDelta::MarkSeen { atlas_id });
                }
            },
            ScopeTarget::Area(area_id) => {
                if homes {
                    deltas.push(ScopeDelta::SetAreaEntries { area_id, entries });
                }
            },
        }
        assert(deltas_view(deltas@) =~= deltas_view(before) + piece(evidence@[i as int]));
    }
    assert(evidence@.take(evidence.len() as int) =~= evidence@);
    deltas
}

/// Homing changes nothing about an atlas that was seen before.
pub proof fn law_a_seen_atlas_is_not_homed(evidence: HomingEvidence)
    requires
        evidence.target is Atlas,
        evidence.seen,
    ensures
        homing_step(evidence).len() == 0,
{
}

/// Homing never touches the entries of a target that has associations.
pub proof fn law_homing_keeps_associations(evidence: HomingEvidence, i: int)
    requires
        evidence.associated,
        0 <= i < homing_step(evidence).len(),
    ensures
        homing_step(evidence)[i] is MarkSeen,
{
}

} // verus!
