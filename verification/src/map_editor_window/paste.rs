//! Pasting the clipboard.

use vstd::prelude::*;

use super::clipboard::{self, drop_route, ClipboardView, ConnectionClip, ConnectionClipView, EntityClipboard,
    ExitClip, RoomClip, RoomClipView};
use super::commands::{self, Command, CommandView};
use super::deletion::{self, holds_room, secrecy_of};
use super::edits::{self, push_mutation, push_op};
use super::model::{
    AreaCache, AreaId, AtlasCache, ConnectionArgs, ConnectionId, ExitArgs, ExitDirection, ExitId, LabelArgs, Point,
    RoomCache, RoomNumber, RoomUpdates, Scalar, ShapeArgs,
};
use super::mutation::{self, AreaMutation, IdRef, Mutation, MutationView, OpView};
use crate::text::{self, clone_opt, decimal_text, join3};

verus! {

// ===== Room numbers =====

/// Whether `n` is the least number from `from` on that no claim covers.
pub open spec fn is_first_free(claimed: Seq<RoomNumber>, from: int, n: int) -> bool {
    &&& from <= n
    &&& !claims(claimed, n)
    &&& forall|m: int| from <= m < n ==> #[trigger] claims(claimed, m)
}

/// Whether a list of room numbers covers `n`.
pub open spec fn claims(claimed: Seq<RoomNumber>, n: int) -> bool {
    exists|i: int| 0 <= i < claimed.len() && (#[trigger] claimed[i]).0 == n
}

/// The least number from `from` on that no claim covers.
pub open spec fn first_free(claimed: Seq<RoomNumber>, from: int) -> int {
    choose|n: int| is_first_free(claimed, from, n)
}

/// Where a copied room goes: its own number when it may keep it and nothing
/// claims it, else the least free number.
pub open spec fn remap_target(
    number: RoomNumber,
    claimed: Seq<RoomNumber>,
    first_fresh: RoomNumber,
    preserve_numbers: bool,
) -> int {
    if preserve_numbers && !claims(claimed, number.0 as int) {
        number.0 as int
    } else {
        first_free(claimed, first_fresh.0 as int)
    }
}

/// Where each copied room goes, in order: each claims its number before the next
/// is placed.
pub open spec fn remap_targets(
    source: Seq<RoomNumber>,
    occupied: Seq<RoomNumber>,
    first_fresh: RoomNumber,
    preserve_numbers: bool,
) -> Seq<RoomNumber>
    decreases source.len(),
{
    if source.len() == 0 {
        Seq::empty()
    } else {
        let before = remap_targets(source.drop_last(), occupied, first_fresh, preserve_numbers);
        before.push(
            RoomNumber(
                remap_target(source.last(), occupied + before, first_fresh, preserve_numbers) as i32,
            ),
        )
    }
}

/// Whether every copied room finds a number.
pub open spec fn remap_fits(
    source: Seq<RoomNumber>,
    occupied: Seq<RoomNumber>,
    first_fresh: RoomNumber,
    preserve_numbers: bool,
) -> bool {
    forall|k: int|
        0 <= k < source.len() ==> remap_target(
            source[k],
            occupied + remap_targets(
                #[trigger] source.take(k),
                occupied,
                first_fresh,
                preserve_numbers,
            ),
            first_fresh,
            preserve_numbers,
        ) <= i32::MAX
}

/// The least free number is unique.
pub proof fn lemma_first_free(claimed: Seq<RoomNumber>, from: int, n: int)
    requires
        is_first_free(claimed, from, n),
    ensures
        first_free(claimed, from) == n,
{
    let c = first_free(claimed, from);
    assert(is_first_free(claimed, from, c));
    if c < n {
        assert(claims(claimed, c));
    }
    if n < c {
        assert(claims(claimed, n));
    }
}

/// There is a least free number.
pub proof fn lemma_some_free(claimed: Seq<RoomNumber>, from: int)
    ensures
        is_first_free(claimed, from, first_free(claimed, from)),
{
    lemma_count_more(claimed, from);
    lemma_free_within(claimed, from, from, claimed.len());
}

/// Scanning on from `at`, with everything between `from` and `at` claimed, meets
/// a free number within as many steps as there are claims from `at` on.
proof fn lemma_free_within(claimed: Seq<RoomNumber>, from: int, at: int, steps: nat)
    requires
        from <= at,
        forall|m: int| from <= m < at ==> #[trigger] claims(claimed, m),
        count_from(claimed, at) <= steps,
    ensures
        is_first_free(claimed, from, first_free(claimed, from)),
    decreases steps,
{
    if claims(claimed, at) {
        let i = choose|i: int| 0 <= i < claimed.len() && (#[trigger] claimed[i]).0 == at;
        lemma_count_from(claimed, at, i);
        assert forall|m: int| from <= m < at + 1 implies #[trigger] claims(claimed, m) by {}
        lemma_free_within(claimed, from, at + 1, (steps - 1) as nat);
    } else {
        assert(is_first_free(claimed, from, at));
        lemma_first_free(claimed, from, at);
    }
}

/// How many claims are at `at` or above.
pub open spec fn count_from(claimed: Seq<RoomNumber>, at: int) -> nat
    decreases claimed.len(),
{
    if claimed.len() == 0 {
        0
    } else {
        count_from(claimed.drop_last(), at) + if claimed.last().0 >= at {
            1nat
        } else {
            0
        }
    }
}

/// A claim at `at` is not counted from `at + 1` on.
proof fn lemma_count_from(claimed: Seq<RoomNumber>, at: int, i: int)
    requires
        0 <= i < claimed.len(),
        claimed[i].0 == at,
    ensures
        count_from(claimed, at + 1) < count_from(claimed, at) <= claimed.len(),
    decreases claimed.len(),
{
    lemma_count_more(claimed.drop_last(), at);
    if i < claimed.len() - 1 {
        lemma_count_from(claimed.drop_last(), at, i);
    }
}

/// Counting from further on counts no more.
proof fn lemma_count_more(claimed: Seq<RoomNumber>, at: int)
    ensures
        count_from(claimed, at + 1) <= count_from(claimed, at) <= claimed.len(),
    decreases claimed.len(),
{
    if claimed.len() > 0 {
        lemma_count_more(claimed.drop_last(), at);
    }
}

/// Pasting never overwrites a room: no copied room goes to an occupied number,
/// and no two go to the same one.
pub proof fn law_remap_targets_are_vacant_and_distinct(
    source: Seq<RoomNumber>,
    occupied: Seq<RoomNumber>,
    first_fresh: RoomNumber,
    preserve_numbers: bool,
)
    requires
        remap_fits(source, occupied, first_fresh, preserve_numbers),
    ensures
        remap_targets(source, occupied, first_fresh, preserve_numbers).len() == source.len(),
        remap_targets(source, occupied, first_fresh, preserve_numbers).no_duplicates(),
        forall|i: int|
            0 <= i < source.len() ==> !occupied.contains(
                #[trigger] remap_targets(source, occupied, first_fresh, preserve_numbers)[i],
            ),
    decreases source.len(),
{
    if source.len() > 0 {
        let rest = source.drop_last();
        let before = remap_targets(rest, occupied, first_fresh, preserve_numbers);
        let targets = remap_targets(source, occupied, first_fresh, preserve_numbers);
        assert forall|k: int| 0 <= k < rest.len() implies remap_target(
            rest[k],
            occupied + remap_targets(#[trigger] rest.take(k), occupied, first_fresh, preserve_numbers),
            first_fresh,
            preserve_numbers,
        ) <= i32::MAX by {
            assert(rest.take(k) =~= source.take(k));
        }
        law_remap_targets_are_vacant_and_distinct(rest, occupied, first_fresh, preserve_numbers);
        let claimed = occupied + before;
        lemma_some_free(claimed, first_fresh.0 as int);
        let last = source.len() - 1;
        assert(source.take(last) =~= rest);
        let target = remap_target(source.last(), claimed, first_fresh, preserve_numbers);
        assert(target <= i32::MAX);
        assert(!claims(claimed, target));
        assert(targets[last].0 == target);
        assert forall|i: int| 0 <= i < source.len() implies !occupied.contains(#[trigger] targets[i]) by {
            if i < last {
                assert(targets[i] == before[i]);
            } else if occupied.contains(targets[i]) {
                let j = occupied.index_of(targets[i]);
                assert(claimed[j].0 == target);
            }
        }
        assert forall|i: int, j: int| 0 <= i < j < targets.len() implies targets[i] != targets[j] by {
            if j < last {
                assert(targets[i] == before[i] && targets[j] == before[j]);
            } else if targets[i] == targets[j] {
                assert(claimed[occupied.len() + i].0 == target);
            }
        }
    }
}

/// A cross-area paste keeps every number that is vacant when its room is placed.
pub proof fn law_remap_keeps_vacant_numbers(
    source: Seq<RoomNumber>,
    occupied: Seq<RoomNumber>,
    first_fresh: RoomNumber,
    k: int,
)
    requires
        0 <= k < source.len(),
        !claims(
            occupied + remap_targets(source.take(k), occupied, first_fresh, true),
            source[k].0 as int,
        ),
    ensures
        remap_targets(source, occupied, first_fresh, true)[k] == source[k],
    decreases source.len(),
{
    lemma_remap_len(source, occupied, first_fresh, true);
    lemma_remap_len(source.drop_last(), occupied, first_fresh, true);
    if k < source.len() - 1 {
        assert(source.drop_last().take(k) =~= source.take(k));
        law_remap_keeps_vacant_numbers(source.drop_last(), occupied, first_fresh, k);
    } else {
        assert(source.drop_last() =~= source.take(k));
    }
}

/// Every copied room goes somewhere.
proof fn lemma_remap_len(
    source: Seq<RoomNumber>,
    occupied: Seq<RoomNumber>,
    first_fresh: RoomNumber,
    preserve_numbers: bool,
)
    ensures
        remap_targets(source, occupied, first_fresh, preserve_numbers).len() == source.len(),
    decreases source.len(),
{
    if source.len() > 0 {
        lemma_remap_len(source.drop_last(), occupied, first_fresh, preserve_numbers);
    }
}

/// The last target recorded for a source number.
pub open spec fn mapped(mapping: Seq<(RoomNumber, RoomNumber)>, number: RoomNumber) -> Option<RoomNumber>
    decreases mapping.len(),
{
    if mapping.len() == 0 {
        None
    } else if mapping.last().0 == number {
        Some(mapping.last().1)
    } else {
        mapped(mapping.drop_last(), number)
    }
}

/// The last target recorded for a source number.
pub fn mapped_number(mapping: &Vec<(RoomNumber, RoomNumber)>, number: RoomNumber) -> (target: Option<
    RoomNumber,
>)
    ensures
        target == mapped(mapping@, number),
{
    let mut i: usize = mapping.len();
    assert(mapping@.take(i as int) =~= mapping@);
    while i > 0
        invariant
            i <= mapping@.len(),
            mapped(mapping@, number) == mapped(mapping@.take(i as int), number),
        decreases i,
    {
        i = i - 1;
        let pair = mapping[i];
        assert(mapping@.take(i + 1).drop_last() =~= mapping@.take(i as int));
        if pair.0 == number {
            return Some(pair.1);
        }
    }
    None
}

/// Source and target numbers side by side.
pub open spec fn paired(
    source: Seq<RoomNumber>,
    targets: Seq<RoomNumber>,
) -> Seq<(RoomNumber, RoomNumber)> {
    Seq::new(source.len(), |i: int| (source[i], targets[i]))
}

/// A recorded source number is mapped to one of the recorded targets.
pub proof fn lemma_mapped_target(mapping: Seq<(RoomNumber, RoomNumber)>, i: int)
    requires
        0 <= i < mapping.len(),
    ensures
        mapped(mapping, mapping[i].0) is Some,
        exists|j: int|
            0 <= j < mapping.len() && (#[trigger] mapping[j]).1 == mapped(mapping, mapping[i].0)->0,
    decreases mapping.len(),
{
    if mapping.last().0 == mapping[i].0 {
        assert(mapping[mapping.len() - 1].1 == mapped(mapping, mapping[i].0)->0);
    } else {
        let rest = mapping.drop_last();
        assert(rest[i] == mapping[i]);
        lemma_mapped_target(rest, i);
        let j = choose|j: int|
            0 <= j < rest.len() && (#[trigger] rest[j]).1 == mapped(rest, rest[i].0)->0;
        assert(mapping[j] == rest[j]);
    }
}

/// Maps copied room numbers onto numbers vacant in the target area, when every one finds
/// one.
fn remap_if_fits(
    source: &Vec<RoomNumber>,
    occupied: &Vec<RoomNumber>,
    first_fresh: RoomNumber,
    preserve_numbers: bool,
) -> (mapping: Option<Vec<(RoomNumber, RoomNumber)>>)
    ensures
        mapping is Some == remap_fits(source@, occupied@, first_fresh, preserve_numbers),
        mapping matches Some(mapping) ==> mapping@ == paired(
            source@,
            remap_targets(source@, occupied@, first_fresh, preserve_numbers),
        ),
{
    let mut claimed: Vec<RoomNumber> = Vec::new();
    for i in 0..occupied.len()
        invariant
            claimed@ == occupied@.take(i as int),
    {
        claimed.push(occupied[i]);
        assert(occupied@.take(i + 1) =~= occupied@.take(i as int).push(occupied@[i as int]));
    }
    assert(occupied@.take(occupied.len() as int) =~= occupied@);
    let mut mapping: Vec<(RoomNumber, RoomNumber)> = Vec::new();
    let mut next: i64 = first_fresh.0 as i64;
    let ghost mut targets: Seq<RoomNumber> = Seq::empty();
    proof {
        assert(source@.take(0) =~= Seq::empty());
        assert(claimed@ =~= occupied@ + targets);
        assert(mapping@ =~= paired(source@.take(0), targets));
    }
    for i in 0..source.len()
        invariant
            forall|k: int|
                0 <= k < i ==> remap_target(
                    source@[k],
                    occupied@ + remap_targets(
                        #[trigger] source@.take(k),
                        occupied@,
                        first_fresh,
                        preserve_numbers,
                    ),
                    first_fresh,
                    preserve_numbers,
                ) <= i32::MAX,
            targets == remap_targets(
                source@.take(i as int),
                occupied@,
                first_fresh,
                preserve_numbers,
            ),
            targets.len() == i,
            claimed@ == occupied@ + targets,
            mapping@ == paired(source@.take(i as int), targets),
            first_fresh.0 <= next <= i32::MAX + 1,
            forall|m: int| first_fresh.0 <= m < next ==> #[trigger] claims(claimed@, m),
    {
        let number = source[i];
        let ghost held = claimed@;
        let target = if preserve_numbers && !holds_room(&claimed, number) {
            proof {
                lemma_contains_claims(held, number);
            }
            number
        } else {
            proof {
                lemma_contains_claims(held, number);
            }
            while next <= 0x7fff_ffff && holds_room(&claimed, RoomNumber(next as i32))
                invariant
                    claimed@ == held,
                    first_fresh.0 <= next <= i32::MAX + 1,
                    forall|m: int| first_fresh.0 <= m < next ==> #[trigger] claims(held, m),
                ensures
                    first_fresh.0 <= next <= i32::MAX + 1,
                    forall|m: int| first_fresh.0 <= m < next ==> #[trigger] claims(held, m),
                    !claims(held, next as int),
                decreases i32::MAX + 1 - next,
            {
                proof {
                    lemma_contains_claims(held, RoomNumber(next as i32));
                }
                next = next + 1;
            }
            proof {
                assert(is_first_free(held, first_fresh.0 as int, next as int));
                lemma_first_free(held, first_fresh.0 as int, next as int);
                assert(remap_target(number, held, first_fresh, preserve_numbers) == next);
            }
            if next > 0x7fff_ffff {
                proof {
                    assert(source@.take(i as int).len() == i);
                    assert(!remap_fits(source@, occupied@, first_fresh, preserve_numbers));
                }
                return None;
            }
            let fresh = RoomNumber(next as i32);
            next = next + 1;
            fresh
        };
        claimed.push(target);
        mapping.push((number, target));
        proof {
            let shorter = source@.take(i + 1).drop_last();
            assert(shorter =~= source@.take(i as int));
            assert(target.0 == remap_target(number, held, first_fresh, preserve_numbers));
            targets = targets.push(target);
            assert(targets =~= remap_targets(
                source@.take(i + 1),
                occupied@,
                first_fresh,
                preserve_numbers,
            ));
            assert(claimed@ =~= occupied@ + targets);
            assert(mapping@ =~= paired(source@.take(i + 1), targets));
            assert forall|m: int| first_fresh.0 <= m < next implies #[trigger] claims(claimed@, m) by {
                if claims(held, m) {
                    let j = choose|j: int| 0 <= j < held.len() && (#[trigger] held[j]).0 == m;
                    assert(claimed@[j].0 == m);
                } else {
                    assert(claimed@[held.len() as int].0 == m);
                }
            }
        }
    }
    assert(source@.take(source.len() as int) =~= source@);
    Some(mapping)
}

/// Maps copied room numbers onto numbers vacant in the target area.
///
/// Cross-area pastes (`preserve_numbers`) keep each source number when it is
/// vacant (neither occupied nor claimed by this paste), so a merge-back lands on
/// the same identities. Collisions, and every same-area paste, take the least
/// free number from `first_fresh` on.
pub fn remap_room_numbers(
    source: &Vec<RoomNumber>,
    occupied: &Vec<RoomNumber>,
    first_fresh: RoomNumber,
    preserve_numbers: bool,
) -> (mapping: Vec<(RoomNumber, RoomNumber)>)
    requires
        remap_fits(source@, occupied@, first_fresh, preserve_numbers),
    ensures
        mapping@ == paired(
            source@,
            remap_targets(source@, occupied@, first_fresh, preserve_numbers),
        ),
{
    match remap_if_fits(source, occupied, first_fresh, preserve_numbers) {
        Some(mapping) => mapping,
        None => {
            assert(false);
            Vec::new()
        },
    }
}

/// A list of room numbers covers a number exactly when it holds it.
proof fn lemma_contains_claims(list: Seq<RoomNumber>, number: RoomNumber)
    ensures
        list.contains(number) == claims(list, number.0 as int),
{
    if claims(list, number.0 as int) {
        let i = choose|i: int| 0 <= i < list.len() && (#[trigger] list[i]).0 == number.0;
        assert(list[i] == number);
    }
}

// ===== Exits copied with their room =====

/// Where a pasted exit points.
#[derive(Clone, Copy, Debug, PartialEq, Eq, Structural)]
pub enum PastedExitDestination {
    /// Both ends were copied: the destination follows the room-number mapping
    /// into the paste target.
    Remapped(RoomNumber),
    /// A live link into another area, kept as it is.
    Live(AreaId, RoomNumber),
    /// The destination cannot be carried over; pasted unconnected.
    Dangling,
}

/// Where a pasted exit points:
/// - a copied room of the source area: mapped into the paste target,
/// - another cached area: kept as a live link,
/// - anything else (a room that was not copied, a withheld destination, an area
///   that is not cached, no destination): dangling.
///
/// A room number without an area means the source area.
pub open spec fn classified(
    exit: ExitClip<Seq<char>>,
    source_area_id: AreaId,
    mapping: Seq<(RoomNumber, RoomNumber)>,
    in_cache: spec_fn(AreaId) -> bool,
) -> PastedExitDestination {
    match exit.to_room_number {
        None => PastedExitDestination::Dangling,
        Some(to_room) => {
            let to_area = match exit.to_area_id {
                Some(area) => area,
                None => source_area_id,
            };
            if exit.to_unknown {
                PastedExitDestination::Dangling
            } else if to_area == source_area_id {
                match mapped(mapping, to_room) {
                    Some(number) => PastedExitDestination::Remapped(number),
                    None => PastedExitDestination::Dangling,
                }
            } else if in_cache(to_area) {
                PastedExitDestination::Live(to_area, to_room)
            } else {
                PastedExitDestination::Dangling
            }
        },
    }
}

/// `f` decides `p`.
pub open spec fn decides<F: Fn(AreaId) -> bool>(f: F, p: spec_fn(AreaId) -> bool) -> bool {
    forall|id: AreaId, r: bool| f.ensures((id,), r) ==> r == p(id)
}

/// Classifies a copied exit's destination for pasting.
pub fn classify_pasted_exit<F: Fn(AreaId) -> bool>(
    exit: &ExitClip,
    source_area_id: AreaId,
    mapping: &Vec<(RoomNumber, RoomNumber)>,
    area_in_cache: F,
) -> (destination: PastedExitDestination)
    requires
        forall|id: AreaId| #[trigger] area_in_cache.requires((id,)),
    ensures
        forall|p: spec_fn(AreaId) -> bool| #[trigger]
            decides(area_in_cache, p) ==> destination == classified(
                exit@,
                source_area_id,
                mapping@,
                p,
            ),
{
    if exit.to_unknown {
        return PastedExitDestination::Dangling;
    }
    let to_room = match exit.to_room_number {
        Some(number) => number,
        None => return PastedExitDestination::Dangling,
    };
    let to_area = match exit.to_area_id {
        Some(area) => area,
        None => source_area_id,
    };
    if to_area == source_area_id {
        return match mapped_number(mapping, to_room) {
            Some(number) => PastedExitDestination::Remapped(number),
            None => PastedExitDestination::Dangling,
        };
    }
    if area_in_cache(to_area) {
        PastedExitDestination::Live(to_area, to_room)
    } else {
        PastedExitDestination::Dangling
    }
}

/// The destination fields of a pasted exit.
#[derive(Clone, Copy, Debug, PartialEq, Eq, Structural)]
pub struct Destination {
    pub to_area_id: Option<AreaId>,
    pub to_room_number: Option<RoomNumber>,
    pub to_direction: Option<ExitDirection>,
}

/// No destination.
pub open spec fn nowhere() -> Destination {
    Destination { to_area_id: None, to_room_number: None, to_direction: None }
}

/// The destination fields of a classified exit.
pub open spec fn classified_destination(
    exit: ExitClip<Seq<char>>,
    target_area_id: AreaId,
    destination: PastedExitDestination,
) -> Destination {
    match destination {
        PastedExitDestination::Remapped(number) => Destination {
            to_area_id: Some(target_area_id),
            to_room_number: Some(number),
            to_direction: exit.to_direction,
        },
        PastedExitDestination::Live(area_id, number) => Destination {
            to_area_id: Some(area_id),
            to_room_number: Some(number),
            to_direction: exit.to_direction,
        },
        PastedExitDestination::Dangling => nowhere(),
    }
}

/// The body of a pasted exit.
pub open spec fn pasted_exit(
    exit: ExitClip<Seq<char>>,
    id: ExitId,
    connection_id: Option<ConnectionId>,
    to: Destination,
    cleared: bool,
) -> ExitArgs<Seq<char>> {
    ExitArgs {
        id: Some(id),
        connection_id,
        new_connection_id: None,
        is_secret: deletion::secrecy(cleared, exit.is_secret),
        from_direction: exit.from_direction,
        to_area_id: to.to_area_id,
        to_room_number: to.to_room_number,
        to_direction: to.to_direction,
        path: exit.path,
        is_hidden: exit.is_hidden,
        is_closed: exit.is_closed,
        is_locked: exit.is_locked,
        weight: exit.weight,
        command: exit.command,
    }
}

/// The body of a pasted exit.
fn paste_exit(
    exit: &ExitClip,
    id: ExitId,
    connection_id: Option<ConnectionId>,
    to: Destination,
    cleared: bool,
) -> (args: ExitArgs)
    ensures
        args@ == pasted_exit(exit@, id, connection_id, to, cleared),
{
    ExitArgs {
        id: Some(id),
        connection_id,
        new_connection_id: None,
        is_secret: secrecy_of(cleared, exit.is_secret),
        from_direction: exit.from_direction,
        to_area_id: to.to_area_id,
        to_room_number: to.to_room_number,
        to_direction: to.to_direction,
        path: clone_opt(&exit.path),
        is_hidden: exit.is_hidden,
        is_closed: exit.is_closed,
        is_locked: exit.is_locked,
        weight: exit.weight,
        command: clone_opt(&exit.command),
    }
}

// ===== What a paste is given =====

/// Fresh identities for a paste, in the shape of the clipboard: one for each exit
/// copied with its room, one for each connection, and one for each exit copied
/// with its connection.
pub struct PasteIds {
    pub room_exits: Vec<Vec<ExitId>>,
    pub connections: Vec<ConnectionId>,
    pub members: Vec<Vec<ExitId>>,
}

impl PasteIds {
    /// Whether there is an identity for everything the clipboard may create.
    pub open spec fn covers(self, clipboard: ClipboardView) -> bool {
        &&& self.room_exits@.len() >= clipboard.rooms.len()
        &&& forall|i: int|
            0 <= i < clipboard.rooms.len() ==> (#[trigger] self.room_exits@[i])@.len()
                >= clipboard.rooms[i].exits.len()
        &&& self.connections@.len() >= clipboard.connections.len()
        &&& self.members@.len() >= clipboard.connections.len()
        &&& forall|i: int|
            0 <= i < clipboard.connections.len() ==> (#[trigger] self.members@[i])@.len()
                >= clipboard.connections[i].members.len()
    }
}

/// Where everything on the clipboard goes, in the shape of the clipboard.
pub struct PastePoints {
    pub rooms: Vec<Point>,
    pub routes: Vec<Vec<Point>>,
    pub labels: Vec<Point>,
    pub shapes: Vec<Point>,
}

impl PastePoints {
    /// Whether there is a place for everything on the clipboard.
    pub open spec fn covers(self, clipboard: ClipboardView) -> bool {
        &&& self.rooms@.len() == clipboard.rooms.len()
        &&& self.routes@.len() == clipboard.connections.len()
        &&& self.labels@.len() == clipboard.labels.len()
        &&& self.shapes@.len() == clipboard.shapes.len()
    }
}

/// What a paste is made against.
pub struct PasteContext {
    pub atlas: AtlasCache,
    pub area: AreaCache,
    pub target_area_id: AreaId,
    pub source_area_id: AreaId,
    pub same_area: bool,
    pub cleared: bool,
    pub mapping: Seq<(RoomNumber, RoomNumber)>,
}

/// The numbers of an area's rooms.
pub open spec fn occupied_numbers(area: AreaCache) -> Seq<RoomNumber> {
    area.rooms@.map_values(|room: RoomCache| room.room_number)
}

/// The numbers of copied rooms.
pub open spec fn source_numbers(rooms: Seq<RoomClipView>) -> Seq<RoomNumber> {
    rooms.map_values(|room: RoomClipView| room.room_number)
}

/// The number a paste allocates from.
pub open spec fn fresh_base(area: AreaCache, next_room_number: Option<RoomNumber>) -> RoomNumber {
    match next_room_number {
        Some(number) => number,
        None => area.next_room_number,
    }
}

/// Where each copied room goes.
pub open spec fn paste_mapping(
    area: AreaCache,
    clipboard: ClipboardView,
    same_area: bool,
    next_room_number: Option<RoomNumber>,
) -> Seq<(RoomNumber, RoomNumber)> {
    let source = source_numbers(clipboard.rooms);
    paired(
        source,
        remap_targets(
            source,
            occupied_numbers(area),
            fresh_base(area, next_room_number),
            !same_area,
        ),
    )
}

/// What a paste of `clipboard` into a cached area is made against.
pub open spec fn paste_context(
    atlas: AtlasCache,
    area: AreaCache,
    target_area_id: AreaId,
    clipboard: ClipboardView,
    next_room_number: Option<RoomNumber>,
) -> PasteContext {
    let same_area = clipboard.source_area_id == Some(target_area_id);
    PasteContext {
        atlas,
        area,
        target_area_id,
        source_area_id: match clipboard.source_area_id {
            Some(id) => id,
            None => target_area_id,
        },
        same_area,
        cleared: area.access.is_cleared_for_secrets,
        mapping: paste_mapping(area, clipboard, same_area, next_room_number),
    }
}

// ===== Rooms =====

/// The number a copied room is pasted under.
pub open spec fn pasted_number(context: PasteContext, room: RoomClipView) -> RoomNumber {
    mapped(context.mapping, room.room_number)->0
}

/// The body of a pasted room: it keeps its level, and moves to its place.
pub open spec fn pasted_room(room: RoomClipView, at: Point, cleared: bool) -> RoomUpdates<Seq<char>> {
    RoomUpdates {
        is_secret: deletion::secrecy(cleared, room.is_secret),
        title: Some(room.title),
        description: Some(room.description),
        level: Some(room.level),
        x: Some(at.x),
        y: Some(at.y),
        color: Some(room.color),
        external_id: match room.external_id {
            Some(id) => Some(Some(id)),
            None => None,
        },
    }
}

/// The write that pastes one property.
pub open spec fn pasted_property(number: RoomNumber, pair: (Seq<char>, Seq<char>)) -> OpView {
    AreaMutation::UpsertRoomProperty {
        room_number: number,
        name: pair.0,
        value: pair.1,
        is_secret: None,
    }
}

/// The writes that paste one room: the room, then its properties.
pub open spec fn room_writes(context: PasteContext, room: RoomClipView, at: Point) -> Seq<OpView> {
    let number = pasted_number(context, room);
    seq![AreaMutation::UpsertRoom { room_number: number, body: pasted_room(room, at, context.cleared) }]
        + room.properties.map_values(
        |pair: (Seq<char>, Seq<char>)| pasted_property(number, pair),
    )
}

/// The writes that paste the rooms, in order.
pub open spec fn rooms_writes(
    context: PasteContext,
    rooms: Seq<RoomClipView>,
    points: Seq<Point>,
) -> Seq<OpView>
    decreases rooms.len(),
{
    if rooms.len() == 0 {
        Seq::empty()
    } else {
        rooms_writes(context, rooms.drop_last(), points) + room_writes(
            context,
            rooms.last(),
            points[rooms.len() - 1],
        )
    }
}

/// The write that pastes an exit copied with its room.
pub open spec fn room_exit_write(
    context: PasteContext,
    number: RoomNumber,
    exit: ExitClip<Seq<char>>,
    id: ExitId,
) -> OpView {
    let to = classified_destination(
        exit,
        context.target_area_id,
        classified(
            exit,
            context.source_area_id,
            context.mapping,
            |area: AreaId| context.atlas.area(area) is Some,
        ),
    );
    AreaMutation::CreateExit {
        room_number: number,
        body: pasted_exit(exit, id, None, to, context.cleared),
    }
}

/// The writes that paste the exits copied with one room.
pub open spec fn room_exit_writes(
    context: PasteContext,
    room: RoomClipView,
    ids: Seq<ExitId>,
) -> Seq<OpView> {
    Seq::new(
        room.exits.len(),
        |k: int| room_exit_write(context, pasted_number(context, room), room.exits[k], ids[k]),
    )
}

/// The writes that paste the exits copied with the rooms, in order.
pub open spec fn rooms_exit_writes(
    context: PasteContext,
    rooms: Seq<RoomClipView>,
    ids: Seq<Vec<ExitId>>,
) -> Seq<OpView>
    decreases rooms.len(),
{
    if rooms.len() == 0 {
        Seq::empty()
    } else {
        rooms_exit_writes(context, rooms.drop_last(), ids) + room_exit_writes(
            context,
            rooms.last(),
            ids[rooms.len() - 1]@,
        )
    }
}

/// The numbers the rooms are pasted under, in order.
pub open spec fn pasted_numbers(context: PasteContext, rooms: Seq<RoomClipView>) -> Seq<RoomNumber> {
    rooms.map_values(|room: RoomClipView| pasted_number(context, room))
}

// ===== Connections =====

/// The room a copied room number stands for in the target: the pasted copy, or
/// else the existing room of that number.
pub open spec fn resolved_room(context: PasteContext, number: RoomNumber) -> Option<RoomNumber> {
    match mapped(context.mapping, number) {
        Some(target) => Some(target),
        None => if context.area.room(number) is Some {
            Some(number)
        } else {
            None
        },
    }
}

/// Whether a room already has an exit in a direction.
pub open spec fn direction_taken(area: AreaCache, number: RoomNumber, direction: ExitDirection) -> bool {
    match area.room(number) {
        Some(room) => exists|i: int|
            0 <= i < room.exits@.len() && (#[trigger] room.exits@[i]).from_direction == direction,
        None => false,
    }
}

/// Whether a copied exit can be pasted: its room is there, and an existing room
/// does not have an exit in its direction already.
pub open spec fn member_fits(context: PasteContext, member: (RoomNumber, ExitClip<Seq<char>>)) -> bool {
    match resolved_room(context, member.0) {
        Some(number) => mapped(context.mapping, member.0) is Some || !direction_taken(
            context.area,
            number,
            member.1.from_direction,
        ),
        None => false,
    }
}

/// Whether a copied connection can be pasted: its ends are there, and each of its
/// exits can be pasted.
pub open spec fn connection_fits(context: PasteContext, clip: ConnectionClipView) -> bool {
    &&& resolved_room(context, clip.body.endpoint_a.room_number) is Some
    &&& clip.body.endpoint_b matches Some(endpoint_b) ==> resolved_room(
        context,
        endpoint_b.room_number,
    ) is Some
    &&& forall|i: int| 0 <= i < clip.members.len() ==> member_fits(context, #[trigger] clip.members[i])
}

/// Whether a copied connection is pasted onto a room that was there before: its
/// route belongs to the source layout, and deleting the pasted rooms will not
/// delete it.
pub open spec fn on_existing_room(context: PasteContext, clip: ConnectionClipView) -> bool {
    mapped(context.mapping, clip.body.endpoint_a.room_number) is None || (clip.body.endpoint_b matches Some(
        endpoint_b,
    ) && mapped(context.mapping, endpoint_b.room_number) is None)
}

/// Where a copied exit of a connection leads: another area is kept when it is
/// cached, a room of the source area is resolved like the ends.
pub open spec fn member_destination(context: PasteContext, exit: ExitClip<Seq<char>>) -> Destination {
    if exit.to_area_id is Some && exit.to_area_id != Some(context.source_area_id) {
        if context.atlas.area(exit.to_area_id->0) is Some {
            Destination {
                to_area_id: exit.to_area_id,
                to_room_number: exit.to_room_number,
                to_direction: exit.to_direction,
            }
        } else {
            nowhere()
        }
    } else {
        match exit.to_room_number {
            None => nowhere(),
            Some(number) => match resolved_room(context, number) {
                Some(number) => Destination {
                    to_area_id: Some(context.target_area_id),
                    to_room_number: Some(number),
                    to_direction: exit.to_direction,
                },
                None => nowhere(),
            },
        }
    }
}

/// The body of a pasted connection.
pub open spec fn pasted_connection(
    context: PasteContext,
    clip: ConnectionClipView,
    id: ConnectionId,
    route: Seq<Point>,
) -> ConnectionArgs<Seq<char>, Seq<Point>> {
    let body = ConnectionArgs {
        id,
        endpoint_a: super::model::ConnectionEndpoint {
            room_number: resolved_room(context, clip.body.endpoint_a.room_number)->0,
            ..clip.body.endpoint_a
        },
        endpoint_b: match clip.body.endpoint_b {
            Some(endpoint_b) => Some(
                super::model::ConnectionEndpoint {
                    room_number: resolved_room(context, endpoint_b.room_number)->0,
                    ..endpoint_b
                },
            ),
            None => None,
        },
        ..clip.body
    };
    if on_existing_room(context, clip) {
        clipboard::without_route(body)
    } else {
        ConnectionArgs { route_points: route, ..body }
    }
}

/// The write that pastes an exit of a connection.
pub open spec fn member_write(
    context: PasteContext,
    member: (RoomNumber, ExitClip<Seq<char>>),
    id: ExitId,
    connection_id: ConnectionId,
) -> OpView {
    AreaMutation::CreateExit {
        room_number: resolved_room(context, member.0)->0,
        body: pasted_exit(
            member.1,
            id,
            Some(connection_id),
            member_destination(context, member.1),
            context.cleared,
        ),
    }
}

/// The writes that paste the exits of a connection.
pub open spec fn member_writes(
    context: PasteContext,
    members: Seq<(RoomNumber, ExitClip<Seq<char>>)>,
    ids: Seq<ExitId>,
    connection_id: ConnectionId,
) -> Seq<OpView> {
    Seq::new(members.len(), |k: int| member_write(context, members[k], ids[k], connection_id))
}

/// The writes that paste one connection: the connection, then its exits.
pub open spec fn connection_writes(
    context: PasteContext,
    clip: ConnectionClipView,
    id: ConnectionId,
    ids: Seq<ExitId>,
    route: Seq<Point>,
) -> Seq<OpView> {
    seq![AreaMutation::CreateConnection { body: pasted_connection(context, clip, id, route) }]
        + member_writes(context, clip.members, ids, id)
}

/// What pasting connections comes to: the writes, the links that undo must
/// delete itself, and how many were skipped.
pub struct ConnectionsPaste {
    pub writes: Seq<OpView>,
    pub undo_links: Seq<OpView>,
    pub skipped: int,
}

/// What pasting the connections comes to, in order.
pub open spec fn connections_paste(
    context: PasteContext,
    clips: Seq<ConnectionClipView>,
    ids: PasteIds,
    routes: Seq<Vec<Point>>,
) -> ConnectionsPaste
    decreases clips.len(),
{
    if clips.len() == 0 {
        ConnectionsPaste { writes: Seq::empty(), undo_links: Seq::empty(), skipped: 0 }
    } else {
        let before = connections_paste(context, clips.drop_last(), ids, routes);
        let clip = clips.last();
        let k = clips.len() - 1;
        let id = ids.connections@[k];
        if !connection_fits(context, clip) {
            ConnectionsPaste { skipped: before.skipped + 1, ..before }
        } else {
            ConnectionsPaste {
                writes: before.writes + connection_writes(
                    context,
                    clip,
                    id,
                    ids.members@[k]@,
                    routes[k]@,
                ),
                undo_links: if on_existing_room(context, clip) {
                    before.undo_links.push(AreaMutation::DeleteLink { connection_id: id })
                } else {
                    before.undo_links
                },
                ..before
            }
        }
    }
}

// ===== Building the paste =====

/// What a paste is made against, by reference.
struct Against<'a> {
    atlas: &'a AtlasCache,
    area: &'a AreaCache,
    target_area_id: AreaId,
    source_area_id: AreaId,
    same_area: bool,
    cleared: bool,
    mapping: Vec<(RoomNumber, RoomNumber)>,
}

impl<'a> Against<'a> {
    spec fn context(self) -> PasteContext {
        PasteContext {
            atlas: *self.atlas,
            area: *self.area,
            target_area_id: self.target_area_id,
            source_area_id: self.source_area_id,
            same_area: self.same_area,
            cleared: self.cleared,
            mapping: self.mapping@,
        }
    }

    /// The room a copied room number stands for in the target.
    fn resolve(&self, number: RoomNumber) -> (room: Option<RoomNumber>)
        ensures
            room == resolved_room(self.context(), number),
    {
        match mapped_number(&self.mapping, number) {
            Some(target) => Some(target),
            None => if self.area.get_room(&number).is_some() {
                Some(number)
            } else {
                None
            },
        }
    }

    /// Whether a copied exit can be pasted.
    fn fits_member(&self, member: &(RoomNumber, ExitClip)) -> (fits: bool)
        ensures
            fits == member_fits(self.context(), clipboard::member_clip(*member)),
    {
        let number = match self.resolve(member.0) {
            Some(number) => number,
            None => return false,
        };
        if mapped_number(&self.mapping, member.0).is_some() {
            return true;
        }
        let direction = member.1.from_direction;
        match self.area.get_room(&number) {
            Some(room) => {
                for i in 0..room.exits.len()
                    invariant
                        forall|j: int| 0 <= j < i ==> (#[trigger] room.exits@[j]).from_direction != direction,
                        self.area.room(number) == Some(*room),
                        resolved_room(self.context(), member.0) == Some(number),
                        mapped(self.mapping@, member.0) is None,
                        direction == member.1.from_direction,
                {
                    if room.exits[i].from_direction == direction {
                        assert(direction_taken(*self.area, number, direction));
                        return false;
                    }
                }
                true
            },
            None => true,
        }
    }

    /// Whether a copied connection can be pasted.
    fn fits_connection(&self, clip: &ConnectionClip) -> (fits: bool)
        ensures
            fits == connection_fits(self.context(), clip@),
    {
        if self.resolve(clip.body.endpoint_a.room_number).is_none() {
            return false;
        }
        if let Some(endpoint_b) = clip.body.endpoint_b {
            if self.resolve(endpoint_b.room_number).is_none() {
                return false;
            }
        }
        for i in 0..clip.members.len()
            invariant
                forall|j: int|
                    0 <= j < i ==> member_fits(self.context(), #[trigger] clip@.members[j]),
        {
            assert(clip@.members[i as int] == clipboard::member_clip(clip.members@[i as int]));
            if !self.fits_member(&clip.members[i]) {
                assert(!member_fits(self.context(), clip@.members[i as int]));
                return false;
            }
        }
        true
    }

    /// Whether a copied connection is pasted onto a room that was there before.
    fn meets_existing(&self, clip: &ConnectionClip) -> (existing: bool)
        ensures
            existing == on_existing_room(self.context(), clip@),
    {
        if mapped_number(&self.mapping, clip.body.endpoint_a.room_number).is_none() {
            return true;
        }
        match clip.body.endpoint_b {
            Some(endpoint_b) => mapped_number(&self.mapping, endpoint_b.room_number).is_none(),
            None => false,
        }
    }

    /// Where a copied exit of a connection leads.
    fn destination(&self, exit: &ExitClip) -> (to: Destination)
        ensures
            to == member_destination(self.context(), exit@),
    {
        let none = Destination { to_area_id: None, to_room_number: None, to_direction: None };
        if let Some(area_id) = exit.to_area_id {
            if area_id != self.source_area_id {
                return if self.atlas.get_area(&area_id).is_some() {
                    Destination {
                        to_area_id: Some(area_id),
                        to_room_number: exit.to_room_number,
                        to_direction: exit.to_direction,
                    }
                } else {
                    none
                };
            }
        }
        match exit.to_room_number {
            None => none,
            Some(number) => match self.resolve(number) {
                Some(number) => Destination {
                    to_area_id: Some(self.target_area_id),
                    to_room_number: Some(number),
                    to_direction: exit.to_direction,
                },
                None => none,
            },
        }
    }

    /// Pastes one room and its properties.
    fn push_room(&self, ops: &mut Vec<AreaMutation>, room: &RoomClip, number: RoomNumber, at: Point)
        requires
            number == pasted_number(self.context(), room@),
        ensures
            mutation::ops_view(final(ops)@) == mutation::ops_view(old(ops)@) + room_writes(
                self.context(),
                room@,
                at,
            ),
    {
        let ghost before = mutation::ops_view(ops@);
        let body = RoomUpdates {
            is_secret: secrecy_of(self.cleared, room.is_secret),
            title: Some(room.title.clone()),
            description: Some(room.description.clone()),
            level: Some(room.level),
            x: Some(at.x),
            y: Some(at.y),
            color: Some(room.color.clone()),
            external_id: match &room.external_id {
                Some(id) => Some(Some(id.clone())),
                None => None,
            },
        };
        assert(body@ == pasted_room(room@, at, self.cleared));
        push_op(ops, AreaMutation::UpsertRoom { room_number: number, body });
        let ghost head = mutation::ops_view(ops@);
        let ghost pairs = clipboard::text_pairs(room.properties@);
        let ghost made = |pair: (Seq<char>, Seq<char>)| pasted_property(number, pair);
        assert(head =~= head + pairs.take(0).map_values(made));
        for k in 0..room.properties.len()
            invariant
                pairs == clipboard::text_pairs(room.properties@),
                made == (|pair: (Seq<char>, Seq<char>)| pasted_property(number, pair)),
                mutation::ops_view(ops@) == head + pairs.take(k as int).map_values(made),
        {
            let name = room.properties[k].0.clone();
            let value = room.properties[k].1.clone();
            push_op(
                ops,
                AreaMutation::UpsertRoomProperty { room_number: number, name, value, is_secret: None },
            );
            proof {
                assert(pairs[k as int] == (name@, value@));
                assert(mutation::ops_view(ops@) =~= head + pairs.take(k + 1).map_values(made));
            }
        }
        proof {
            assert(pairs.take(room.properties.len() as int) =~= pairs);
            assert(mutation::ops_view(ops@) =~= before + room_writes(self.context(), room@, at));
        }
    }

    /// Pastes the exits copied with one room.
    fn push_room_exits(
        &self,
        ops: &mut Vec<AreaMutation>,
        room: &RoomClip,
        number: RoomNumber,
        ids: &Vec<ExitId>,
    )
        requires
            number == pasted_number(self.context(), room@),
            ids@.len() >= room@.exits.len(),
        ensures
            mutation::ops_view(final(ops)@) == mutation::ops_view(old(ops)@) + room_exit_writes(
                self.context(),
                room@,
                ids@,
            ),
    {
        let ghost before = mutation::ops_view(ops@);
        let ghost all = room_exit_writes(self.context(), room@, ids@);
        let atlas = self.atlas;
        let ghost cached = |area: AreaId| atlas.area(area) is Some;
        assert(before =~= before + all.take(0));
        for k in 0..room.exits.len()
            invariant
                number == pasted_number(self.context(), room@),
                ids@.len() >= room@.exits.len(),
                atlas == self.atlas,
                cached == (|area: AreaId| atlas.area(area) is Some),
                all == room_exit_writes(self.context(), room@, ids@),
                mutation::ops_view(ops@) == before + all.take(k as int),
        {
            let exit = &room.exits[k];
            let in_cache = |area: AreaId| -> (r: bool)
                ensures
                    r == (atlas.area(area) is Some),
            {
                atlas.get_area(&area).is_some()
            };
            assert(decides(in_cache, cached));
            let destination = classify_pasted_exit(
                exit,
                self.source_area_id,
                &self.mapping,
                in_cache,
            );
            let to = match destination {
                PastedExitDestination::Remapped(number) => Destination {
                    to_area_id: Some(self.target_area_id),
                    to_room_number: Some(number),
                    to_direction: exit.to_direction,
                },
                PastedExitDestination::Live(area_id, number) => Destination {
                    to_area_id: Some(area_id),
                    to_room_number: Some(number),
                    to_direction: exit.to_direction,
                },
                PastedExitDestination::Dangling => Destination {
                    to_area_id: None,
                    to_room_number: None,
                    to_direction: None,
                },
            };
            proof {
                assert(cached == (|area: AreaId| self.context().atlas.area(area) is Some));
                assert(room@.exits[k as int] == exit@);
            }
            let op = AreaMutation::CreateExit {
                room_number: number,
                body: paste_exit(exit, ids[k], None, to, self.cleared),
            };
            push_op(ops, op);
            proof {
                assert(op@ == all[k as int]);
                assert(mutation::ops_view(ops@) =~= before + all.take(k + 1));
            }
        }
        assert(all.take(room.exits.len() as int) =~= all);
    }

    /// Pastes the exits of a connection.
    fn push_members(
        &self,
        ops: &mut Vec<AreaMutation>,
        clip: &ConnectionClip,
        ids: &Vec<ExitId>,
        connection_id: ConnectionId,
    )
        requires
            connection_fits(self.context(), clip@),
            ids@.len() >= clip@.members.len(),
        ensures
            mutation::ops_view(final(ops)@) == mutation::ops_view(old(ops)@) + member_writes(
                self.context(),
                clip@.members,
                ids@,
                connection_id,
            ),
    {
        let ghost before = mutation::ops_view(ops@);
        let ghost all = member_writes(self.context(), clip@.members, ids@, connection_id);
        assert(before =~= before + all.take(0));
        for k in 0..clip.members.len()
            invariant
                connection_fits(self.context(), clip@),
                ids@.len() >= clip@.members.len(),
                all == member_writes(self.context(), clip@.members, ids@, connection_id),
                mutation::ops_view(ops@) == before + all.take(k as int),
        {
            assert(clip@.members[k as int] == clipboard::member_clip(clip.members@[k as int]));
            assert(member_fits(self.context(), clip@.members[k as int]));
            let exit = &clip.members[k].1;
            if let Some(room_number) = self.resolve(clip.members[k].0) {
                let to = self.destination(exit);
                let op = AreaMutation::CreateExit {
                    room_number,
                    body: paste_exit(exit, ids[k], Some(connection_id), to, self.cleared),
                };
                push_op(ops, op);
                proof {
                    assert(op@ == all[k as int]);
                    assert(mutation::ops_view(ops@) =~= before + all.take(k + 1));
                }
            }
        }
        assert(all.take(clip.members.len() as int) =~= all);
    }

    /// The body of a pasted connection.
    fn connection_body(
        &self,
        clip: &ConnectionClip,
        id: ConnectionId,
        route: &Vec<Point>,
    ) -> (body: ConnectionArgs)
        requires
            connection_fits(self.context(), clip@),
        ensures
            body@ == pasted_connection(self.context(), clip@, id, route@),
    {
        let mut body = clip.body.clone();
        body.id = id;
        if let Some(number) = self.resolve(clip.body.endpoint_a.room_number) {
            body.endpoint_a.room_number = number;
        }
        if let Some(endpoint_b) = clip.body.endpoint_b {
            let mut moved = endpoint_b;
            if let Some(number) = self.resolve(endpoint_b.room_number) {
                moved.room_number = number;
            }
            body.endpoint_b = Some(moved);
        }
        if self.meets_existing(clip) {
            drop_route(body)
        } else {
            body.route_points = super::model::clone_points(route);
            body
        }
    }
}

// ===== The whole clipboard =====

/// A pasted label: moved to its place, and onto the current level when pasted
/// into the area it came from.
pub open spec fn pasted_label(
    label: LabelArgs<Seq<char>>,
    at: Point,
    same_area: bool,
    level: i32,
) -> LabelArgs<Seq<char>> {
    LabelArgs {
        level: if same_area {
            level
        } else {
            label.level
        },
        x: at.x,
        y: at.y,
        ..label
    }
}

/// A pasted shape, like a pasted label.
pub open spec fn pasted_shape(
    shape: ShapeArgs<Seq<char>>,
    at: Point,
    same_area: bool,
    level: i32,
) -> ShapeArgs<Seq<char>> {
    ShapeArgs {
        level: if same_area {
            level
        } else {
            shape.level
        },
        x: at.x,
        y: at.y,
        ..shape
    }
}

/// The mutations that paste the labels, in consecutive slots.
pub open spec fn labels_pasted(
    area_id: AreaId,
    labels: Seq<LabelArgs<Seq<char>>>,
    points: Seq<Point>,
    same_area: bool,
    level: i32,
) -> Seq<MutationView> {
    Seq::new(
        labels.len(),
        |i: int|
            Mutation::CreateLabel {
                area_id,
                args: pasted_label(labels[i], points[i], same_area, level),
                slot: i as usize,
            },
    )
}

/// The mutations that paste the shapes, in consecutive slots from `base`.
pub open spec fn shapes_pasted(
    area_id: AreaId,
    shapes: Seq<ShapeArgs<Seq<char>>>,
    points: Seq<Point>,
    same_area: bool,
    level: i32,
    base: int,
) -> Seq<MutationView> {
    Seq::new(
        shapes.len(),
        |i: int|
            Mutation::CreateShape {
                area_id,
                args: pasted_shape(shapes[i], points[i], same_area, level),
                slot: (base + i) as usize,
            },
    )
}

/// What a paste comes to.
pub struct PasteView {
    pub command: Option<CommandView>,
    pub rooms: Seq<RoomNumber>,
    pub skipped: int,
}

/// What a paste of rooms and links is called.
pub open spec fn paste_description(rooms: nat) -> Seq<char> {
    if rooms == 0 {
        "Paste links"@
    } else {
        "Paste "@ + text::decimal(rooms) + " rooms and contained links"@
    }
}

/// The writes that delete the pasted rooms.
pub open spec fn room_deletes(rooms: Seq<RoomNumber>) -> Seq<OpView> {
    rooms.map_values(|number: RoomNumber| room_delete(number))
}

/// The write that deletes a room.
pub open spec fn room_delete(number: RoomNumber) -> OpView {
    AreaMutation::DeleteRoom { room_number: number }
}

/// The writes of one envelope: the rooms with their properties, the exits copied
/// with them, and the connections with their exits.
pub open spec fn paste_writes(
    context: PasteContext,
    clipboard: ClipboardView,
    points: PastePoints,
    ids: PasteIds,
) -> Seq<OpView> {
    rooms_writes(context, clipboard.rooms, points.rooms@) + rooms_exit_writes(
        context,
        clipboard.rooms,
        ids.room_exits@,
    ) + connections_paste(context, clipboard.connections, ids, points.routes@).writes
}

/// What pasting `clipboard` comes to, with every place and identity given. A
/// paste of more than `limit` writes does nothing.
pub open spec fn pasted(
    atlas: AtlasCache,
    target_area_id: AreaId,
    clipboard: ClipboardView,
    level: i32,
    points: PastePoints,
    ids: PasteIds,
    next_room_number: Option<RoomNumber>,
    limit: int,
) -> PasteView {
    let nothing = PasteView { command: None, rooms: Seq::empty(), skipped: 0 };
    match atlas.area(target_area_id) {
        None => nothing,
        Some(area) => {
            let context = paste_context(atlas, area, target_area_id, clipboard, next_room_number);
            let writes = paste_writes(context, clipboard, points, ids);
            let links = connections_paste(context, clipboard.connections, ids, points.routes@);
            let rooms = pasted_numbers(context, clipboard.rooms);
            let labels = clipboard.labels.len();
            let redo = (if writes.len() == 0 {
                Seq::empty()
            } else {
                seq![edits::batch(target_area_id, writes, paste_description(rooms.len()))]
            }) + labels_pasted(
                target_area_id,
                clipboard.labels,
                points.labels@,
                context.same_area,
                level,
            ) + shapes_pasted(
                target_area_id,
                clipboard.shapes,
                points.shapes@,
                context.same_area,
                level,
                labels as int,
            );
            let undo = (if writes.len() == 0 {
                Seq::empty()
            } else {
                seq![
                    edits::batch(
                        target_area_id,
                        links.undo_links + room_deletes(rooms),
                        "Undo paste"@,
                    ),
                ]
            }) + deletion::labels_deleted(target_area_id, labels, 0) + deletion::shapes_deleted(
                target_area_id,
                clipboard.shapes.len(),
                labels as int,
            );
            if clipboard::holds_nothing(clipboard) || writes.len() > limit {
                nothing
            } else {
                PasteView {
                    command: if redo.len() == 0 {
                        None
                    } else {
                        Some(commands::new_command(redo, undo))
                    },
                    rooms,
                    skipped: links.skipped,
                }
            }
        },
    }
}

/// Whether every copied room finds a number in the target area.
pub open spec fn rooms_fit(
    atlas: AtlasCache,
    target_area_id: AreaId,
    clipboard: ClipboardView,
    next_room_number: Option<RoomNumber>,
) -> bool {
    atlas.area(target_area_id) matches Some(area) ==> remap_fits(
        source_numbers(clipboard.rooms),
        occupied_numbers(area),
        fresh_base(area, next_room_number),
        clipboard.source_area_id != Some(target_area_id),
    )
}

/// The numbers of an area's rooms.
fn list_occupied(area: &AreaCache) -> (occupied: Vec<RoomNumber>)
    ensures
        occupied@ == occupied_numbers(*area),
{
    let mut occupied: Vec<RoomNumber> = Vec::new();
    for i in 0..area.rooms.len()
        invariant
            occupied@ == occupied_numbers(*area).take(i as int),
    {
        occupied.push(area.rooms[i].room_number);
        assert(occupied_numbers(*area).take(i + 1) =~= occupied_numbers(*area).take(i as int).push(
            occupied_numbers(*area)[i as int],
        ));
    }
    assert(occupied_numbers(*area).take(area.rooms.len() as int) =~= occupied_numbers(*area));
    occupied
}

/// The numbers of copied rooms.
fn list_sources(clipboard: &EntityClipboard) -> (source: Vec<RoomNumber>)
    ensures
        source@ == source_numbers(clipboard@.rooms),
{
    let ghost numbers = source_numbers(clipboard@.rooms);
    let mut source: Vec<RoomNumber> = Vec::new();
    for i in 0..clipboard.rooms.len()
        invariant
            numbers == source_numbers(clipboard@.rooms),
            source@ == numbers.take(i as int),
    {
        source.push(clipboard.rooms[i].room_number);
        proof {
            assert(numbers[i as int] == clipboard.rooms@[i as int].room_number);
            assert(numbers.take(i + 1) =~= numbers.take(i as int).push(numbers[i as int]));
        }
    }
    assert(numbers.take(clipboard.rooms.len() as int) =~= numbers);
    source
}

/// The number from which new rooms of an area are numbered.
fn base_number(area: &AreaCache, next_room_number: Option<RoomNumber>) -> (base: RoomNumber)
    ensures
        base == fresh_base(*area, next_room_number),
{
    match next_room_number {
        Some(number) => number,
        None => area.next_room_number,
    }
}

/// Whether every copied room finds a number in the target area.
pub fn paste_has_room_numbers(
    atlas: &AtlasCache,
    target_area_id: AreaId,
    clipboard: &EntityClipboard,
    next_room_number: Option<RoomNumber>,
) -> (fits: bool)
    ensures
        fits == rooms_fit(*atlas, target_area_id, clipboard@, next_room_number),
{
    match atlas.get_area(&target_area_id) {
        None => true,
        Some(area) => {
            let same_area = match clipboard.source_area_id {
                Some(id) => id == target_area_id,
                None => false,
            };
            remap_if_fits(
                &list_sources(clipboard),
                &list_occupied(area),
                base_number(area, next_room_number),
                !same_area,
            ).is_some()
        },
    }
}

/// The mapping of a paste.
fn map_rooms(
    area: &AreaCache,
    clipboard: &EntityClipboard,
    same_area: bool,
    next_room_number: Option<RoomNumber>,
) -> (mapping: Vec<(RoomNumber, RoomNumber)>)
    requires
        remap_fits(
            source_numbers(clipboard@.rooms),
            occupied_numbers(*area),
            fresh_base(*area, next_room_number),
            !same_area,
        ),
    ensures
        mapping@ == paste_mapping(*area, clipboard@, same_area, next_room_number),
{
    remap_room_numbers(
        &list_sources(clipboard),
        &list_occupied(area),
        base_number(area, next_room_number),
        !same_area,
    )
}

/// What pasting rooms and connections collects.
struct Compound {
    writes: Vec<AreaMutation>,
    undo_links: Vec<AreaMutation>,
    rooms: Vec<RoomNumber>,
    skipped: usize,
}

/// Pastes the rooms and the connections.
fn compound(
    against: &Against,
    clipboard: &EntityClipboard,
    points: &PastePoints,
    ids: &PasteIds,
    Ghost(next): Ghost<Option<RoomNumber>>,
) -> (made: Compound)
    requires
        points.covers(clipboard@),
        ids.covers(clipboard@),
        against.mapping@ == paste_mapping(*against.area, clipboard@, against.same_area, next),
    ensures
        mutation::ops_view(made.writes@) == paste_writes(
            against.context(),
            clipboard@,
            *points,
            *ids,
        ),
        mutation::ops_view(made.undo_links@) == connections_paste(
            against.context(),
            clipboard@.connections,
            *ids,
            points.routes@,
        ).undo_links,
        made.rooms@ == pasted_numbers(against.context(), clipboard@.rooms),
        made.skipped == connections_paste(
            against.context(),
            clipboard@.connections,
            *ids,
            points.routes@,
        ).skipped,
{
    let ghost context = against.context();
    let ghost rooms_view = clipboard@.rooms;
    let mut writes: Vec<AreaMutation> = Vec::new();
    let mut rooms: Vec<RoomNumber> = Vec::new();
    proof {
        assert(rooms_view.take(0) =~= Seq::empty());
        assert(mutation::ops_view(writes@) =~= rooms_writes(context, rooms_view.take(0), points.rooms@));
        assert(rooms@ =~= pasted_numbers(context, rooms_view.take(0)));
    }
    for i in 0..clipboard.rooms.len()
        invariant
            context == against.context(),
            rooms_view == clipboard@.rooms,
            points.covers(clipboard@),
            against.mapping@ == paste_mapping(*against.area, clipboard@, against.same_area, next),
            mutation::ops_view(writes@) == rooms_writes(
                context,
                rooms_view.take(i as int),
                points.rooms@,
            ),
            rooms@ == pasted_numbers(context, rooms_view.take(i as int)),
    {
        let room = &clipboard.rooms[i];
        proof {
            assert(rooms_view[i as int] == room@);
            assert(rooms_view.take(i + 1).drop_last() =~= rooms_view.take(i as int));
            lemma_mapped_target(against.mapping@, i as int);
            assert(against.mapping@[i as int].0 == room@.room_number);
            assert(pasted_numbers(context, rooms_view.take(i + 1)) =~= pasted_numbers(
                context,
                rooms_view.take(i as int),
            ).push(pasted_number(context, room@)));
        }
        if let Some(number) = mapped_number(&against.mapping, room.room_number) {
            rooms.push(number);
            against.push_room(&mut writes, room, number, points.rooms[i]);
        }
    }
    assert(rooms_view.take(clipboard.rooms.len() as int) =~= rooms_view);
    let ghost with_rooms = mutation::ops_view(writes@);
    assert(with_rooms =~= with_rooms + rooms_exit_writes(
        context,
        rooms_view.take(0),
        ids.room_exits@,
    ));
    for i in 0..clipboard.rooms.len()
        invariant
            context == against.context(),
            rooms_view == clipboard@.rooms,
            ids.covers(clipboard@),
            rooms@ == pasted_numbers(context, rooms_view),
            mutation::ops_view(writes@) == with_rooms + rooms_exit_writes(
                context,
                rooms_view.take(i as int),
                ids.room_exits@,
            ),
    {
        let room = &clipboard.rooms[i];
        let ghost before = mutation::ops_view(writes@);
        proof {
            assert(rooms_view[i as int] == room@);
            assert(rooms_view.take(i + 1).drop_last() =~= rooms_view.take(i as int));
            assert(rooms@[i as int] == pasted_number(context, room@));
            assert(ids.room_exits@[i as int]@.len() >= room@.exits.len());
        }
        against.push_room_exits(&mut writes, room, rooms[i], &ids.room_exits[i]);
        assert(mutation::ops_view(writes@) =~= with_rooms + rooms_exit_writes(
            context,
            rooms_view.take(i + 1),
            ids.room_exits@,
        ));
    }
    let ghost with_exits = mutation::ops_view(writes@);
    let ghost clips = clipboard@.connections;
    let mut undo_links: Vec<AreaMutation> = Vec::new();
    let mut skipped: usize = 0;
    proof {
        let none = connections_paste(context, clips.take(0), *ids, points.routes@);
        assert(clips.take(0) =~= Seq::empty());
        assert(with_exits =~= with_exits + none.writes);
        assert(mutation::ops_view(undo_links@) =~= none.undo_links);
    }
    for i in 0..clipboard.connections.len()
        invariant
            context == against.context(),
            clips == clipboard@.connections,
            ids.covers(clipboard@),
            points.covers(clipboard@),
            mutation::ops_view(writes@) == with_exits + connections_paste(
                context,
                clips.take(i as int),
                *ids,
                points.routes@,
            ).writes,
            mutation::ops_view(undo_links@) == connections_paste(
                context,
                clips.take(i as int),
                *ids,
                points.routes@,
            ).undo_links,
            skipped == connections_paste(context, clips.take(i as int), *ids, points.routes@).skipped,
            skipped <= i,
    {
        let clip = &clipboard.connections[i];
        let ghost before = connections_paste(context, clips.take(i as int), *ids, points.routes@);
        proof {
            assert(clips[i as int] == clip@);
            assert(clips.take(i + 1).drop_last() =~= clips.take(i as int));
            assert(clips.take(i + 1).last() == clip@);
            assert(ids.members@[i as int]@.len() >= clip@.members.len());
        }
        if against.fits_connection(clip) {
            let id = ids.connections[i];
            let body = against.connection_body(clip, id, &points.routes[i]);
            if against.meets_existing(clip) {
                push_op(&mut undo_links, AreaMutation::DeleteLink { connection_id: id });
            }
            let ghost held = mutation::ops_view(writes@);
            push_op(&mut writes, AreaMutation::CreateConnection { body });
            against.push_members(&mut writes, clip, &ids.members[i], id);
            assert(mutation::ops_view(writes@) =~= with_exits + (before.writes + connection_writes(
                context,
                clip@,
                id,
                ids.members@[i as int]@,
                points.routes@[i as int]@,
            )));
        } else {
            skipped = skipped + 1;
        }
    }
    assert(clips.take(clipboard.connections.len() as int) =~= clips);
    Compound { writes, undo_links, rooms, skipped }
}

/// Pastes the labels.
fn push_label_creates(
    redo: &mut Vec<Mutation>,
    undo: &mut Vec<Mutation>,
    area_id: AreaId,
    labels: &Vec<LabelArgs>,
    points: &Vec<Point>,
    same_area: bool,
    level: i32,
)
    requires
        points@.len() == labels@.len(),
        deletion::fits(mutation::mutations_view(old(redo)@), 0),
        deletion::fits(mutation::mutations_view(old(undo)@), 0),
    ensures
        mutation::mutations_view(final(redo)@) == mutation::mutations_view(old(redo)@) + labels_pasted(
            area_id,
            clipboard::label_bodies(labels@),
            points@,
            same_area,
            level,
        ),
        mutation::mutations_view(final(undo)@) == mutation::mutations_view(old(undo)@)
            + deletion::labels_deleted(area_id, labels@.len(), 0),
        deletion::fits(mutation::mutations_view(final(redo)@), labels@.len() as int),
        deletion::fits(mutation::mutations_view(final(undo)@), labels@.len() as int),
{
    let ghost redo_before = mutation::mutations_view(redo@);
    let ghost undo_before = mutation::mutations_view(undo@);
    let ghost bodies = clipboard::label_bodies(labels@);
    let ghost all = labels_pasted(area_id, bodies, points@, same_area, level);
    proof {
        assert(redo_before =~= redo_before + all.take(0));
        assert(undo_before =~= undo_before + deletion::labels_deleted(area_id, 0, 0));
    }
    for i in 0..labels.len()
        invariant
            points@.len() == labels@.len(),
            bodies == clipboard::label_bodies(labels@),
            all == labels_pasted(area_id, bodies, points@, same_area, level),
            mutation::mutations_view(redo@) == redo_before + all.take(i as int),
            mutation::mutations_view(undo@) == undo_before + deletion::labels_deleted(
                area_id,
                i as nat,
                0,
            ),
            deletion::fits(mutation::mutations_view(redo@), i as int),
            deletion::fits(mutation::mutations_view(undo@), i as int),
    {
        let mut args = labels[i].clone();
        if same_area {
            args.level = level;
        }
        args.x = points[i].x;
        args.y = points[i].y;
        let created = Mutation::CreateLabel { area_id, args, slot: i };
        let deleted = Mutation::DeleteLabel { area_id, id: IdRef::Slot(i) };
        proof {
            assert(bodies[i as int] == labels@[i as int]@);
            assert(created@ == all[i as int]);
            deletion::lemma_fits_next(mutation::mutations_view(redo@), i as int, created@);
            deletion::lemma_fits_next(mutation::mutations_view(undo@), i as int, deleted@);
        }
        push_mutation(redo, created);
        push_mutation(undo, deleted);
        proof {
            assert(mutation::mutations_view(redo@) =~= redo_before + all.take(i + 1));
            assert(mutation::mutations_view(undo@) =~= undo_before + deletion::labels_deleted(
                area_id,
                (i + 1) as nat,
                0,
            ));
        }
    }
    assert(all.take(labels.len() as int) =~= all);
}

/// Pastes the shapes, in the slots from `base` on.
fn push_shape_creates(
    redo: &mut Vec<Mutation>,
    undo: &mut Vec<Mutation>,
    area_id: AreaId,
    shapes: &Vec<ShapeArgs>,
    points: &Vec<Point>,
    same_area: bool,
    level: i32,
    base: usize,
)
    requires
        points@.len() == shapes@.len(),
        base + shapes@.len() <= usize::MAX,
        deletion::fits(mutation::mutations_view(old(redo)@), base as int),
        deletion::fits(mutation::mutations_view(old(undo)@), base as int),
    ensures
        mutation::mutations_view(final(redo)@) == mutation::mutations_view(old(redo)@) + shapes_pasted(
            area_id,
            clipboard::shape_bodies(shapes@),
            points@,
            same_area,
            level,
            base as int,
        ),
        mutation::mutations_view(final(undo)@) == mutation::mutations_view(old(undo)@)
            + deletion::shapes_deleted(area_id, shapes@.len(), base as int),
        deletion::fits(mutation::mutations_view(final(redo)@), base + shapes@.len()),
        deletion::fits(mutation::mutations_view(final(undo)@), base + shapes@.len()),
{
    let ghost redo_before = mutation::mutations_view(redo@);
    let ghost undo_before = mutation::mutations_view(undo@);
    let ghost bodies = clipboard::shape_bodies(shapes@);
    let ghost all = shapes_pasted(area_id, bodies, points@, same_area, level, base as int);
    proof {
        assert(redo_before =~= redo_before + all.take(0));
        assert(undo_before =~= undo_before + deletion::shapes_deleted(area_id, 0, base as int));
    }
    for i in 0..shapes.len()
        invariant
            points@.len() == shapes@.len(),
            base + shapes@.len() <= usize::MAX,
            bodies == clipboard::shape_bodies(shapes@),
            all == shapes_pasted(area_id, bodies, points@, same_area, level, base as int),
            mutation::mutations_view(redo@) == redo_before + all.take(i as int),
            mutation::mutations_view(undo@) == undo_before + deletion::shapes_deleted(
                area_id,
                i as nat,
                base as int,
            ),
            deletion::fits(mutation::mutations_view(redo@), base + i),
            deletion::fits(mutation::mutations_view(undo@), base + i),
    {
        let mut args = shapes[i].clone();
        if same_area {
            args.level = level;
        }
        args.x = points[i].x;
        args.y = points[i].y;
        let slot: usize = base + i;
        let created = Mutation::CreateShape { area_id, args, slot };
        let deleted = Mutation::DeleteShape { area_id, id: IdRef::Slot(slot) };
        proof {
            assert(bodies[i as int] == shapes@[i as int]@);
            assert(created@ == all[i as int]);
            deletion::lemma_fits_next(mutation::mutations_view(redo@), base + i, created@);
            deletion::lemma_fits_next(mutation::mutations_view(undo@), base + i, deleted@);
        }
        push_mutation(redo, created);
        push_mutation(undo, deleted);
        proof {
            assert(mutation::mutations_view(redo@) =~= redo_before + all.take(i + 1));
            assert(mutation::mutations_view(undo@) =~= undo_before + deletion::shapes_deleted(
                area_id,
                (i + 1) as nat,
                base as int,
            ));
        }
    }
    assert(all.take(shapes.len() as int) =~= all);
}

/// What a paste comes to.
pub struct Paste {
    pub command: Option<Command>,
    /// The numbers of the pasted rooms.
    pub rooms: Vec<RoomNumber>,
    /// How many connections could not be pasted.
    pub skipped: usize,
}

impl View for Paste {
    type V = PasteView;

    open spec fn view(&self) -> PasteView {
        PasteView {
            command: edits::opt_command(self.command),
            rooms: self.rooms@,
            skipped: self.skipped as int,
        }
    }
}

/// A paste that does nothing.
fn no_paste() -> (paste: Paste)
    ensures
        paste@ == (PasteView { command: None, rooms: Seq::empty(), skipped: 0 }),
{
    let paste = Paste { command: None, rooms: Vec::new(), skipped: 0 };
    assert(paste@.rooms =~= Seq::empty());
    paste
}

/// The rooms and connections of a paste as one envelope and its inverse.
fn push_compound(
    redo: &mut Vec<Mutation>,
    undo: &mut Vec<Mutation>,
    area_id: AreaId,
    writes: Vec<AreaMutation>,
    undo_links: Vec<AreaMutation>,
    rooms: &Vec<RoomNumber>,
)
    requires
        old(redo)@.len() == 0,
        old(undo)@.len() == 0,
    ensures
        mutation::mutations_view(final(redo)@) == if writes@.len() == 0 {
            Seq::empty()
        } else {
            seq![
                edits::batch(
                    area_id,
                    mutation::ops_view(writes@),
                    paste_description(rooms@.len()),
                ),
            ]
        },
        mutation::mutations_view(final(undo)@) == if writes@.len() == 0 {
            Seq::empty()
        } else {
            seq![
                edits::batch(
                    area_id,
                    mutation::ops_view(undo_links@) + room_deletes(rooms@),
                    "Undo paste"@,
                ),
            ]
        },
        deletion::fits(mutation::mutations_view(final(redo)@), 0),
        deletion::fits(mutation::mutations_view(final(undo)@), 0),
{
    assert(mutation::mutations_view(redo@) =~= Seq::empty());
    assert(mutation::mutations_view(undo@) =~= Seq::empty());
    if writes.len() == 0 {
        return;
    }
    let description = if rooms.len() == 0 {
        "Paste links".to_owned()
    } else {
        let count = decimal_text(rooms.len() as u64);
        join3("Paste ", count.as_str(), " rooms and contained links")
    };
    push_mutation(redo, Mutation::AreaBatch { area_id, operations: writes, description });
    let mut operations = undo_links;
    let ghost links = mutation::ops_view(undo_links@);
    let ghost all = room_deletes(rooms@);
    assert(links =~= links + all.take(0));
    for i in 0..rooms.len()
        invariant
            all == room_deletes(rooms@),
            mutation::ops_view(operations@) == links + all.take(i as int),
    {
        push_op(&mut operations, AreaMutation::DeleteRoom { room_number: rooms[i] });
        assert(mutation::ops_view(operations@) =~= links + all.take(i + 1));
    }
    assert(all.take(rooms.len() as int) =~= all);
    push_mutation(
        undo,
        Mutation::AreaBatch { area_id, operations, description: "Undo paste".to_owned() },
    );
}

/// Pastes the clipboard into `target_area_id` as one undo step, with every place
/// and identity given.
///
/// Same-area pastes allocate fresh room numbers; cross-area pastes keep vacant
/// source numbers. Connections are pasted with or without their rooms: their
/// ends resolve to the pasted rooms first, then to the existing rooms of the
/// same number.
pub fn paste_placed(
    atlas: &AtlasCache,
    target_area_id: AreaId,
    clipboard: &EntityClipboard,
    level: i32,
    points: &PastePoints,
    ids: &PasteIds,
    next_room_number: Option<RoomNumber>,
    limit: usize,
) -> (paste: Paste)
    requires
        points.covers(clipboard@),
        ids.covers(clipboard@),
        rooms_fit(*atlas, target_area_id, clipboard@, next_room_number),
        clipboard@.labels.len() + clipboard@.shapes.len() <= usize::MAX,
    ensures
        paste@ == pasted(
            *atlas,
            target_area_id,
            clipboard@,
            level,
            *points,
            *ids,
            next_room_number,
            limit as int,
        ),
        paste.command matches Some(command) ==> command.wf(),
{
    if clipboard.is_empty() {
        return no_paste();
    }
    let area = match atlas.get_area(&target_area_id) {
        Some(area) => area,
        None => return no_paste(),
    };
    let same_area = clipboard.source_area_id == Some(target_area_id);
    let source_area_id = match clipboard.source_area_id {
        Some(id) => id,
        None => target_area_id,
    };
    let mapping = map_rooms(area, clipboard, same_area, next_room_number);
    let against = Against {
        atlas,
        area,
        target_area_id,
        source_area_id,
        same_area,
        cleared: area.access.is_cleared_for_secrets,
        mapping,
    };
    let ghost context = paste_context(*atlas, *area, target_area_id, clipboard@, next_room_number);
    assert(against.context() == context);
    let made = compound(&against, clipboard, points, ids, Ghost(next_room_number));
    assert(mutation::ops_view(made.writes@).len() == made.writes@.len());
    if made.writes.len() > limit {
        return no_paste();
    }
    let mut redo: Vec<Mutation> = Vec::new();
    let mut undo: Vec<Mutation> = Vec::new();
    push_compound(
        &mut redo,
        &mut undo,
        target_area_id,
        made.writes,
        made.undo_links,
        &made.rooms,
    );
    push_label_creates(
        &mut redo,
        &mut undo,
        target_area_id,
        &clipboard.labels,
        &points.labels,
        same_area,
        level,
    );
    let base: usize = clipboard.labels.len();
    push_shape_creates(
        &mut redo,
        &mut undo,
        target_area_id,
        &clipboard.shapes,
        &points.shapes,
        same_area,
        level,
        base,
    );
    proof {
        let redos = mutation::mutations_view(redo@);
        let undos = mutation::mutations_view(undo@);
        let all = redos + undos;
        let n = base + clipboard.shapes@.len();
        assert forall|i: int| 0 <= i < all.len() implies mutation::slots_for(#[trigger] all[i]) <= n by {
            if i < redos.len() {
                assert(all[i] == redos[i]);
            } else {
                assert(all[i] == undos[i - redos.len()]);
            }
        }
        edits::lemma_slots_bound(all, n as int);
    }
    let command = if redo.len() == 0 {
        None
    } else {
        Some(Command::new(redo, undo))
    };
    Paste { command, rooms: made.rooms, skipped: made.skipped }
}

/// The corner that copied routes are seen from, `(0, 0)` when there is none.
pub open spec fn route_origin(clipboard: ClipboardView) -> Point {
    match clipboard.connection_origin {
        Some(origin) => origin,
        None => Point { x: Scalar(0), y: Scalar(0) },
    }
}

/// `points` are the copied positions moved by `shift`, and the copied routes put
/// back by `place` from where they were seen.
pub open spec fn placed_by<F: Fn(Point) -> Point, G: Fn(Point, Point) -> Point>(
    shift: F,
    place: G,
    clipboard: ClipboardView,
    points: PastePoints,
) -> bool {
    &&& points.covers(clipboard)
    &&& forall|i: int|
        0 <= i < clipboard.rooms.len() ==> shift.ensures(
            (Point { x: clipboard.rooms[i].x, y: clipboard.rooms[i].y },),
            #[trigger] points.rooms@[i],
        )
    &&& forall|i: int|
        0 <= i < clipboard.labels.len() ==> shift.ensures(
            (Point { x: clipboard.labels[i].x, y: clipboard.labels[i].y },),
            #[trigger] points.labels@[i],
        )
    &&& forall|i: int|
        0 <= i < clipboard.shapes.len() ==> shift.ensures(
            (Point { x: clipboard.shapes[i].x, y: clipboard.shapes[i].y },),
            #[trigger] points.shapes@[i],
        )
    &&& forall|i: int|
        0 <= i < clipboard.connections.len() ==> route_placed(
            place,
            route_origin(clipboard),
            clipboard.connections[i].body.route_points,
            (#[trigger] points.routes@[i])@,
        )
}

/// `route` is the points put back by `place` from `origin`.
pub open spec fn route_placed<G: Fn(Point, Point) -> Point>(
    place: G,
    origin: Point,
    points: Seq<Point>,
    route: Seq<Point>,
) -> bool {
    &&& route.len() == points.len()
    &&& forall|k: int|
        0 <= k < points.len() ==> place.ensures((points[k], origin), #[trigger] route[k])
}

/// Finds the place of everything on the clipboard.
fn place_clipboard<F: Fn(Point) -> Point, G: Fn(Point, Point) -> Point>(
    clipboard: &EntityClipboard,
    shift: &F,
    place: &G,
) -> (points: PastePoints)
    requires
        forall|p: Point| #[trigger] shift.requires((p,)),
        forall|p: Point, origin: Point| #[trigger] place.requires((p, origin)),
    ensures
        placed_by(*shift, *place, clipboard@, points),
{
    let mut rooms: Vec<Point> = Vec::new();
    for i in 0..clipboard.rooms.len()
        invariant
            forall|p: Point| #[trigger] shift.requires((p,)),
            rooms@.len() == i,
            forall|j: int|
                0 <= j < i ==> shift.ensures(
                    (Point { x: clipboard@.rooms[j].x, y: clipboard@.rooms[j].y },),
                    #[trigger] rooms@[j],
                ),
    {
        assert(clipboard@.rooms[i as int] == clipboard.rooms@[i as int]@);
        let to = shift(Point { x: clipboard.rooms[i].x, y: clipboard.rooms[i].y });
        rooms.push(to);
    }
    let mut labels: Vec<Point> = Vec::new();
    for i in 0..clipboard.labels.len()
        invariant
            forall|p: Point| #[trigger] shift.requires((p,)),
            labels@.len() == i,
            forall|j: int|
                0 <= j < i ==> shift.ensures(
                    (Point { x: clipboard@.labels[j].x, y: clipboard@.labels[j].y },),
                    #[trigger] labels@[j],
                ),
    {
        assert(clipboard@.labels[i as int] == clipboard.labels@[i as int]@);
        let to = shift(Point { x: clipboard.labels[i].x, y: clipboard.labels[i].y });
        labels.push(to);
    }
    let mut shapes: Vec<Point> = Vec::new();
    for i in 0..clipboard.shapes.len()
        invariant
            forall|p: Point| #[trigger] shift.requires((p,)),
            shapes@.len() == i,
            forall|j: int|
                0 <= j < i ==> shift.ensures(
                    (Point { x: clipboard@.shapes[j].x, y: clipboard@.shapes[j].y },),
                    #[trigger] shapes@[j],
                ),
    {
        assert(clipboard@.shapes[i as int] == clipboard.shapes@[i as int]@);
        let to = shift(Point { x: clipboard.shapes[i].x, y: clipboard.shapes[i].y });
        shapes.push(to);
    }
    let origin = match clipboard.connection_origin {
        Some(origin) => origin,
        None => Point { x: Scalar::zero(), y: Scalar::zero() },
    };
    let mut routes: Vec<Vec<Point>> = Vec::new();
    for i in 0..clipboard.connections.len()
        invariant
            forall|p: Point, origin: Point| #[trigger] place.requires((p, origin)),
            origin == route_origin(clipboard@),
            routes@.len() == i,
            forall|j: int|
                0 <= j < i ==> route_placed(
                    *place,
                    origin,
                    clipboard@.connections[j].body.route_points,
                    (#[trigger] routes@[j])@,
                ),
    {
        assert(clipboard@.connections[i as int] == clipboard.connections@[i as int]@);
        let given = &clipboard.connections[i].body.route_points;
        let mut route: Vec<Point> = Vec::new();
        for k in 0..given.len()
            invariant
                forall|p: Point, origin: Point| #[trigger] place.requires((p, origin)),
                route@.len() == k,
                forall|j: int|
                    0 <= j < k ==> place.ensures((given@[j], origin), #[trigger] route@[j]),
        {
            let to = place(given[k], origin);
            route.push(to);
        }
        routes.push(route);
    }
    PastePoints { rooms, routes, labels, shapes }
}

/// `paste` is what pasting comes to at places found by `shift` and `place`.
pub open spec fn pasted_by<F: Fn(Point) -> Point, G: Fn(Point, Point) -> Point>(
    shift: F,
    place: G,
    atlas: AtlasCache,
    target_area_id: AreaId,
    clipboard: ClipboardView,
    level: i32,
    ids: PasteIds,
    next_room_number: Option<RoomNumber>,
    limit: int,
    paste: PasteView,
    points: PastePoints,
) -> bool {
    &&& placed_by(shift, place, clipboard, points)
    &&& paste == pasted(
        atlas,
        target_area_id,
        clipboard,
        level,
        points,
        ids,
        next_room_number,
        limit,
    )
}

/// Pastes the clipboard into `target_area_id` as one undo step. `shift` moves a
/// copied position by the paste offset; `place` puts a copied route point, seen
/// from an origin, back and moves it by the paste offset. Numbers are allocated
/// from `next_room_number`, or else from where the cache would. Also returns the
/// numbers of the pasted rooms and how many connections were skipped.
pub fn paste_clipboard<F: Fn(Point) -> Point, G: Fn(Point, Point) -> Point>(
    atlas: &AtlasCache,
    target_area_id: AreaId,
    clipboard: &EntityClipboard,
    level: i32,
    shift: F,
    place: G,
    ids: &PasteIds,
    next_room_number: Option<RoomNumber>,
    limit: usize,
) -> (paste: Paste)
    requires
        forall|p: Point| #[trigger] shift.requires((p,)),
        forall|p: Point, origin: Point| #[trigger] place.requires((p, origin)),
        ids.covers(clipboard@),
        rooms_fit(*atlas, target_area_id, clipboard@, next_room_number),
        clipboard@.labels.len() + clipboard@.shapes.len() <= usize::MAX,
    ensures
        exists|points: PastePoints| #[trigger]
            pasted_by(
                shift,
                place,
                *atlas,
                target_area_id,
                clipboard@,
                level,
                *ids,
                next_room_number,
                limit as int,
                paste@,
                points,
            ),
        paste.command matches Some(command) ==> command.wf(),
{
    let points = place_clipboard(clipboard, &shift, &place);
    let paste = paste_placed(
        atlas,
        target_area_id,
        clipboard,
        level,
        &points,
        ids,
        next_room_number,
        limit,
    );
    assert(pasted_by(
        shift,
        place,
        *atlas,
        target_area_id,
        clipboard@,
        level,
        *ids,
        next_room_number,
        limit as int,
        paste@,
        points,
    ));
    paste
}

} // verus!
