//! What is copied, and what is there once it is pasted.
//!
//! The laws follow a room, a label, a shape, an exit or a connection from the cache to the
//! clipboard, and from there to the area that it is pasted into.

use vstd::prelude::*;

use super::cache;
use super::clipboard::{self, ClipboardView, RoomClipView};
use super::deletion;
use super::doing;
use super::model::{
    AreaCache, AreaId, AtlasCache, EntityId, LabelArgs, LabelCache, LabelId, Point, PropertyEntry, RoomCache,
    RoomNumber, ShapeArgs, ShapeCache, ShapeId,
};
use super::mutation::AreaMutation;
use super::paste::{self, PasteContext, PasteIds, PastePoints};
use super::restoring;
use super::undoing::{self, RoomState, ShapeState, World};
use super::withdrawing;
use crate::list;

verus! {

// ===== Copied rooms =====

/// A copied room as it would be kept, with no tags.
pub open spec fn clip_state(clip: RoomClipView) -> RoomState {
    RoomState {
        is_secret: clip.is_secret,
        title: clip.title,
        description: clip.description,
        level: clip.level,
        x: clip.x,
        y: clip.y,
        color: clip.color,
        external_id: clip.external_id,
        properties: restoring::poured(Map::empty(), clip.properties),
        tags: Set::empty(),
    }
}

/// Whether a clip is of a room: under its number, with everything that is kept of the room
/// but its tags. A room lists no property under two values.
pub open spec fn is_copy_of_room(clip: RoomClipView, room: RoomCache) -> bool {
    &&& clip.room_number == room.room_number
    &&& restoring::properties_agree(room.properties@) ==> clip_state(clip) == (RoomState {
        tags: Set::empty(),
        ..undoing::room_state(room)
    })
    &&& forall|name: Seq<char>, value: Seq<char>|
        #![trigger clip.properties.contains((name, value))]
        clip.properties.contains((name, value)) <==> exists|i: int|
            0 <= i < room.properties@.len() && (#[trigger] room.properties@[i]).name@ == name
                && room.properties@[i].value@ == value
}

/// The copy of a room is of the room.
proof fn lemma_clipped_room(room: RoomCache)
    ensures
        is_copy_of_room(clipboard::clipped_room(room), room),
{
    let clip = clipboard::clipped_room(room);
    if restoring::properties_agree(room.properties@) {
        restoring::lemma_properties_back(room.properties@);
        assert(clip_state(clip) =~= RoomState { tags: Set::empty(), ..undoing::room_state(room) });
    }
    let given = room.properties@.map_values(|entry: PropertyEntry| deletion::property_pair(entry));
    let less = |a: (Seq<char>, Seq<char>), b: (Seq<char>, Seq<char>)| deletion::pair_before(a, b);
    assert forall|name: Seq<char>, value: Seq<char>|
        #![trigger clip.properties.contains((name, value))]
        clip.properties.contains((name, value)) <==> exists|i: int|
            0 <= i < room.properties@.len() && (#[trigger] room.properties@[i]).name@ == name
                && room.properties@[i].value@ == value by {
        list::lemma_in_order_holds(given, less, (name, value));
        if given.contains((name, value)) {
            let i = choose|i: int| 0 <= i < given.len() && given[i] == (name, value);
            assert(room.properties@[i].name@ == name);
        }
        if exists|i: int|
            0 <= i < room.properties@.len() && (#[trigger] room.properties@[i]).name@ == name
                && room.properties@[i].value@ == value {
            let i = choose|i: int|
                0 <= i < room.properties@.len() && (#[trigger] room.properties@[i]).name@ == name
                    && room.properties@[i].value@ == value;
            assert(given[i] == (name, value));
        }
    }
}

/// Whether clips are of the selected cached rooms: one of each, and of no others.
pub open spec fn are_rooms_copied(
    clips: Seq<RoomClipView>,
    area: AreaCache,
    selection: Seq<EntityId>,
) -> bool {
    &&& forall|i: int|
        0 <= i < clips.len() ==> selection.contains(EntityId::Room((#[trigger] clips[i]).room_number))
            && area.room(clips[i].room_number) is Some && is_copy_of_room(
            clips[i],
            area.room(clips[i].room_number)->0,
        )
    &&& forall|number: RoomNumber|
        selection.contains(EntityId::Room(number)) && #[trigger] area.room(number) is Some ==> exists|
            i: int,
        | 0 <= i < clips.len() && (#[trigger] clips[i]).room_number == number
    &&& selection.no_duplicates() ==> forall|i: int, j: int|
        0 <= i < j < clips.len() ==> (#[trigger] clips[i]).room_number != (
        #[trigger] clips[j]).room_number
}

/// What the copies of some rooms hold.
proof fn lemma_clipped_numbers(area: AreaCache, numbers: Seq<RoomNumber>)
    ensures
        ({
            let clips = list::collect(
                numbers,
                |number: RoomNumber|
                    match area.room(number) {
                        Some(room) => seq![clipboard::clipped_room(room)],
                        None => Seq::empty(),
                    },
            );
            &&& forall|i: int|
                0 <= i < clips.len() ==> numbers.contains((#[trigger] clips[i]).room_number)
                    && area.room(clips[i].room_number) is Some && clips[i] == clipboard::clipped_room(
                    area.room(clips[i].room_number)->0,
                )
            &&& forall|number: RoomNumber|
                numbers.contains(number) && #[trigger] area.room(number) is Some ==> exists|i: int|
                    0 <= i < clips.len() && (#[trigger] clips[i]).room_number == number
            &&& numbers.no_duplicates() ==> forall|i: int, j: int|
                0 <= i < j < clips.len() ==> (#[trigger] clips[i]).room_number != (
                #[trigger] clips[j]).room_number
        }),
    decreases numbers.len(),
{
    let piece = |number: RoomNumber|
        match area.room(number) {
            Some(room) => seq![clipboard::clipped_room(room)],
            None => Seq::empty(),
        };
    let clips = list::collect(numbers, piece);
    if numbers.len() > 0 {
        let rest = numbers.drop_last();
        let last = numbers.last();
        let before = list::collect(rest, piece);
        lemma_clipped_numbers(area, rest);
        assert(numbers[numbers.len() - 1] == last);
        assert forall|number: RoomNumber| rest.contains(number) implies #[trigger] numbers.contains(
            number,
        ) by {
            let k = choose|k: int| 0 <= k < rest.len() && rest[k] == number;
            assert(numbers[k] == number);
        }
        if let Some(room) = area.room(last) {
            list::lemma_first_exists(area.rooms@, |item: RoomCache| item.room_number == last);
            assert(room.room_number == last);
            assert(clips =~= before.push(clipboard::clipped_room(room)));
        } else {
            assert(clips =~= before);
        }
        assert forall|i: int| 0 <= i < clips.len() implies numbers.contains(
            (#[trigger] clips[i]).room_number,
        ) && area.room(clips[i].room_number) is Some && clips[i] == clipboard::clipped_room(
            area.room(clips[i].room_number)->0,
        ) by {
            if i < before.len() {
                assert(clips[i] == before[i]);
            }
        }
        assert forall|number: RoomNumber|
            numbers.contains(number) && #[trigger] area.room(number) is Some implies exists|i: int|
            0 <= i < clips.len() && (#[trigger] clips[i]).room_number == number by {
            let k = choose|k: int| 0 <= k < numbers.len() && numbers[k] == number;
            if k < rest.len() {
                assert(rest[k] == number);
                let i = choose|i: int|
                    0 <= i < before.len() && (#[trigger] before[i]).room_number == number;
                assert(clips[i].room_number == number);
            } else {
                assert(clips[clips.len() - 1].room_number == number);
            }
        }
        if numbers.no_duplicates() {
            assert(rest.no_duplicates());
            assert forall|i: int, j: int| 0 <= i < j < clips.len() implies (
            #[trigger] clips[i]).room_number != (#[trigger] clips[j]).room_number by {
                assert(clips[i] == before[i]);
                if j < before.len() {
                    assert(clips[j] == before[j]);
                } else {
                    let number = before[i].room_number;
                    assert(rest.contains(number));
                    let k = choose|k: int| 0 <= k < rest.len() && rest[k] == number;
                    assert(numbers[k] == number);
                }
            }
        }
    }
}

/// The rooms on the clipboard are the selected ones, each with all that is kept of it but
/// its tags.
proof fn lemma_rooms_copied(area: AreaCache, selection: Seq<EntityId>)
    ensures
        are_rooms_copied(
            clipboard::clipped_rooms(area, cache::selected_rooms(selection)),
            area,
            selection,
        ),
{
    let numbers = cache::selected_rooms(selection);
    let less = |a: RoomNumber, b: RoomNumber| clipboard::number_before(a, b);
    let sorted = list::in_order(numbers, less);
    let clips = clipboard::clipped_rooms(area, numbers);
    lemma_clipped_numbers(area, sorted);
    assert forall|number: RoomNumber| #[trigger] sorted.contains(number) == selection.contains(
        EntityId::Room(number),
    ) by {
        list::lemma_in_order_holds(numbers, less, number);
        doing::lemma_selected(selection, EntityId::Room(number));
    }
    assert forall|i: int| 0 <= i < clips.len() implies selection.contains(
        EntityId::Room((#[trigger] clips[i]).room_number),
    ) && area.room(clips[i].room_number) is Some && is_copy_of_room(
        clips[i],
        area.room(clips[i].room_number)->0,
    ) by {
        assert(sorted.contains(clips[i].room_number));
        lemma_clipped_room(area.room(clips[i].room_number)->0);
    }
    assert forall|number: RoomNumber|
        selection.contains(EntityId::Room(number)) && #[trigger] area.room(number) is Some implies exists|
            i: int,
        | 0 <= i < clips.len() && (#[trigger] clips[i]).room_number == number by {
        assert(sorted.contains(number));
    }
    if selection.no_duplicates() {
        lemma_selected_once(selection);
        lemma_sorted_once(numbers);
    }
}

/// A room that is selected once is listed once.
pub(crate) proof fn lemma_selected_once(selection: Seq<EntityId>)
    requires
        selection.no_duplicates(),
    ensures
        cache::selected_rooms(selection).no_duplicates(),
    decreases selection.len(),
{
    if selection.len() > 0 {
        let rest = selection.drop_last();
        let last = selection.last();
        lemma_selected_once(rest);
        let before = cache::selected_rooms(rest);
        let all = cache::selected_rooms(selection);
        if let EntityId::Room(number) = last {
            assert(all =~= before.push(number));
            doing::lemma_selected(rest, last);
            if before.contains(number) {
                let k = choose|k: int| 0 <= k < rest.len() && rest[k] == last;
                assert(selection[k] == selection[selection.len() - 1]);
            }
            assert forall|i: int, j: int| 0 <= i < j < all.len() implies all[i] != all[j] by {
                assert(all[i] == before[i]);
                if j < before.len() {
                    assert(all[j] == before[j]);
                } else {
                    assert(before.contains(before[i]));
                }
            }
        } else {
            assert(all =~= before);
        }
    }
}

/// Numbers that are told apart are so when they are sorted.
proof fn lemma_sorted_once(numbers: Seq<RoomNumber>)
    requires
        numbers.no_duplicates(),
    ensures
        list::in_order(
            numbers,
            |a: RoomNumber, b: RoomNumber| clipboard::number_before(a, b),
        ).no_duplicates(),
{
    broadcast use vstd::seq_lib::group_to_multiset_ensures;

    let less = |a: RoomNumber, b: RoomNumber| clipboard::number_before(a, b);
    let sorted = list::in_order(numbers, less);
    list::lemma_in_order(numbers, less);
    numbers.lemma_multiset_has_no_duplicates();
    assert(sorted.to_multiset() == numbers.to_multiset());
    sorted.lemma_multiset_has_no_duplicates_conv();
}

// ===== Pasted rooms =====

/// A copied room at a place. Its secrecy goes along for those who may see secrets.
pub open spec fn room_at(clip: RoomClipView, at: Point, cleared: bool) -> RoomState {
    RoomState { is_secret: cleared && clip.is_secret, x: at.x, y: at.y, ..clip_state(clip) }
}

/// What the properties of a pasted room leave.
proof fn lemma_properties_pasted(
    world: World,
    number: RoomNumber,
    pairs: Seq<(Seq<char>, Seq<char>)>,
)
    requires
        world.rooms.dom().contains(number),
    ensures
        undoing::all_written(
            world,
            pairs.map_values(|pair: (Seq<char>, Seq<char>)| paste::pasted_property(number, pair)),
        ) == undoing::with_room(
            world,
            number,
            RoomState {
                properties: restoring::poured(world.rooms[number].properties, pairs),
                ..world.rooms[number]
            },
        ),
    decreases pairs.len(),
{
    let f = |pair: (Seq<char>, Seq<char>)| paste::pasted_property(number, pair);
    let ops = pairs.map_values(f);
    let after = undoing::all_written(world, ops);
    if pairs.len() == 0 {
        let same = undoing::with_room(world, number, RoomState {
            properties: restoring::poured(world.rooms[number].properties, pairs),
            ..world.rooms[number]
        });
        assert(ops =~= Seq::empty());
        assert(same.rooms =~= world.rooms);
    } else {
        let rest = pairs.drop_last();
        lemma_properties_pasted(world, number, rest);
        assert(ops.drop_last() =~= rest.map_values(f));
        let before = undoing::all_written(world, rest.map_values(f));
        assert(after == undoing::written(before, paste::pasted_property(number, pairs.last())));
        assert(after.rooms =~= undoing::with_room(world, number, RoomState {
            properties: restoring::poured(world.rooms[number].properties, pairs),
            ..world.rooms[number]
        }).rooms);
    }
}

/// What pasted rooms leave: each is there at its place.
proof fn lemma_rooms_made(
    world: World,
    context: PasteContext,
    rooms: Seq<RoomClipView>,
    points: Seq<Point>,
)
    requires
        forall|i: int|
            0 <= i < rooms.len() ==> !world.rooms.dom().contains(
                paste::pasted_number(context, #[trigger] rooms[i]),
            ),
        forall|i: int, j: int|
            #![trigger rooms[i], rooms[j]]
            0 <= i < j < rooms.len() ==> paste::pasted_number(context, rooms[i])
                != paste::pasted_number(context, rooms[j]),
    ensures
        ({
            let after = undoing::all_written(world, paste::rooms_writes(context, rooms, points));
            &&& forall|i: int|
                #![trigger rooms[i]]
                0 <= i < rooms.len() ==> after.rooms.dom().contains(
                    paste::pasted_number(context, rooms[i]),
                ) && after.rooms[paste::pasted_number(context, rooms[i])] == room_at(
                    rooms[i],
                    points[i],
                    context.cleared,
                )
        }),
    decreases rooms.len(),
{
    if rooms.len() > 0 {
        let rest = rooms.drop_last();
        let at = rooms.len() - 1;
        let last = rooms[at];
        let number = paste::pasted_number(context, last);
        assert forall|i: int| 0 <= i < rest.len() implies #[trigger] rest[i] == rooms[i] by {}
        assert forall|i: int| 0 <= i < rest.len() implies !world.rooms.dom().contains(
            paste::pasted_number(context, #[trigger] rest[i]),
        ) by {
            assert(rest[i] == rooms[i]);
        }
        lemma_rooms_made(world, context, rest, points);
        let early = paste::rooms_writes(context, rest, points);
        let late = paste::room_writes(context, last, points[at]);
        undoing::lemma_all_written(world, early, late);
        let before = undoing::all_written(world, early);
        withdrawing::lemma_rooms_pasted(world, context, rest, points);
        let earlier = paste::pasted_numbers(context, rest);
        assert(!earlier.contains(number)) by {
            if earlier.contains(number) {
                let k = choose|k: int| 0 <= k < earlier.len() && earlier[k] == number;
                assert(rest[k] == rooms[k]);
                assert(paste::pasted_number(context, rooms[k]) == number);
            }
        }
        assert(!before.rooms.dom().contains(number));
        let head = AreaMutation::UpsertRoom {
            room_number: number,
            body: paste::pasted_room(last, points[at], context.cleared),
        };
        let f = |pair: (Seq<char>, Seq<char>)| paste::pasted_property(number, pair);
        let tail = last.properties.map_values(f);
        assert(late =~= seq![head] + tail);
        undoing::lemma_all_written(before, seq![head], tail);
        undoing::lemma_one_written(before, head);
        let middle = undoing::written(before, head);
        lemma_properties_pasted(middle, number, last.properties);
        let after = undoing::all_written(before, late);
        assert(after.rooms[number] =~= room_at(last, points[at], context.cleared));
        assert forall|i: int|
            #![trigger rooms[i]]
            0 <= i < rooms.len() implies after.rooms.dom().contains(
            paste::pasted_number(context, rooms[i]),
        ) && after.rooms[paste::pasted_number(context, rooms[i])] == room_at(
            rooms[i],
            points[i],
            context.cleared,
        ) by {
            if i < at {
                assert(rest[i] == rooms[i]);
                assert(paste::pasted_number(context, rooms[i]) != number);
            }
        }
    }
}

/// Whether pasted rooms are in a world: each copied one under its new number, at its place,
/// and those that were there as they were.
pub open spec fn are_rooms_pasted(
    after: World,
    before: World,
    clips: Seq<RoomClipView>,
    numbers: Seq<RoomNumber>,
    points: Seq<Point>,
    cleared: bool,
) -> bool {
    &&& numbers.len() == clips.len()
    &&& numbers.no_duplicates()
    &&& forall|i: int|
        0 <= i < clips.len() ==> !before.rooms.dom().contains(#[trigger] numbers[i])
            && after.rooms.dom().contains(numbers[i]) && after.rooms[numbers[i]] == room_at(
            clips[i],
            points[i],
            cleared,
        )
    &&& forall|number: RoomNumber|
        #![trigger after.rooms.dom().contains(number)]
        after.rooms.dom().contains(number) <==> before.rooms.dom().contains(number) || numbers.contains(
            number,
        )
    &&& forall|number: RoomNumber|
        #![trigger after.rooms[number]]
        before.rooms.dom().contains(number) ==> after.rooms[number] == before.rooms[number]
    &&& after.properties == before.properties
}

/// Whether no two copied rooms have the same number.
pub open spec fn rooms_differ(clips: Seq<RoomClipView>) -> bool {
    forall|i: int, j: int|
        0 <= i < j < clips.len() ==> (#[trigger] clips[i]).room_number != (
        #[trigger] clips[j]).room_number
}

/// The new numbers of copied rooms are vacant and differ.
pub(crate) proof fn lemma_numbers(
    atlas: AtlasCache,
    area: AreaCache,
    area_id: AreaId,
    clipboard: ClipboardView,
    next_room_number: Option<RoomNumber>,
)
    requires
        atlas.area(area_id) == Some(area),
        paste::rooms_fit(atlas, area_id, clipboard, next_room_number),
        rooms_differ(clipboard.rooms),
    ensures
        ({
            let context = paste::paste_context(atlas, area, area_id, clipboard, next_room_number);
            let numbers = paste::pasted_numbers(context, clipboard.rooms);
            &&& numbers.no_duplicates()
            &&& forall|i: int|
                0 <= i < clipboard.rooms.len() ==> !undoing::world_of(area).rooms.dom().contains(
                    #[trigger] numbers[i],
                )
            &&& forall|i: int|
                #![trigger clipboard.rooms[i]]
                0 <= i < clipboard.rooms.len() ==> paste::mapped(
                    context.mapping,
                    clipboard.rooms[i].room_number,
                ) == Some(numbers[i])
        }),
{
    let context = paste::paste_context(atlas, area, area_id, clipboard, next_room_number);
    let numbers = paste::pasted_numbers(context, clipboard.rooms);
    let source = paste::source_numbers(clipboard.rooms);
    let occupied = paste::occupied_numbers(area);
    let base = paste::fresh_base(area, next_room_number);
    let targets = paste::remap_targets(source, occupied, base, !context.same_area);
    withdrawing::lemma_numbers_vacant(atlas, area, area_id, clipboard, next_room_number);
    paste::law_remap_targets_are_vacant_and_distinct(source, occupied, base, !context.same_area);
    assert forall|i: int|
        #![trigger clipboard.rooms[i]]
        0 <= i < clipboard.rooms.len() implies paste::mapped(
        context.mapping,
        clipboard.rooms[i].room_number,
    ) == Some(targets[i]) by {
        lemma_mapped_once(context.mapping, i);
    }
    assert(numbers =~= targets) by {
        assert forall|i: int| 0 <= i < numbers.len() implies numbers[i] == targets[i] by {
            assert(clipboard.rooms[i] == clipboard.rooms[i]);
        }
    }
}

/// A number that is recorded once is mapped to the target beside it.
proof fn lemma_mapped_once(mapping: Seq<(RoomNumber, RoomNumber)>, i: int)
    requires
        0 <= i < mapping.len(),
        forall|j: int| 0 <= j < mapping.len() && j != i ==> (#[trigger] mapping[j]).0 != mapping[i].0,
    ensures
        paste::mapped(mapping, mapping[i].0) == Some(mapping[i].1),
    decreases mapping.len(),
{
    if i < mapping.len() - 1 {
        let rest = mapping.drop_last();
        assert(rest[i] == mapping[i]);
        assert(mapping[mapping.len() - 1].0 != mapping[i].0);
        assert forall|j: int| 0 <= j < rest.len() && j != i implies (#[trigger] rest[j]).0 != rest[i].0 by {
            assert(rest[j] == mapping[j]);
        }
        lemma_mapped_once(rest, i);
    }
}

/// A pasted room is the copied room, at its place: every room on the clipboard is in the
/// area afterwards, under a number that was vacant, and the rooms that were there are as they
/// were.
pub proof fn law_a_pasted_room_is_the_copied_room(
    atlas: AtlasCache,
    area_id: AreaId,
    clipboard: ClipboardView,
    level: i32,
    points: PastePoints,
    ids: PasteIds,
    next_room_number: Option<RoomNumber>,
    limit: int,
    fresh: Seq<u128>,
)
    requires
        limit > 0,
        paste::rooms_fit(atlas, area_id, clipboard, next_room_number),
        rooms_differ(clipboard.rooms),
    ensures
        ({
            let paste = paste::pasted(
                atlas,
                area_id,
                clipboard,
                level,
                points,
                ids,
                next_room_number,
                limit,
            );
            paste.command matches Some(command) ==> are_rooms_pasted(
                undoing::staged(
                    doing::held(atlas, area_id),
                    doing::redo_batches(command, fresh, limit),
                ),
                doing::held(atlas, area_id),
                clipboard.rooms,
                paste.rooms,
                points.rooms@,
                atlas.area(area_id)->0.access.is_cleared_for_secrets,
            )
        }),
{
    let paste = paste::pasted(atlas, area_id, clipboard, level, points, ids, next_room_number, limit);
    if let Some(command) = paste.command {
        let area = atlas.area(area_id)->0;
        let world = undoing::world_of(area);
        let context = paste::paste_context(atlas, area, area_id, clipboard, next_room_number);
        let rooms = clipboard.rooms;
        let numbers = paste::pasted_numbers(context, rooms);
        let writes = paste::paste_writes(context, clipboard, points, ids);
        lemma_numbers(atlas, area, area_id, clipboard, next_room_number);
        assert forall|i: int| 0 <= i < rooms.len() implies !world.rooms.dom().contains(
            paste::pasted_number(context, #[trigger] rooms[i]),
        ) by {
            assert(numbers[i] == paste::pasted_number(context, rooms[i]));
        }
        assert forall|i: int, j: int|
            #![trigger rooms[i], rooms[j]]
            0 <= i < j < rooms.len() implies paste::pasted_number(context, rooms[i])
            != paste::pasted_number(context, rooms[j]) by {
            assert(numbers[i] != numbers[j]);
        }
        lemma_rooms_made(world, context, rooms, points.rooms@);
        withdrawing::lemma_rooms_pasted(world, context, rooms, points.rooms@);
        let made = undoing::all_written(world, paste::rooms_writes(context, rooms, points.rooms@));
        withdrawing::lemma_paste_written(world, context, clipboard, points, ids);
        assert(undoing::all_written(world, writes) == made);
        withdrawing::lemma_paste_rooms(
            world,
            atlas,
            area_id,
            clipboard,
            level,
            points,
            ids,
            next_room_number,
            limit,
            fresh,
        );
        let after = undoing::staged(world, doing::redo_batches(command, fresh, limit));
        assert(after.rooms == made.rooms);
        assert forall|i: int| 0 <= i < rooms.len() implies !world.rooms.dom().contains(
            #[trigger] numbers[i],
        ) && after.rooms.dom().contains(numbers[i]) && after.rooms[numbers[i]] == room_at(
            rooms[i],
            points.rooms@[i],
            context.cleared,
        ) by {
            assert(numbers[i] == paste::pasted_number(context, rooms[i]));
        }
        assert forall|number: RoomNumber|
            #![trigger after.rooms.dom().contains(number)]
            after.rooms.dom().contains(number) <==> world.rooms.dom().contains(number)
                || numbers.contains(number) by {
            if numbers.contains(number) {
                let i = choose|i: int| 0 <= i < numbers.len() && numbers[i] == number;
                assert(after.rooms.dom().contains(numbers[i]));
            } else {
                assert(made.rooms.dom().contains(number) == world.rooms.dom().contains(number));
            }
        }
        assert forall|number: RoomNumber|
            #![trigger after.rooms[number]]
            world.rooms.dom().contains(number) implies after.rooms[number] == world.rooms[number] by {
            if numbers.contains(number) {
                let i = choose|i: int| 0 <= i < numbers.len() && numbers[i] == number;
                assert(!world.rooms.dom().contains(numbers[i]));
            }
            assert(made.rooms[number] == world.rooms[number]);
        }
    }
}

/// A copied and pasted room is the room, at its place, but for its tags: what is pasted of a
/// snapshot has for every selected room a room with the same title, description, level, color,
/// external identity and properties, under a number that was vacant. Its secrecy goes along for
/// those who may see secrets.
///
/// A room lists no property under two values.
pub proof fn law_a_room_survives_copy_and_paste(
    source_id: AreaId,
    source: AreaCache,
    selection: Seq<EntityId>,
    boundary: bool,
    origin: Option<Point>,
    copied_routes: Seq<Seq<Point>>,
    atlas: AtlasCache,
    area_id: AreaId,
    level: i32,
    points: PastePoints,
    ids: PasteIds,
    next_room_number: Option<RoomNumber>,
    limit: int,
    fresh: Seq<u128>,
    number: RoomNumber,
)
    requires
        limit > 0,
        selection.no_duplicates(),
        selection.contains(EntityId::Room(number)),
        source.room(number) is Some,
        restoring::properties_agree(source.room(number)->0.properties@),
        paste::rooms_fit(
            atlas,
            area_id,
            clipboard::snapshot(source_id, source, selection, true, boundary, origin, copied_routes),
            next_room_number,
        ),
    ensures
        ({
            let clipboard = clipboard::snapshot(
                source_id,
                source,
                selection,
                true,
                boundary,
                origin,
                copied_routes,
            );
            let paste = paste::pasted(
                atlas,
                area_id,
                clipboard,
                level,
                points,
                ids,
                next_room_number,
                limit,
            );
            paste.command matches Some(command) ==> is_room_carried(
                undoing::staged(
                    doing::held(atlas, area_id),
                    doing::redo_batches(command, fresh, limit),
                ),
                doing::held(atlas, area_id),
                source.room(number)->0,
                paste.rooms,
                points.rooms@,
                atlas.area(area_id)->0.access.is_cleared_for_secrets,
            )
        }),
{
    let clipboard = clipboard::snapshot(
        source_id,
        source,
        selection,
        true,
        boundary,
        origin,
        copied_routes,
    );
    lemma_rooms_copied(source, selection);
    assert(are_rooms_copied(clipboard.rooms, source, selection));
    let i = choose|i: int|
        0 <= i < clipboard.rooms.len() && (#[trigger] clipboard.rooms[i]).room_number == number;
    assert(is_copy_of_room(clipboard.rooms[i], source.room(number)->0));
    law_a_pasted_room_is_the_copied_room(
        atlas,
        area_id,
        clipboard,
        level,
        points,
        ids,
        next_room_number,
        limit,
        fresh,
    );
    let paste = paste::pasted(atlas, area_id, clipboard, level, points, ids, next_room_number, limit);
    if let Some(command) = paste.command {
        let after = undoing::staged(
            doing::held(atlas, area_id),
            doing::redo_batches(command, fresh, limit),
        );
        assert(after.rooms.dom().contains(paste.rooms[i]));
    }
}

/// Whether a room is in a world under one of some new numbers, at the place beside it.
pub open spec fn is_room_carried(
    after: World,
    before: World,
    room: RoomCache,
    numbers: Seq<RoomNumber>,
    points: Seq<Point>,
    cleared: bool,
) -> bool {
    exists|i: int|
        0 <= i < numbers.len() && !before.rooms.dom().contains(#[trigger] numbers[i])
            && after.rooms.dom().contains(numbers[i]) && after.rooms[numbers[i]] == (RoomState {
            is_secret: cleared && room.is_secret,
            x: points[i].x,
            y: points[i].y,
            tags: Set::empty(),
            ..undoing::room_state(room)
        })
}

// ===== Copied drawings =====

/// Whether a clip is of a label, with everything that is kept of it but its secrecy.
pub open spec fn is_copy_of_label(clip: LabelArgs<Seq<char>>, label: LabelCache) -> bool {
    &&& clip.id is None && clip.is_secret is None
    &&& clip.level == label.level
    &&& clip.x == label.x && clip.y == label.y
    &&& clip.width == label.width && clip.height == label.height
    &&& clip.horizontal_alignment == label.horizontal_alignment
    &&& clip.vertical_alignment == label.vertical_alignment
    &&& clip.text == label.text@
    &&& clip.color == label.color@
    &&& clip.background_color == Some(label.background_color@)
    &&& clip.font_size == label.font_size && clip.font_weight == label.font_weight
}

/// Whether a clip is of a shape, with everything that is kept of it but its secrecy.
pub open spec fn is_copy_of_shape(clip: ShapeArgs<Seq<char>>, shape: ShapeCache) -> bool {
    &&& clip.id is None && clip.is_secret is None
    &&& clip.level == shape.level
    &&& clip.x == shape.x && clip.y == shape.y
    &&& clip.width == shape.width && clip.height == shape.height
    &&& clip.background_color is Some && clip.background_color->0 == (match shape.background_color {
        Some(color) => color@,
        None => Seq::empty(),
    })
    &&& clip.stroke_color is Some && clip.stroke_color->0 == (match shape.stroke_color {
        Some(color) => color@,
        None => Seq::empty(),
    })
    &&& clip.shape_type == shape.shape_type
    &&& clip.border_radius == shape.border_radius
    &&& clip.stroke_width == Some(shape.stroke_width)
}

/// Whether clips are of labels, each of one that is selected and cached; of all of those; and
/// of each once.
pub open spec fn are_labels_copied_from(
    clips: Seq<LabelArgs<Seq<char>>>,
    from: Seq<LabelCache>,
    area: AreaCache,
    selection: Seq<EntityId>,
) -> bool {
    &&& clips.len() == from.len()
    &&& forall|i: int|
        0 <= i < from.len() ==> is_copy_of_label(clips[i], #[trigger] from[i]) && area.label(from[i].id)
            == Some(from[i]) && selection.contains(EntityId::Label(from[i].id))
    &&& forall|id: LabelId|
        selection.contains(EntityId::Label(id)) && #[trigger] area.label(id) is Some ==> from.contains(
            area.label(id)->0,
        )
    &&& selection.no_duplicates() ==> forall|i: int, j: int|
        0 <= i < j < from.len() ==> (#[trigger] from[i]).id != (#[trigger] from[j]).id
}

/// Whether clips are of shapes, each of one that is selected and cached; of all of those; and
/// of each once.
pub open spec fn are_shapes_copied_from(
    clips: Seq<ShapeArgs<Seq<char>>>,
    from: Seq<ShapeCache>,
    area: AreaCache,
    selection: Seq<EntityId>,
) -> bool {
    &&& clips.len() == from.len()
    &&& forall|i: int|
        0 <= i < from.len() ==> is_copy_of_shape(clips[i], #[trigger] from[i]) && area.shape(from[i].id)
            == Some(from[i]) && selection.contains(EntityId::Shape(from[i].id))
    &&& forall|id: ShapeId|
        selection.contains(EntityId::Shape(id)) && #[trigger] area.shape(id) is Some ==> from.contains(
            area.shape(id)->0,
        )
    &&& selection.no_duplicates() ==> forall|i: int, j: int|
        0 <= i < j < from.len() ==> (#[trigger] from[i]).id != (#[trigger] from[j]).id
}

/// What is found of some keys: everything there is, and of different keys different things.
pub(crate) proof fn lemma_found<K, T>(
    keys: Seq<K>,
    find: spec_fn(K) -> Option<T>,
    key: spec_fn(T) -> K,
    piece: spec_fn(K) -> Seq<T>,
)
    requires
        forall|k: K| (#[trigger] find(k)) is Some ==> key(find(k)->0) == k,
        forall|k: K|
            #![trigger find(k)]
            #![trigger piece(k)]
            match find(k) {
                Some(item) => piece(k) == seq![item],
                None => piece(k).len() == 0,
            },
    ensures
        ({
            let found = list::collect(keys, piece);
            &&& forall|i: int|
                0 <= i < found.len() ==> keys.contains(key(#[trigger] found[i])) && find(key(found[i]))
                    == Some(found[i])
            &&& forall|k: K|
                keys.contains(k) && (#[trigger] find(k)) is Some ==> found.contains(find(k)->0)
            &&& keys.no_duplicates() ==> forall|i: int, j: int|
                0 <= i < j < found.len() ==> key(#[trigger] found[i]) != key(#[trigger] found[j])
        }),
    decreases keys.len(),
{
    let found = list::collect(keys, piece);
    if keys.len() > 0 {
        let rest = keys.drop_last();
        let last = keys[keys.len() - 1];
        lemma_found(rest, find, key, piece);
        let before = list::collect(rest, piece);
        assert forall|k: K| #[trigger] rest.contains(k) implies keys.contains(k) by {
            let j = choose|j: int| 0 <= j < rest.len() && rest[j] == k;
            assert(keys[j] == k);
        }
        if let Some(item) = find(last) {
            assert(found =~= before.push(item));
        } else {
            assert(found =~= before);
        }
        assert forall|i: int| 0 <= i < found.len() implies keys.contains(key(#[trigger] found[i]))
            && find(key(found[i])) == Some(found[i]) by {
            if i < before.len() {
                assert(found[i] == before[i]);
            }
        }
        assert forall|k: K| keys.contains(k) && (#[trigger] find(k)) is Some implies found.contains(
            find(k)->0,
        ) by {
            let j = choose|j: int| 0 <= j < keys.len() && keys[j] == k;
            if j < rest.len() {
                assert(rest[j] == k);
                let i = choose|i: int| 0 <= i < before.len() && before[i] == find(k)->0;
                assert(found[i] == find(k)->0);
            } else {
                assert(found[found.len() - 1] == find(k)->0);
            }
        }
        if keys.no_duplicates() {
            assert(rest.no_duplicates());
            assert forall|i: int, j: int| 0 <= i < j < found.len() implies key(#[trigger] found[i]) != key(
                #[trigger] found[j],
            ) by {
                assert(found[i] == before[i]);
                if j < before.len() {
                    assert(found[j] == before[j]);
                } else {
                    assert(rest.contains(key(before[i])));
                    let k = choose|k: int| 0 <= k < rest.len() && rest[k] == key(before[i]);
                    assert(keys[k] == key(before[i]));
                }
            }
        }
    }
}

/// A label or a shape that is selected once is listed once.
proof fn lemma_drawings_once(selection: Seq<EntityId>)
    requires
        selection.no_duplicates(),
    ensures
        cache::selected_labels(selection).no_duplicates(),
        cache::selected_shapes(selection).no_duplicates(),
    decreases selection.len(),
{
    if selection.len() > 0 {
        let rest = selection.drop_last();
        let last = selection.last();
        lemma_drawings_once(rest);
        let labels = cache::selected_labels(rest);
        let shapes = cache::selected_shapes(rest);
        if rest.contains(last) {
            let k = choose|k: int| 0 <= k < rest.len() && rest[k] == last;
            assert(selection[k] == selection[selection.len() - 1]);
        }
        match last {
            EntityId::Label(id) => {
                assert(cache::selected_labels(selection) =~= labels.push(id));
                assert(cache::selected_shapes(selection) =~= shapes);
                doing::lemma_selected(rest, last);
                lemma_pushed_once(labels, id);
            },
            EntityId::Shape(id) => {
                assert(cache::selected_labels(selection) =~= labels);
                assert(cache::selected_shapes(selection) =~= shapes.push(id));
                doing::lemma_selected(rest, last);
                lemma_pushed_once(shapes, id);
            },
            _ => {
                assert(cache::selected_labels(selection) =~= labels);
                assert(cache::selected_shapes(selection) =~= shapes);
            },
        }
    }
}

/// Something new at the end of a list is listed once.
proof fn lemma_pushed_once<T>(list: Seq<T>, item: T)
    requires
        list.no_duplicates(),
        !list.contains(item),
    ensures
        list.push(item).no_duplicates(),
{
    let all = list.push(item);
    assert forall|i: int, j: int| 0 <= i < j < all.len() implies all[i] != all[j] by {
        assert(list.contains(list[i]));
    }
}

/// A snapshot holds the selected rooms, labels and shapes, each once, as they are. Rooms are
/// left out unless they may be copied.
pub proof fn law_a_snapshot_holds_what_is_selected(
    area_id: AreaId,
    area: AreaCache,
    selection: Seq<EntityId>,
    allow_rooms: bool,
    boundary: bool,
    origin: Option<Point>,
    routes: Seq<Seq<Point>>,
)
    ensures
        ({
            let clipboard = clipboard::snapshot(
                area_id,
                area,
                selection,
                allow_rooms,
                boundary,
                origin,
                routes,
            );
            &&& clipboard.source_area_id == Some(area_id)
            &&& clipboard.connection_origin == origin
            &&& if allow_rooms {
                are_rooms_copied(clipboard.rooms, area, selection)
            } else {
                clipboard.rooms.len() == 0 && clipboard.connections.len() == 0
            }
            &&& exists|from: Seq<LabelCache>| #[trigger]
                are_labels_copied_from(clipboard.labels, from, area, selection)
            &&& exists|from: Seq<ShapeCache>| #[trigger]
                are_shapes_copied_from(clipboard.shapes, from, area, selection)
        }),
{
    let clipboard = clipboard::snapshot(
        area_id,
        area,
        selection,
        allow_rooms,
        boundary,
        origin,
        routes,
    );
    lemma_rooms_copied(area, selection);
    if selection.no_duplicates() {
        lemma_drawings_once(selection);
    }
    let labels = cache::selected_labels(selection);
    let find = |id: LabelId| area.label(id);
    let key = |label: LabelCache| label.id;
    assert forall|id: LabelId| (#[trigger] find(id)) is Some implies key(find(id)->0) == id by {
        list::lemma_first_exists(area.labels@, |item: LabelCache| item.id == id);
    }
    let piece = |id: LabelId|
        match area.label(id) {
            Some(label) => seq![label],
            None => Seq::empty(),
        };
    lemma_found(labels, find, key, piece);
    let from = deletion::cached_labels(area, labels);
    assert(from == list::collect(labels, piece));
    assert forall|i: int| 0 <= i < from.len() implies is_copy_of_label(
        clipboard.labels[i],
        #[trigger] from[i],
    ) && area.label(from[i].id) == Some(from[i]) && selection.contains(EntityId::Label(from[i].id)) by {
        assert(find(key(from[i])) == Some(from[i]));
        doing::lemma_selected(selection, EntityId::Label(from[i].id));
    }
    assert forall|id: LabelId|
        selection.contains(EntityId::Label(id)) && #[trigger] area.label(id) is Some implies from.contains(
        area.label(id)->0,
    ) by {
        doing::lemma_selected(selection, EntityId::Label(id));
        assert(find(id) is Some);
    }
    if selection.no_duplicates() {
        assert forall|i: int, j: int| 0 <= i < j < from.len() implies (#[trigger] from[i]).id != (
        #[trigger] from[j]).id by {
            assert(key(from[i]) != key(from[j]));
        }
    }
    assert(are_labels_copied_from(clipboard.labels, from, area, selection));
    lemma_shapes_copied(area, selection, clipboard.shapes);
}

/// The shapes on the clipboard are the selected ones.
proof fn lemma_shapes_copied(
    area: AreaCache,
    selection: Seq<EntityId>,
    clips: Seq<ShapeArgs<Seq<char>>>,
)
    requires
        clips == deletion::cached_shapes(area, cache::selected_shapes(selection)).map_values(
            |shape: ShapeCache| deletion::shape_args(shape, None),
        ),
    ensures
        exists|from: Seq<ShapeCache>| #[trigger] are_shapes_copied_from(clips, from, area, selection),
{
    if selection.no_duplicates() {
        lemma_drawings_once(selection);
    }
    let shapes = cache::selected_shapes(selection);
    let find = |id: ShapeId| area.shape(id);
    let key = |shape: ShapeCache| shape.id;
    assert forall|id: ShapeId| (#[trigger] find(id)) is Some implies key(find(id)->0) == id by {
        list::lemma_first_exists(area.shapes@, |item: ShapeCache| item.id == id);
    }
    let piece = |id: ShapeId|
        match area.shape(id) {
            Some(shape) => seq![shape],
            None => Seq::empty(),
        };
    lemma_found(shapes, find, key, piece);
    let from = deletion::cached_shapes(area, shapes);
    assert(from == list::collect(shapes, piece));
    assert forall|i: int| 0 <= i < from.len() implies is_copy_of_shape(clips[i], #[trigger] from[i])
        && area.shape(from[i].id) == Some(from[i]) && selection.contains(EntityId::Shape(from[i].id)) by {
        assert(find(key(from[i])) == Some(from[i]));
        doing::lemma_selected(selection, EntityId::Shape(from[i].id));
    }
    assert forall|id: ShapeId|
        selection.contains(EntityId::Shape(id)) && #[trigger] area.shape(id) is Some implies from.contains(
        area.shape(id)->0,
    ) by {
        doing::lemma_selected(selection, EntityId::Shape(id));
        assert(find(id) is Some);
    }
    if selection.no_duplicates() {
        assert forall|i: int, j: int| 0 <= i < j < from.len() implies (#[trigger] from[i]).id != (
        #[trigger] from[j]).id by {
            assert(key(from[i]) != key(from[j]));
        }
    }
    assert(are_shapes_copied_from(clips, from, area, selection));
}

// ===== Pasted drawings =====

/// Whether a label is a copied one at a place and on a level.
pub open spec fn is_label_at(
    label: LabelCache<Seq<char>>,
    clip: LabelArgs<Seq<char>>,
    id: LabelId,
    at: Point,
    level: i32,
) -> bool {
    &&& label.id == id
    &&& label.level == level
    &&& label.x == at.x && label.y == at.y
    &&& label.width == clip.width && label.height == clip.height
    &&& label.horizontal_alignment == clip.horizontal_alignment
    &&& label.vertical_alignment == clip.vertical_alignment
    &&& label.text == clip.text
    &&& label.color == clip.color
    &&& clip.background_color is Some ==> label.background_color == clip.background_color->0
    &&& label.font_size == clip.font_size && label.font_weight == clip.font_weight
    &&& label.is_secret == (clip.is_secret == Some(true))
}

/// Whether a shape is a copied one at a place and on a level.
pub open spec fn is_shape_at(
    shape: ShapeState,
    clip: ShapeArgs<Seq<char>>,
    at: Point,
    level: i32,
) -> bool {
    &&& shape.level == level
    &&& shape.x == at.x && shape.y == at.y
    &&& shape.width == clip.width && shape.height == clip.height
    &&& clip.background_color is Some ==> shape.background_color == clip.background_color->0
    &&& clip.stroke_color is Some ==> shape.stroke_color == clip.stroke_color->0
    &&& shape.shape_type == clip.shape_type
    &&& shape.border_radius == clip.border_radius
    &&& clip.stroke_width is Some ==> shape.stroke_width == clip.stroke_width->0
    &&& shape.is_secret == (clip.is_secret == Some(true))
}

/// Whether the drawings of a world are those of another and the copied ones, each at its
/// place: on the given level when they are pasted into the area that they were copied from,
/// else on their own.
pub open spec fn are_drawings_pasted(
    after: World,
    before: World,
    clipboard: ClipboardView,
    area_id: AreaId,
    points: PastePoints,
    level: i32,
    labels: Seq<LabelId>,
    shapes: Seq<ShapeId>,
) -> bool {
    let same = clipboard.source_area_id == Some(area_id);
    &&& labels.len() == clipboard.labels.len() && labels.no_duplicates()
    &&& shapes.len() == clipboard.shapes.len() && shapes.no_duplicates()
    &&& withdrawing::drawings_added(after, before, labels, shapes)
    &&& forall|i: int|
        0 <= i < labels.len() ==> after.labels.dom().contains(#[trigger] labels[i]) && is_label_at(
            after.labels[labels[i]],
            clipboard.labels[i],
            labels[i],
            points.labels@[i],
            if same {
                level
            } else {
                clipboard.labels[i].level
            },
        )
    &&& forall|i: int|
        0 <= i < shapes.len() ==> after.shapes.dom().contains(#[trigger] shapes[i]) && is_shape_at(
            after.shapes[shapes[i]],
            clipboard.shapes[i],
            points.shapes@[i],
            if same {
                level
            } else {
                clipboard.shapes[i].level
            },
        )
}

/// A pasted label or shape is the copied one, at its place, under a new identity, and the
/// drawings that were there are as they were.
///
/// The identities that new drawings get differ, and the copies name none of their own.
pub proof fn law_a_pasted_drawing_is_the_copied_drawing(
    atlas: AtlasCache,
    area_id: AreaId,
    clipboard: ClipboardView,
    level: i32,
    points: PastePoints,
    ids: PasteIds,
    next_room_number: Option<RoomNumber>,
    limit: int,
    fresh: Seq<u128>,
)
    requires
        limit > 0,
        clipboard.labels.len() + clipboard.shapes.len() <= usize::MAX,
        forall|i: int| 0 <= i < clipboard.labels.len() ==> (#[trigger] clipboard.labels[i]).id is None,
        forall|i: int| 0 <= i < clipboard.shapes.len() ==> (#[trigger] clipboard.shapes[i]).id is None,
        fresh.len() >= 1 + clipboard.labels.len() + clipboard.shapes.len(),
        fresh.no_duplicates(),
    ensures
        ({
            let paste = paste::pasted(
                atlas,
                area_id,
                clipboard,
                level,
                points,
                ids,
                next_room_number,
                limit,
            );
            paste.command matches Some(command) ==> exists|
                labels: Seq<LabelId>,
                shapes: Seq<ShapeId>,
            | #[trigger]
                are_drawings_pasted(
                    undoing::staged(
                        doing::held(atlas, area_id),
                        doing::redo_batches(command, fresh, limit),
                    ),
                    doing::held(atlas, area_id),
                    clipboard,
                    area_id,
                    points,
                    level,
                    labels,
                    shapes,
                )
        }),
{
    let paste = paste::pasted(atlas, area_id, clipboard, level, points, ids, next_room_number, limit);
    if let Some(command) = paste.command {
        let area = atlas.area(area_id)->0;
        let world = undoing::world_of(area);
        let context = paste::paste_context(atlas, area, area_id, clipboard, next_room_number);
        let writes = paste::paste_writes(context, clipboard, points, ids);
        let rooms = paste::pasted_numbers(context, clipboard.rooms);
        let present = writes.len() != 0;
        let labels = clipboard.labels.len();
        let shapes = clipboard.shapes.len();
        let a = withdrawing::as_batch(
            area_id,
            present,
            writes,
            paste::paste_description(rooms.len()),
        );
        let b = paste::labels_pasted(
            area_id,
            clipboard.labels,
            points.labels@,
            context.same_area,
            level,
        );
        let c = paste::shapes_pasted(
            area_id,
            clipboard.shapes,
            points.shapes@,
            context.same_area,
            level,
            labels as int,
        );
        assert(command.redo =~= a + b + c);
        withdrawing::lemma_paste_slots(a, b, c, command.undo);
        withdrawing::lemma_paste_spares(context, clipboard, points, ids);
        let start = restoring::compile_start(command);
        withdrawing::lemma_drawings_pasted(
            world,
            start,
            a,
            area_id,
            clipboard,
            points,
            context.same_area,
            level,
            fresh,
            command.id,
            limit,
        );
        let for_labels = fresh.skip(a.len() as int);
        let for_shapes = fresh.skip((a.len() + labels) as int);
        let label_ids = withdrawing::new_labels(for_labels, labels);
        let shape_ids = withdrawing::new_shapes(for_shapes, shapes);
        let held = doing::held(atlas, area_id);
        let after = undoing::staged(held, doing::redo_batches(command, fresh, limit));
        assert(held == world);
        assert forall|i: int, j: int| 0 <= i < j < label_ids.len() implies label_ids[i] != label_ids[j] by {
            assert(fresh[a.len() + i] != fresh[a.len() + j]);
        }
        assert forall|i: int, j: int| 0 <= i < j < shape_ids.len() implies shape_ids[i] != shape_ids[j] by {
            assert(fresh[a.len() + labels + i] != fresh[a.len() + labels + j]);
        }
        assert forall|i: int| 0 <= i < label_ids.len() implies after.labels.dom().contains(
            #[trigger] label_ids[i],
        ) by {
            assert(label_ids.contains(label_ids[i]));
        }
        assert forall|i: int| 0 <= i < shape_ids.len() implies after.shapes.dom().contains(
            #[trigger] shape_ids[i],
        ) by {
            assert(shape_ids.contains(shape_ids[i]));
        }
        assert(are_drawings_pasted(
            after,
            held,
            clipboard,
            area_id,
            points,
            level,
            label_ids,
            shape_ids,
        ));
    }
}

// ===== Where things go =====

/// Everything on the clipboard is moved by the same shift, each from where it was copied; and
/// every point of a copied route is put back from the same origin, in its order.
pub proof fn law_everything_is_moved_alike<F: Fn(Point) -> Point, G: Fn(Point, Point) -> Point>(
    shift: F,
    place: G,
    clipboard: ClipboardView,
    points: PastePoints,
)
    requires
        paste::placed_by(shift, place, clipboard, points),
    ensures
        points.rooms@.len() == clipboard.rooms.len(),
        points.labels@.len() == clipboard.labels.len(),
        points.shapes@.len() == clipboard.shapes.len(),
        points.routes@.len() == clipboard.connections.len(),
        forall|i: int|
            0 <= i < clipboard.rooms.len() ==> shift.ensures(
                (Point { x: clipboard.rooms[i].x, y: clipboard.rooms[i].y },),
                #[trigger] points.rooms@[i],
            ),
        forall|i: int|
            0 <= i < clipboard.labels.len() ==> shift.ensures(
                (Point { x: clipboard.labels[i].x, y: clipboard.labels[i].y },),
                #[trigger] points.labels@[i],
            ),
        forall|i: int|
            0 <= i < clipboard.shapes.len() ==> shift.ensures(
                (Point { x: clipboard.shapes[i].x, y: clipboard.shapes[i].y },),
                #[trigger] points.shapes@[i],
            ),
        forall|i: int, k: int|
            #![trigger points.routes@[i]@[k]]
            0 <= i < clipboard.connections.len() ==> points.routes@[i]@.len()
                == clipboard.connections[i].body.route_points.len() && (0 <= k
                < points.routes@[i]@.len() && clipboard.connection_origin is Some ==> place.ensures(
                (clipboard.connections[i].body.route_points[k], clipboard.connection_origin->0),
                points.routes@[i]@[k],
            )),
{
}

} // verus!
