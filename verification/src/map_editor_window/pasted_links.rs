//! What a paste leaves of exits and connections.
//!
//! A pasted exit is walked like the copied one, and leads to the counterpart of the room that
//! the copied one leads to. A pasted connection looks like the copied one, between the
//! counterparts of its rooms.

use vstd::prelude::*;

use super::clipboard::{ClipboardView, ConnectionClipView, ExitClip, RoomClipView};
use super::commands::Direction;
use super::copying;
use super::doing;
use super::model::{
    AreaCache, AreaId, AtlasCache, ConnectionEndpoint, ConnectionId, ExitId, Point, RoomKey, RoomNumber, SegmentShape,
};
use super::mutation::{self, AreaMutation, OpView};
use super::paste::{self, PasteContext, PasteIds, PastePoints, PasteView};
use super::relinking::ExitState;
use super::unpasting;
use super::wiring::{self, ExitEntry, LinkState, Links};
use super::withdrawing;

verus! {

// ===== Counterparts =====

/// Whether a room was copied.
pub open spec fn is_copied(clips: Seq<RoomClipView>, number: RoomNumber) -> bool {
    exists|i: int| 0 <= i < clips.len() && (#[trigger] clips[i]).room_number == number
}

/// The room that stands for a copied number where it is pasted: the pasted room, or else the
/// room of that number that is there.
pub open spec fn counterpart(
    clips: Seq<RoomClipView>,
    numbers: Seq<RoomNumber>,
    area: AreaCache,
    number: RoomNumber,
) -> Option<RoomNumber> {
    if is_copied(clips, number) {
        Some(
            numbers[choose|i: int| 0 <= i < clips.len() && (#[trigger] clips[i]).room_number == number],
        )
    } else if area.room(number) is Some {
        Some(number)
    } else {
        None
    }
}

/// The counterpart of a copied room is the pasted one, and that of another the room itself.
proof fn lemma_counterpart(
    atlas: AtlasCache,
    area: AreaCache,
    area_id: AreaId,
    clipboard: ClipboardView,
    next_room_number: Option<RoomNumber>,
    number: RoomNumber,
)
    requires
        atlas.area(area_id) == Some(area),
        paste::rooms_fit(atlas, area_id, clipboard, next_room_number),
        copying::rooms_differ(clipboard.rooms),
    ensures
        ({
            let context = paste::paste_context(atlas, area, area_id, clipboard, next_room_number);
            let numbers = paste::pasted_numbers(context, clipboard.rooms);
            &&& paste::resolved_room(context, number) == counterpart(
                clipboard.rooms,
                numbers,
                area,
                number,
            )
            &&& paste::mapped(context.mapping, number) is Some == is_copied(clipboard.rooms, number)
            &&& is_copied(clipboard.rooms, number) ==> paste::mapped(context.mapping, number)
                == counterpart(clipboard.rooms, numbers, area, number)
        }),
{
    let context = paste::paste_context(atlas, area, area_id, clipboard, next_room_number);
    let rooms = clipboard.rooms;
    copying::lemma_numbers(atlas, area, area_id, clipboard, next_room_number);
    if is_copied(rooms, number) {
        let i = choose|i: int| 0 <= i < rooms.len() && (#[trigger] rooms[i]).room_number == number;
        assert(rooms[i].room_number == number);
    } else if paste::mapped(context.mapping, number) is Some {
        unpasting::lemma_mapped_named(context.mapping, number);
        let i = choose|i: int|
            0 <= i < context.mapping.len() && (#[trigger] context.mapping[i]).0 == number;
        assert(rooms[i].room_number == number);
    }
}

// ===== What a pasted exit is =====

/// Whether an exit is walked like a copied one. Its secrecy goes along for those who may see
/// secrets.
pub open spec fn is_walked_like(exit: ExitState, clip: ExitClip<Seq<char>>, cleared: bool) -> bool {
    &&& exit.from_direction == clip.from_direction
    &&& exit.path == clip.path
    &&& exit.command == clip.command
    &&& exit.weight == clip.weight
    &&& exit.is_hidden == clip.is_hidden
    &&& exit.is_closed == clip.is_closed
    &&& exit.is_locked == clip.is_locked
    &&& exit.is_secret == (cleared && clip.is_secret)
    &&& !exit.to_unknown
}

/// Whether an exit leads to a room, or to none, arriving there from the side that a copied one
/// arrives from.
pub open spec fn arrives(exit: ExitState, to: Option<RoomKey>, clip: ExitClip<Seq<char>>) -> bool {
    match to {
        Some(key) => wiring::leads_to(exit, key) && exit.to_direction == clip.to_direction,
        None => exit.to_area_id is None && exit.to_room_number is None && exit.to_direction is None,
    }
}

/// Whether a copied exit leads into the area that it was copied from.
pub open spec fn leads_within(clip: ExitClip<Seq<char>>, source: AreaId) -> bool {
    clip.to_area_id is None || clip.to_area_id == Some(source)
}

/// Whether a pasted exit of a connection leads where the copied one does. Within the area that
/// it was copied from that is the counterpart of the room; another area is kept when it is
/// cached.
pub open spec fn leads_alike(
    exit: ExitState,
    clip: ExitClip<Seq<char>>,
    source: AreaId,
    target: AreaId,
    atlas: AtlasCache,
    far: Option<RoomNumber>,
) -> bool {
    if leads_within(clip, source) {
        arrives(
            exit,
            match far {
                Some(room_number) => Some(RoomKey { area_id: target, room_number }),
                None => None,
            },
            clip,
        )
    } else if atlas.area(clip.to_area_id->0) is Some {
        exit.to_area_id == clip.to_area_id && exit.to_room_number == clip.to_room_number
            && exit.to_direction == clip.to_direction
    } else {
        arrives(exit, None, clip)
    }
}

/// The room that stands for the one that a copied exit leads to.
pub open spec fn far_counterpart(
    clip: ExitClip<Seq<char>>,
    clips: Seq<RoomClipView>,
    numbers: Seq<RoomNumber>,
    area: AreaCache,
) -> Option<RoomNumber> {
    match clip.to_room_number {
        Some(number) => counterpart(clips, numbers, area, number),
        None => None,
    }
}

/// What a paste is made from.
pub struct Pasting {
    pub atlas: AtlasCache,
    pub area: AreaCache,
    pub target: AreaId,
    pub clipboard: ClipboardView,
    /// The numbers that the copied rooms are pasted under.
    pub numbers: Seq<RoomNumber>,
}

impl Pasting {
    /// The area that was copied from.
    pub open spec fn source(self) -> AreaId {
        match self.clipboard.source_area_id {
            Some(id) => id,
            None => self.target,
        }
    }

    /// Whether the viewer may see secrets.
    pub open spec fn cleared(self) -> bool {
        self.area.access.is_cleared_for_secrets
    }

    /// The room that stands for a copied number.
    pub open spec fn room(self, number: RoomNumber) -> Option<RoomNumber> {
        counterpart(self.clipboard.rooms, self.numbers, self.area, number)
    }

    /// Whether an exit is a copied exit of a connection, pasted.
    pub open spec fn is_member(
        self,
        entry: ExitEntry,
        member: (RoomNumber, ExitClip<Seq<char>>),
        id: ExitId,
        connection_id: ConnectionId,
    ) -> bool {
        &&& entry.1.id == id
        &&& entry.1.connection_id == connection_id
        &&& entry.0.area_id == self.target
        &&& Some(entry.0.room_number) == self.room(member.0)
        &&& is_walked_like(entry.1, member.1, self.cleared())
        &&& leads_alike(
            entry.1,
            member.1,
            self.source(),
            self.target,
            self.atlas,
            far_counterpart(member.1, self.clipboard.rooms, self.numbers, self.area),
        )
    }

    /// Whether an exit is one that was copied with its room, pasted: it leads to the pasted
    /// room when the room that it leads to was copied too, or to another area that is cached.
    pub open spec fn is_room_exit(
        self,
        entry: ExitEntry,
        room: RoomClipView,
        clip: ExitClip<Seq<char>>,
        id: ExitId,
    ) -> bool {
        &&& entry.1.id == id
        &&& entry.0.area_id == self.target
        &&& Some(entry.0.room_number) == self.room(room.room_number)
        &&& is_walked_like(entry.1, clip, self.cleared())
        &&& if clip.to_unknown || clip.to_room_number is None {
            arrives(entry.1, None, clip)
        } else if leads_within(clip, self.source()) && !is_copied(
            self.clipboard.rooms,
            clip.to_room_number->0,
        ) {
            arrives(entry.1, None, clip)
        } else {
            leads_alike(
                entry.1,
                clip,
                self.source(),
                self.target,
                self.atlas,
                far_counterpart(clip, self.clipboard.rooms, self.numbers, self.area),
            )
        }
    }

    /// Whether an exit can be put at a room: the room is a pasted one, or has no exit in that
    /// direction.
    pub open spec fn is_free(self, member: (RoomNumber, ExitClip<Seq<char>>)) -> bool {
        is_copied(self.clipboard.rooms, member.0) || forall|i: int|
            0 <= i < self.area.room(member.0)->0.exits@.len() ==> (
            #[trigger] self.area.room(member.0)->0.exits@[i]).from_direction != member.1.from_direction
    }

    /// Whether a copied connection can be pasted: every room of it has a counterpart, and none
    /// of its exits goes where there is one already.
    pub open spec fn finds_place(self, clip: ConnectionClipView) -> bool {
        &&& self.room(clip.body.endpoint_a.room_number) is Some
        &&& clip.body.endpoint_b is Some ==> self.room(clip.body.endpoint_b->0.room_number) is Some
        &&& forall|k: int|
            0 <= k < clip.members.len() ==> self.room((#[trigger] clip.members[k]).0) is Some
                && self.is_free(clip.members[k])
    }

    /// Whether both ends of a copied connection are pasted rooms.
    pub open spec fn comes_with_rooms(self, clip: ConnectionClipView) -> bool {
        is_copied(self.clipboard.rooms, clip.body.endpoint_a.room_number) && (clip.body.endpoint_b is Some
            ==> is_copied(self.clipboard.rooms, clip.body.endpoint_b->0.room_number))
    }

    /// Whether an end of a connection is that of a copied one.
    pub open spec fn is_end(self, end: ConnectionEndpoint, copied: ConnectionEndpoint) -> bool {
        &&& Some(end.room_number) == self.room(copied.room_number)
        &&& end.side == copied.side
        &&& end.port_offset == copied.port_offset
        &&& end.port_mode == copied.port_mode
    }

    /// Whether a connection is a copied one, pasted. Its route is put back when its rooms were
    /// copied with it, and dropped when it meets a room that was there.
    pub open spec fn is_connection(
        self,
        link: LinkState,
        clip: ConnectionClipView,
        id: ConnectionId,
        route: Seq<Point>,
    ) -> bool {
        &&& link.id == id
        &&& self.is_end(link.endpoint_a, clip.body.endpoint_a)
        &&& link.endpoint_b is Some == clip.body.endpoint_b is Some
        &&& link.endpoint_b is Some ==> self.is_end(link.endpoint_b->0, clip.body.endpoint_b->0)
        &&& link.corner == clip.body.corner
        &&& link.dash == clip.body.dash
        &&& link.color == clip.body.color
        &&& link.thickness == clip.body.thickness
        &&& if self.comes_with_rooms(clip) {
            link.routing == clip.body.routing && link.segment_shape == clip.body.segment_shape
                && link.route_points == route
        } else {
            link.route_points.len() == 0 && link.segment_shape == SegmentShape::Direct && !(
            link.routing is Manual) && !(link.routing is Automatic) && (!(clip.body.routing is Manual)
                && !(clip.body.routing is Automatic) ==> link.routing == clip.body.routing) && ((
            clip.body.routing is Manual || clip.body.routing is Automatic) ==> link.routing is Simple)
        }
    }
}

// ===== Identities =====

/// Whether the identities for copied exits of connections are unused and differ.
pub open spec fn members_are_new(
    before: Links,
    clips: Seq<ConnectionClipView>,
    ids: Seq<Vec<ExitId>>,
) -> bool {
    &&& forall|i: int, k: int|
        #![trigger ids[i]@[k]]
        0 <= i < clips.len() && 0 <= k < clips[i].members.len() ==> !before.exits.dom().contains(
            ids[i]@[k],
        )
    &&& forall|i: int, k: int, j: int, l: int|
        #![trigger ids[i]@[k], ids[j]@[l]]
        0 <= i < clips.len() && 0 <= k < clips[i].members.len() && 0 <= j < clips.len() && 0 <= l
            < clips[j].members.len() && ids[i]@[k] == ids[j]@[l] ==> i == j && k == l
}

/// Whether the identities for connections are unused and differ.
pub open spec fn connections_are_new(before: Links, n: nat, ids: Seq<ConnectionId>) -> bool {
    &&& forall|i: int| 0 <= i < n ==> !wiring::is_used(before, #[trigger] ids[i])
    &&& forall|i: int, j: int| 0 <= i < j < n ==> #[trigger] ids[i] != #[trigger] ids[j]
}

/// Whether the identities for exits copied with rooms are unused and differ.
pub open spec fn room_exits_are_new(before: Links, rooms: Seq<RoomClipView>, ids: Seq<Vec<ExitId>>) -> bool {
    &&& forall|i: int, k: int|
        #![trigger ids[i]@[k]]
        0 <= i < rooms.len() && 0 <= k < rooms[i].exits.len() ==> !before.exits.dom().contains(ids[i]@[k])
    &&& forall|i: int, k: int, j: int, l: int|
        #![trigger ids[i]@[k], ids[j]@[l]]
        0 <= i < rooms.len() && 0 <= k < rooms[i].exits.len() && 0 <= j < rooms.len() && 0 <= l
            < rooms[j].exits.len() && ids[i]@[k] == ids[j]@[l] ==> i == j && k == l
}

/// Whether the identities of a paste are unused and differ.
pub open spec fn are_unused(ids: PasteIds, clipboard: ClipboardView, before: Links) -> bool {
    &&& members_are_new(before, clipboard.connections, ids.members@)
    &&& connections_are_new(before, clipboard.connections.len(), ids.connections@)
    &&& room_exits_are_new(before, clipboard.rooms, ids.room_exits@)
    &&& forall|i: int, k: int, j: int, l: int|
        #![trigger ids.room_exits@[i]@[k], ids.members@[j]@[l]]
        0 <= i < clipboard.rooms.len() && 0 <= k < clipboard.rooms[i].exits.len() && 0 <= j
            < clipboard.connections.len() && 0 <= l < clipboard.connections[j].members.len()
            ==> ids.room_exits@[i]@[k] != ids.members@[j]@[l]
}

/// Whether an identity is one of those for exits copied with rooms.
pub open spec fn is_room_exit_id(rooms: Seq<RoomClipView>, ids: Seq<Vec<ExitId>>, id: ExitId) -> bool {
    exists|i: int, k: int|
        0 <= i < rooms.len() && 0 <= k < rooms[i].exits.len() && #[trigger] ids[i]@[k] == id
}

// ===== The writes =====

/// Whether all writes add exits and connections at most.
pub open spec fn all_add(ops: Seq<OpView>) -> bool {
    forall|i: int| 0 <= i < ops.len() ==> unpasting::only_adds(#[trigger] ops[i])
}

/// New writes after new writes that create other exits are new.
proof fn lemma_both_new(held: Links, a: Seq<OpView>, b: Seq<OpView>)
    requires
        unpasting::are_new(held, a),
        unpasting::are_new(held, b),
        forall|i: int, j: int|
            #![trigger a[i], b[j]]
            0 <= i < a.len() && 0 <= j < b.len() && unpasting::exit_of(a[i]) is Some
                ==> unpasting::exit_of(a[i]) != unpasting::exit_of(b[j]),
    ensures
        unpasting::are_new(held, a + b),
{
    let all = a + b;
    assert forall|i: int|
        #![trigger all[i]]
        0 <= i < all.len() implies (unpasting::exit_of(all[i]) matches Some(id)
            ==> !held.exits.dom().contains(id)) && (unpasting::connection_of(all[i]) matches Some(id)
            ==> !wiring::is_used(held, id)) by {
        if i < a.len() {
            assert(all[i] == a[i]);
        } else {
            assert(all[i] == b[i - a.len()]);
        }
    }
    assert forall|i: int, j: int|
        #![trigger all[i], all[j]]
        0 <= i < j < all.len() && unpasting::exit_of(all[i]) is Some implies unpasting::exit_of(all[i])
        != unpasting::exit_of(all[j]) by {
        if j < a.len() {
            assert(all[i] == a[i] && all[j] == a[j]);
        } else if i >= a.len() {
            assert(all[i] == b[i - a.len()] && all[j] == b[j - a.len()]);
        } else {
            assert(all[i] == a[i] && all[j] == b[j - a.len()]);
        }
    }
}

/// The writes that paste one connection.
proof fn lemma_connection_new(
    held: Links,
    context: PasteContext,
    clip: ConnectionClipView,
    id: ConnectionId,
    ids: Seq<ExitId>,
    route: Seq<Point>,
)
    requires
        !wiring::is_used(held, id),
        forall|k: int| 0 <= k < clip.members.len() ==> !held.exits.dom().contains(#[trigger] ids[k]),
        forall|k: int, l: int|
            0 <= k < l < clip.members.len() ==> #[trigger] ids[k] != #[trigger] ids[l],
    ensures
        ({
            let ops = paste::connection_writes(context, clip, id, ids, route);
            &&& unpasting::are_new(held, ops)
            &&& all_add(ops)
            &&& ops.contains(
                AreaMutation::CreateConnection {
                    body: paste::pasted_connection(context, clip, id, route),
                },
            )
            &&& forall|k: int|
                #![trigger ids[k]]
                0 <= k < clip.members.len() ==> ops.contains(
                    paste::member_write(context, clip.members[k], ids[k], id),
                )
            &&& forall|p: int|
                #![trigger ops[p]]
                0 <= p < ops.len() ==> (unpasting::exit_of(ops[p]) is Some ==> exists|k: int|
                    0 <= k < clip.members.len() && unpasting::exit_of(ops[p]) == Some(
                        #[trigger] ids[k],
                    )) && (unpasting::connection_of(ops[p]) is Some ==> ops[p]
                    == (AreaMutation::CreateConnection {
                    body: paste::pasted_connection(context, clip, id, route),
                }))
        }),
{
    let ops = paste::connection_writes(context, clip, id, ids, route);
    let tail = paste::member_writes(context, clip.members, ids, id);
    let head = AreaMutation::CreateConnection {
        body: paste::pasted_connection(context, clip, id, route),
    };
    assert(ops[0] == head);
    assert forall|p: int| 0 < p < ops.len() implies #[trigger] ops[p] == paste::member_write(
        context,
        clip.members[p - 1],
        ids[p - 1],
        id,
    ) by {
        assert(ops[p] == tail[p - 1]);
    }
    assert forall|k: int|
        #![trigger ids[k]]
        0 <= k < clip.members.len() implies ops.contains(
        paste::member_write(context, clip.members[k], ids[k], id),
    ) by {
        assert(ops[k + 1] == paste::member_write(context, clip.members[k], ids[k], id));
    }
    assert forall|p: int|
        #![trigger ops[p]]
        0 <= p < ops.len() implies (unpasting::exit_of(ops[p]) is Some ==> exists|k: int|
        0 <= k < clip.members.len() && unpasting::exit_of(ops[p]) == Some(#[trigger] ids[k])) && (
    unpasting::connection_of(ops[p]) is Some ==> ops[p] == (AreaMutation::CreateConnection {
        body: paste::pasted_connection(context, clip, id, route),
    })) by {
        if p > 0 {
            assert(unpasting::exit_of(ops[p]) == Some(ids[p - 1]));
        }
    }
    assert forall|i: int, j: int|
        #![trigger ops[i], ops[j]]
        0 <= i < j < ops.len() && unpasting::exit_of(ops[i]) is Some implies unpasting::exit_of(ops[i])
        != unpasting::exit_of(ops[j]) by {
        assert(ids[i - 1] != ids[j - 1]);
    }
}

/// Whether a write is one that pastes one of the given connections.
pub open spec fn creates_one(
    op: OpView,
    context: PasteContext,
    clips: Seq<ConnectionClipView>,
    ids: PasteIds,
    routes: Seq<Vec<Point>>,
) -> bool {
    exists|i: int|
        0 <= i < clips.len() && #[trigger] makes_connection(op, context, clips[i], ids.connections@[i], routes[i]@)
}

/// Whether a write is the one that pastes a connection.
pub open spec fn makes_connection(
    op: OpView,
    context: PasteContext,
    clip: ConnectionClipView,
    id: ConnectionId,
    route: Seq<Point>,
) -> bool {
    op == (AreaMutation::CreateConnection { body: paste::pasted_connection(context, clip, id, route) })
}

/// Whether a write creates an exit of a connection that can be pasted.
pub open spec fn pastes_member(
    op: OpView,
    context: PasteContext,
    clips: Seq<ConnectionClipView>,
    ids: Seq<Vec<ExitId>>,
) -> bool {
    exists|i: int, k: int|
        0 <= i < clips.len() && 0 <= k < clips[i].members.len() && paste::connection_fits(context, clips[i])
            && unpasting::exit_of(op) == Some(#[trigger] ids[i]@[k])
}

/// The writes that paste connections.
#[verifier::rlimit(40)]
#[verifier::spinoff_prover]
proof fn lemma_connections_new(
    held: Links,
    context: PasteContext,
    clips: Seq<ConnectionClipView>,
    ids: PasteIds,
    routes: Seq<Vec<Point>>,
)
    requires
        members_are_new(held, clips, ids.members@),
        connections_are_new(held, clips.len(), ids.connections@),
    ensures
        ({
            let ops = paste::connections_paste(context, clips, ids, routes).writes;
            &&& unpasting::are_new(held, ops)
            &&& all_add(ops)
            &&& forall|i: int|
                #![trigger clips[i]]
                0 <= i < clips.len() && paste::connection_fits(context, clips[i]) ==> ops.contains(
                    AreaMutation::CreateConnection {
                        body: paste::pasted_connection(
                            context,
                            clips[i],
                            ids.connections@[i],
                            routes[i]@,
                        ),
                    },
                )
            &&& forall|i: int, k: int|
                #![trigger ids.members@[i]@[k]]
                0 <= i < clips.len() && 0 <= k < clips[i].members.len() && paste::connection_fits(
                    context,
                    clips[i],
                ) ==> ops.contains(
                    paste::member_write(
                        context,
                        clips[i].members[k],
                        ids.members@[i]@[k],
                        ids.connections@[i],
                    ),
                )
            &&& forall|p: int|
                #![trigger ops[p]]
                0 <= p < ops.len() ==> (unpasting::exit_of(ops[p]) is Some ==> pastes_member(
                    ops[p],
                    context,
                    clips,
                    ids.members@,
                )) && (unpasting::connection_of(ops[p]) is Some ==> creates_one(
                    ops[p],
                    context,
                    clips,
                    ids,
                    routes,
                ))
        }),
    decreases clips.len(),
{
    let ops = paste::connections_paste(context, clips, ids, routes).writes;
    if clips.len() > 0 {
        let rest = clips.drop_last();
        let at = clips.len() - 1;
        let clip = clips[at];
        assert forall|i: int| 0 <= i < rest.len() implies #[trigger] rest[i] == clips[i] by {}
        lemma_connections_new(held, context, rest, ids, routes);
        let early = paste::connections_paste(context, rest, ids, routes).writes;
        let id = ids.connections@[at];
        let late = if paste::connection_fits(context, clip) {
            paste::connection_writes(context, clip, id, ids.members@[at]@, routes[at]@)
        } else {
            Seq::empty()
        };
        assert(ops =~= early + late);
        assert forall|k: int, l: int|
            0 <= k < l < clip.members.len() implies #[trigger] ids.members@[at]@[k] != #[trigger] ids.members@[at]@[l] by {}
        assert forall|p: int|
            #![trigger early[p]]
            0 <= p < early.len() implies (unpasting::exit_of(early[p]) is Some ==> pastes_member(
            early[p],
            context,
            clips,
            ids.members@,
        ) && !is_own_id(clip, ids.members@[at]@, unpasting::exit_of(early[p])->0)) && (
        unpasting::connection_of(early[p]) is Some ==> creates_one(
            early[p],
            context,
            clips,
            ids,
            routes,
        )) by {
            if unpasting::exit_of(early[p]) is Some {
                let (i, k) = choose|i: int, k: int|
                    0 <= i < rest.len() && 0 <= k < rest[i].members.len() && paste::connection_fits(
                        context,
                        rest[i],
                    ) && unpasting::exit_of(early[p]) == Some(#[trigger] ids.members@[i]@[k]);
                assert(rest[i] == clips[i]);
                assert(unpasting::exit_of(early[p]) == Some(ids.members@[i]@[k]));
            }
            if unpasting::connection_of(early[p]) is Some {
                let i = choose|i: int|
                    0 <= i < rest.len() && #[trigger] makes_connection(
                        early[p],
                        context,
                        rest[i],
                        ids.connections@[i],
                        routes[i]@,
                    );
                assert(rest[i] == clips[i]);
                assert(makes_connection(early[p], context, clips[i], ids.connections@[i], routes[i]@));
            }
        }
        assert forall|i: int|
            #![trigger clips[i]]
            0 <= i < clips.len() - 1 && paste::connection_fits(context, clips[i]) implies early.contains(
            AreaMutation::CreateConnection {
                body: paste::pasted_connection(context, clips[i], ids.connections@[i], routes[i]@),
            },
        ) by {
            assert(rest[i] == clips[i]);
        }
        lemma_connections_step(held, context, clips, ids, routes, early, late);
    }
}

/// Whether an identity is one of those for the exits of a connection.
pub open spec fn is_own_id(clip: ConnectionClipView, ids: Seq<ExitId>, id: ExitId) -> bool {
    exists|k: int| 0 <= k < clip.members.len() && #[trigger] ids[k] == id
}

/// The writes that paste connections, one more.
#[verifier::rlimit(40)]
#[verifier::spinoff_prover]
proof fn lemma_connections_step(
    held: Links,
    context: PasteContext,
    clips: Seq<ConnectionClipView>,
    ids: PasteIds,
    routes: Seq<Vec<Point>>,
    early: Seq<OpView>,
    late: Seq<OpView>,
)
    requires
        clips.len() > 0,
        members_are_new(held, clips, ids.members@),
        connections_are_new(held, clips.len(), ids.connections@),
        unpasting::are_new(held, early),
        all_add(early),
        ({
            let at = clips.len() - 1;
            late == if paste::connection_fits(context, clips[at]) {
                paste::connection_writes(
                    context,
                    clips[at],
                    ids.connections@[at],
                    ids.members@[at]@,
                    routes[at]@,
                )
            } else {
                Seq::empty()
            }
        }),
        forall|i: int|
            #![trigger clips[i]]
            0 <= i < clips.len() - 1 && paste::connection_fits(context, clips[i]) ==> early.contains(
                AreaMutation::CreateConnection {
                    body: paste::pasted_connection(context, clips[i], ids.connections@[i], routes[i]@),
                },
            ),
        forall|i: int, k: int|
            #![trigger ids.members@[i]@[k]]
            0 <= i < clips.len() - 1 && 0 <= k < clips[i].members.len() && paste::connection_fits(
                context,
                clips[i],
            ) ==> early.contains(
                paste::member_write(
                    context,
                    clips[i].members[k],
                    ids.members@[i]@[k],
                    ids.connections@[i],
                ),
            ),
        forall|p: int|
            #![trigger early[p]]
            0 <= p < early.len() ==> (unpasting::exit_of(early[p]) is Some ==> pastes_member(
                early[p],
                context,
                clips,
                ids.members@,
            ) && !is_own_id(
                clips[clips.len() - 1],
                ids.members@[clips.len() - 1]@,
                unpasting::exit_of(early[p])->0,
            )) && (unpasting::connection_of(early[p]) is Some ==> creates_one(
                early[p],
                context,
                clips,
                ids,
                routes,
            )),
    ensures
        ({
            let ops = early + late;
            &&& unpasting::are_new(held, ops)
            &&& all_add(ops)
            &&& forall|i: int|
                #![trigger clips[i]]
                0 <= i < clips.len() && paste::connection_fits(context, clips[i]) ==> ops.contains(
                    AreaMutation::CreateConnection {
                        body: paste::pasted_connection(
                            context,
                            clips[i],
                            ids.connections@[i],
                            routes[i]@,
                        ),
                    },
                )
            &&& forall|i: int, k: int|
                #![trigger ids.members@[i]@[k]]
                0 <= i < clips.len() && 0 <= k < clips[i].members.len() && paste::connection_fits(
                    context,
                    clips[i],
                ) ==> ops.contains(
                    paste::member_write(
                        context,
                        clips[i].members[k],
                        ids.members@[i]@[k],
                        ids.connections@[i],
                    ),
                )
            &&& forall|p: int|
                #![trigger ops[p]]
                0 <= p < ops.len() ==> (unpasting::exit_of(ops[p]) is Some ==> pastes_member(
                    ops[p],
                    context,
                    clips,
                    ids.members@,
                )) && (unpasting::connection_of(ops[p]) is Some ==> creates_one(
                    ops[p],
                    context,
                    clips,
                    ids,
                    routes,
                ))
        }),
{
    let ops = early + late;
    let at = clips.len() - 1;
    let clip = clips[at];
    let id = ids.connections@[at];
    let mine = ids.members@[at]@;
    assert forall|op: OpView| #[trigger] early.contains(op) implies ops.contains(op) by {
        let p = choose|p: int| 0 <= p < early.len() && early[p] == op;
        assert(ops[p] == op);
    }
    assert forall|op: OpView| #[trigger] late.contains(op) implies ops.contains(op) by {
        let p = choose|p: int| 0 <= p < late.len() && late[p] == op;
        assert(ops[early.len() + p] == op);
    }
    if paste::connection_fits(context, clip) {
        lemma_connection_new(held, context, clip, id, mine, routes[at]@);
        assert forall|i: int, j: int|
            #![trigger early[i], late[j]]
            0 <= i < early.len() && 0 <= j < late.len() && unpasting::exit_of(early[i]) is Some implies unpasting::exit_of(
            early[i],
        ) != unpasting::exit_of(late[j]) by {
            if unpasting::exit_of(late[j]) is Some {
                assert(is_own_id(clip, mine, unpasting::exit_of(late[j])->0));
            }
        }
        assert forall|p: int|
            #![trigger late[p]]
            0 <= p < late.len() implies (unpasting::exit_of(late[p]) is Some ==> pastes_member(
            late[p],
            context,
            clips,
            ids.members@,
        )) && (unpasting::connection_of(late[p]) is Some ==> creates_one(
            late[p],
            context,
            clips,
            ids,
            routes,
        )) by {
            if unpasting::exit_of(late[p]) is Some {
                let k = choose|k: int|
                    0 <= k < clip.members.len() && unpasting::exit_of(late[p]) == Some(#[trigger] mine[k]);
                assert(unpasting::exit_of(late[p]) == Some(ids.members@[at]@[k]));
            }
            if unpasting::connection_of(late[p]) is Some {
                assert(makes_connection(late[p], context, clips[at], ids.connections@[at], routes[at]@));
            }
        }
        lemma_both_new(held, early, late);
    } else {
        assert(ops =~= early);
    }
    assert forall|p: int|
        #![trigger ops[p]]
        0 <= p < ops.len() implies unpasting::only_adds(ops[p]) && (unpasting::exit_of(ops[p]) is Some
            ==> pastes_member(ops[p], context, clips, ids.members@)) && (unpasting::connection_of(ops[p]) is Some
            ==> creates_one(ops[p], context, clips, ids, routes)) by {
        if p < early.len() {
            assert(ops[p] == early[p]);
        } else {
            assert(ops[p] == late[p - early.len()]);
        }
    }
}

/// The writes that paste the exits copied with rooms.
#[verifier::rlimit(40)]
#[verifier::spinoff_prover]
proof fn lemma_room_exits_new(
    held: Links,
    context: PasteContext,
    rooms: Seq<RoomClipView>,
    ids: Seq<Vec<ExitId>>,
)
    requires
        room_exits_are_new(held, rooms, ids),
    ensures
        ({
            let ops = paste::rooms_exit_writes(context, rooms, ids);
            &&& unpasting::are_new(held, ops)
            &&& all_add(ops)
            &&& forall|i: int, k: int|
                #![trigger ids[i]@[k]]
                0 <= i < rooms.len() && 0 <= k < rooms[i].exits.len() ==> ops.contains(
                    paste::room_exit_write(
                        context,
                        paste::pasted_number(context, rooms[i]),
                        rooms[i].exits[k],
                        ids[i]@[k],
                    ),
                )
            &&& forall|p: int|
                #![trigger ops[p]]
                0 <= p < ops.len() ==> unpasting::exit_of(ops[p]) is Some && is_room_exit_id(
                    rooms,
                    ids,
                    unpasting::exit_of(ops[p])->0,
                ) && unpasting::connection_of(ops[p]) is None
        }),
    decreases rooms.len(),
{
    let ops = paste::rooms_exit_writes(context, rooms, ids);
    if rooms.len() > 0 {
        let rest = rooms.drop_last();
        let at = rooms.len() - 1;
        let room = rooms[at];
        let mine = ids[at]@;
        assert forall|i: int| 0 <= i < rest.len() implies #[trigger] rest[i] == rooms[i] by {}
        lemma_room_exits_new(held, context, rest, ids);
        let early = paste::rooms_exit_writes(context, rest, ids);
        let late = paste::room_exit_writes(context, room, mine);
        assert(ops =~= early + late);
        assert forall|p: int| 0 <= p < late.len() implies unpasting::exit_of(#[trigger] late[p]) == Some(
            mine[p],
        ) by {}
        assert forall|p: int|
            #![trigger early[p]]
            0 <= p < early.len() implies is_room_exit_id(rooms, ids, unpasting::exit_of(early[p])->0)
            && forall|k: int|
            0 <= k < room.exits.len() ==> #[trigger] ids[at]@[k] != unpasting::exit_of(early[p])->0 by {
            let (i, k) = choose|i: int, k: int|
                0 <= i < rest.len() && 0 <= k < rest[i].exits.len() && #[trigger] ids[i]@[k]
                    == unpasting::exit_of(early[p])->0;
            assert(rest[i] == rooms[i]);
            assert(ids[i]@[k] == unpasting::exit_of(early[p])->0);
        }
        assert forall|i: int, j: int|
            #![trigger early[i], late[j]]
            0 <= i < early.len() && 0 <= j < late.len() && unpasting::exit_of(early[i]) is Some implies unpasting::exit_of(
            early[i],
        ) != unpasting::exit_of(late[j]) by {
            assert(ids[at]@[j] == mine[j]);
        }
        assert(unpasting::are_new(held, late)) by {
            assert forall|i: int| 0 <= i < late.len() implies !held.exits.dom().contains(
                #[trigger] mine[i],
            ) by {
                assert(!held.exits.dom().contains(ids[at]@[i]));
            }
            assert forall|i: int, j: int|
                #![trigger late[i], late[j]]
                0 <= i < j < late.len() implies unpasting::exit_of(late[i]) != unpasting::exit_of(late[j]) by {
                assert(ids[at]@[i] != ids[at]@[j]);
            }
        }
        lemma_both_new(held, early, late);
        assert forall|p: int|
            #![trigger ops[p]]
            0 <= p < ops.len() implies unpasting::only_adds(ops[p]) && unpasting::exit_of(ops[p]) is Some
            && is_room_exit_id(rooms, ids, unpasting::exit_of(ops[p])->0) && unpasting::connection_of(
            ops[p],
        ) is None by {
            if p < early.len() {
                assert(ops[p] == early[p]);
            } else {
                let k = p - early.len();
                assert(ops[p] == late[k]);
                assert(ids[at]@[k] == unpasting::exit_of(ops[p])->0);
            }
        }
        assert forall|i: int, k: int|
            #![trigger ids[i]@[k]]
            0 <= i < rooms.len() && 0 <= k < rooms[i].exits.len() implies ops.contains(
            paste::room_exit_write(
                context,
                paste::pasted_number(context, rooms[i]),
                rooms[i].exits[k],
                ids[i]@[k],
            ),
        ) by {
            let op = paste::room_exit_write(
                context,
                paste::pasted_number(context, rooms[i]),
                rooms[i].exits[k],
                ids[i]@[k],
            );
            if i < at {
                assert(rest[i] == rooms[i]);
                let p = choose|p: int| 0 <= p < early.len() && early[p] == op;
                assert(ops[p] == op);
            } else {
                assert(late[k] == op);
                assert(ops[early.len() + k] == op);
            }
        }
    }
}

/// The connections that writes create once each are there afterwards.
proof fn lemma_connections_added(held: Links, area_id: AreaId, ops: Seq<OpView>)
    requires
        all_add(ops),
        forall|i: int, j: int|
            #![trigger ops[i], ops[j]]
            0 <= i < j < ops.len() && unpasting::connection_of(ops[i]) is Some
                ==> unpasting::connection_of(ops[i]) != unpasting::connection_of(ops[j]),
    ensures
        ({
            let after = wiring::all_links_written(held, area_id, ops);
            forall|p: int|
                #![trigger ops[p]]
                0 <= p < ops.len() ==> match ops[p] {
                    AreaMutation::CreateConnection { body } => after.connections.dom().contains(body.id)
                        && after.connections[body.id] == body,
                    _ => true,
                }
        }),
    decreases ops.len(),
{
    if ops.len() > 0 {
        let rest = ops.drop_last();
        let at = ops.len() - 1;
        assert forall|i: int| 0 <= i < rest.len() implies #[trigger] rest[i] == ops[i] by {}
        assert forall|i: int| 0 <= i < rest.len() implies unpasting::only_adds(#[trigger] rest[i]) by {
            assert(rest[i] == ops[i]);
        }
        lemma_connections_added(held, area_id, rest);
        let middle = wiring::all_links_written(held, area_id, rest);
        let after = wiring::all_links_written(held, area_id, ops);
        assert(after == wiring::links_written(middle, area_id, ops[at]));
        assert(unpasting::only_adds(ops[at]));
        assert forall|p: int|
            #![trigger ops[p]]
            0 <= p < ops.len() implies match ops[p] {
            AreaMutation::CreateConnection { body } => after.connections.dom().contains(body.id)
                && after.connections[body.id] == body,
            _ => true,
        } by {
            if p < at {
                assert(rest[p] == ops[p]);
                if let AreaMutation::CreateConnection { body } = ops[p] {
                    assert(unpasting::connection_of(ops[p]) == Some(body.id));
                    assert(unpasting::connection_of(ops[p]) != unpasting::connection_of(ops[at]));
                }
            }
        }
    }
}

/// The connections that a paste creates are told apart.
proof fn lemma_connections_distinct(
    context: PasteContext,
    clips: Seq<ConnectionClipView>,
    ids: PasteIds,
    routes: Seq<Vec<Point>>,
)
    requires
        forall|i: int, j: int|
            0 <= i < j < clips.len() ==> #[trigger] ids.connections@[i] != #[trigger] ids.connections@[j],
    ensures
        ({
            let ops = paste::connections_paste(context, clips, ids, routes).writes;
            &&& forall|i: int, j: int|
                #![trigger ops[i], ops[j]]
                0 <= i < j < ops.len() && unpasting::connection_of(ops[i]) is Some
                    ==> unpasting::connection_of(ops[i]) != unpasting::connection_of(ops[j])
            &&& forall|p: int|
                #![trigger ops[p]]
                0 <= p < ops.len() && unpasting::connection_of(ops[p]) is Some ==> exists|j: int|
                    0 <= j < clips.len() && unpasting::connection_of(ops[p]) == Some(
                        #[trigger] ids.connections@[j],
                    )
        }),
    decreases clips.len(),
{
    let ops = paste::connections_paste(context, clips, ids, routes).writes;
    if clips.len() > 0 {
        let rest = clips.drop_last();
        let at = clips.len() - 1;
        let clip = clips[at];
        lemma_connections_distinct(context, rest, ids, routes);
        let early = paste::connections_paste(context, rest, ids, routes).writes;
        let id = ids.connections@[at];
        let late = if paste::connection_fits(context, clip) {
            paste::connection_writes(context, clip, id, ids.members@[at]@, routes[at]@)
        } else {
            Seq::empty()
        };
        assert(ops =~= early + late);
        let tail = paste::member_writes(context, clip.members, ids.members@[at]@, id);
        assert forall|p: int| 0 < p < late.len() implies unpasting::connection_of(#[trigger] late[p]) is None by {
            assert(late[p] == tail[p - 1]);
        }
        assert(late.len() > 0 ==> unpasting::connection_of(late[0]) == Some(id));
        assert forall|p: int|
            #![trigger ops[p]]
            0 <= p < ops.len() && unpasting::connection_of(ops[p]) is Some implies exists|j: int|
            0 <= j < clips.len() && unpasting::connection_of(ops[p]) == Some(
                #[trigger] ids.connections@[j],
            ) by {
            if p < early.len() {
                assert(ops[p] == early[p]);
            } else {
                assert(ops[p] == late[p - early.len()]);
                assert(unpasting::connection_of(ops[p]) == Some(ids.connections@[at]));
            }
        }
        assert forall|i: int, j: int|
            #![trigger ops[i], ops[j]]
            0 <= i < j < ops.len() && unpasting::connection_of(ops[i]) is Some implies unpasting::connection_of(
            ops[i],
        ) != unpasting::connection_of(ops[j]) by {
            if j < early.len() {
                assert(ops[i] == early[i] && ops[j] == early[j]);
            } else {
                assert(ops[j] == late[j - early.len()]);
                if i < early.len() {
                    assert(ops[i] == early[i]);
                    let k = choose|k: int|
                        0 <= k < rest.len() && unpasting::connection_of(early[i]) == Some(
                            #[trigger] ids.connections@[k],
                        );
                    assert(ids.connections@[k] != ids.connections@[at]);
                } else {
                    assert(ops[i] == late[i - early.len()]);
                }
            }
        }
    }
}

// ===== The paste as a whole =====

/// Whether a paste is made as its context says.
spec fn agrees(context: PasteContext, pasting: Pasting) -> bool {
    &&& context.atlas == pasting.atlas
    &&& context.area == pasting.area
    &&& context.target_area_id == pasting.target
    &&& context.source_area_id == pasting.source()
    &&& context.cleared == pasting.cleared()
    &&& forall|number: RoomNumber|
        #![trigger paste::resolved_room(context, number)]
        #![trigger pasting.room(number)]
        paste::resolved_room(context, number) == pasting.room(number)
    &&& forall|number: RoomNumber|
        #![trigger paste::mapped(context.mapping, number)]
        #![trigger is_copied(pasting.clipboard.rooms, number)]
        paste::mapped(context.mapping, number) is Some == is_copied(pasting.clipboard.rooms, number) && (
        is_copied(pasting.clipboard.rooms, number) ==> paste::mapped(context.mapping, number)
            == pasting.room(number))
}

/// A copied exit of a connection that is pasted is walked alike and leads alike.
proof fn lemma_member(
    context: PasteContext,
    pasting: Pasting,
    member: (RoomNumber, ExitClip<Seq<char>>),
    id: ExitId,
    connection_id: ConnectionId,
    entry: ExitEntry,
)
    requires
        agrees(context, pasting),
        pasting.room(member.0) is Some,
        unpasting::is_made_by(
            paste::member_write(context, member, id, connection_id),
            context.target_area_id,
            id,
            entry,
        ),
    ensures
        pasting.is_member(entry, member, id, connection_id),
{
    let to = paste::member_destination(context, member.1);
    assert(paste::resolved_room(context, member.0) == pasting.room(member.0));
    if let Some(number) = member.1.to_room_number {
        assert(paste::resolved_room(context, number) == pasting.room(number));
    }
}

/// An exit copied with its room that is pasted is walked alike and leads alike.
proof fn lemma_room_exit(
    context: PasteContext,
    pasting: Pasting,
    room: RoomClipView,
    clip: ExitClip<Seq<char>>,
    id: ExitId,
    entry: ExitEntry,
)
    requires
        agrees(context, pasting),
        is_copied(pasting.clipboard.rooms, room.room_number),
        unpasting::is_made_by(
            paste::room_exit_write(context, paste::pasted_number(context, room), clip, id),
            context.target_area_id,
            id,
            entry,
        ),
    ensures
        pasting.is_room_exit(entry, room, clip, id),
{
    assert(paste::mapped(context.mapping, room.room_number) == pasting.room(room.room_number));
    if let Some(number) = clip.to_room_number {
        assert(paste::mapped(context.mapping, number) is Some == is_copied(
            pasting.clipboard.rooms,
            number,
        ));
    }
}

/// A copied connection is pasted when it finds a place.
proof fn lemma_finds_place(context: PasteContext, pasting: Pasting, clip: ConnectionClipView)
    requires
        agrees(context, pasting),
    ensures
        paste::connection_fits(context, clip) == pasting.finds_place(clip),
        paste::on_existing_room(context, clip) == !pasting.comes_with_rooms(clip),
{
    let a = clip.body.endpoint_a.room_number;
    assert(paste::resolved_room(context, a) == pasting.room(a));
    assert(paste::mapped(context.mapping, a) is Some == is_copied(pasting.clipboard.rooms, a));
    if let Some(end) = clip.body.endpoint_b {
        assert(paste::resolved_room(context, end.room_number) == pasting.room(end.room_number));
        assert(paste::mapped(context.mapping, end.room_number) is Some == is_copied(
            pasting.clipboard.rooms,
            end.room_number,
        ));
    }
    assert forall|k: int|
        #![trigger clip.members[k]]
        0 <= k < clip.members.len() implies paste::member_fits(context, clip.members[k]) == (
    pasting.room(clip.members[k].0) is Some && pasting.is_free(clip.members[k])) by {
        let member = clip.members[k];
        assert(paste::resolved_room(context, member.0) == pasting.room(member.0));
        assert(paste::mapped(context.mapping, member.0) is Some == is_copied(
            pasting.clipboard.rooms,
            member.0,
        ));
        if !is_copied(pasting.clipboard.rooms, member.0) && pasting.room(member.0) is Some {
            let exits = pasting.area.room(member.0)->0.exits@;
            if paste::direction_taken(context.area, member.0, member.1.from_direction) {
                let i = choose|i: int|
                    0 <= i < exits.len() && (#[trigger] exits[i]).from_direction
                        == member.1.from_direction;
                assert(exits[i].from_direction == member.1.from_direction);
            }
        }
    }
}

/// A pasted connection looks like the copied one, between the counterparts of its rooms.
proof fn lemma_connection(
    context: PasteContext,
    pasting: Pasting,
    clip: ConnectionClipView,
    id: ConnectionId,
    route: Seq<Point>,
)
    requires
        agrees(context, pasting),
        pasting.finds_place(clip),
    ensures
        pasting.is_connection(paste::pasted_connection(context, clip, id, route), clip, id, route),
{
    lemma_finds_place(context, pasting, clip);
    let a = clip.body.endpoint_a.room_number;
    assert(paste::resolved_room(context, a) == pasting.room(a));
    if let Some(end) = clip.body.endpoint_b {
        assert(paste::resolved_room(context, end.room_number) == pasting.room(end.room_number));
    }
}

/// Whether an exit was pasted with a connection.
pub open spec fn came_with_connection(pasting: Pasting, ids: Seq<Vec<ExitId>>, id: ExitId) -> bool {
    exists|i: int, k: int|
        0 <= i < pasting.clipboard.connections.len() && 0 <= k
            < pasting.clipboard.connections[i].members.len() && pasting.finds_place(
            pasting.clipboard.connections[i],
        ) && #[trigger] ids[i]@[k] == id
}

/// Whether a connection was pasted.
pub open spec fn is_pasted_connection(pasting: Pasting, ids: Seq<ConnectionId>, id: ConnectionId) -> bool {
    exists|i: int|
        0 <= i < pasting.clipboard.connections.len() && pasting.finds_place(
            pasting.clipboard.connections[i],
        ) && #[trigger] ids[i] == id
}

/// Whether exits and connections are those that were there and the pasted ones: of every
/// copied connection that finds a place the connection and its exits, the exits that were
/// copied with rooms, and no others.
pub open spec fn are_links_pasted(
    after: Links,
    before: Links,
    pasting: Pasting,
    ids: PasteIds,
    routes: Seq<Vec<Point>>,
) -> bool {
    let clips = pasting.clipboard.connections;
    let rooms = pasting.clipboard.rooms;
    &&& unpasting::hold_all(after, before)
    &&& forall|i: int, k: int|
        #![trigger ids.members@[i]@[k]]
        0 <= i < clips.len() && 0 <= k < clips[i].members.len() && pasting.finds_place(clips[i])
            ==> after.exits.dom().contains(ids.members@[i]@[k]) && pasting.is_member(
            after.exits[ids.members@[i]@[k]],
            clips[i].members[k],
            ids.members@[i]@[k],
            ids.connections@[i],
        )
    &&& forall|i: int|
        #![trigger clips[i]]
        0 <= i < clips.len() && pasting.finds_place(clips[i]) ==> after.connections.dom().contains(
            ids.connections@[i],
        ) && pasting.is_connection(
            after.connections[ids.connections@[i]],
            clips[i],
            ids.connections@[i],
            routes[i]@,
        )
    &&& forall|i: int, k: int|
        #![trigger ids.room_exits@[i]@[k]]
        0 <= i < rooms.len() && 0 <= k < rooms[i].exits.len() ==> after.exits.dom().contains(
            ids.room_exits@[i]@[k],
        ) && pasting.is_room_exit(
            after.exits[ids.room_exits@[i]@[k]],
            rooms[i],
            rooms[i].exits[k],
            ids.room_exits@[i]@[k],
        )
    &&& forall|id: ExitId|
        #![trigger after.exits.dom().contains(id)]
        after.exits.dom().contains(id) && !before.exits.dom().contains(id) ==> came_with_connection(
            pasting,
            ids.members@,
            id,
        ) || is_room_exit_id(rooms, ids.room_exits@, id)
    &&& forall|id: ConnectionId|
        #![trigger after.connections.dom().contains(id)]
        after.connections.dom().contains(id) && !before.connections.dom().contains(id)
            ==> is_pasted_connection(pasting, ids.connections@, id) || wiring::is_carried(
            after.exits,
            id,
        )
}

/// What a paste is made from, given what it comes to.
pub open spec fn pasting_of(
    atlas: AtlasCache,
    area_id: AreaId,
    clipboard: ClipboardView,
    paste: PasteView,
) -> Pasting {
    Pasting {
        atlas,
        area: atlas.area(area_id)->0,
        target: area_id,
        clipboard,
        numbers: paste.rooms,
    }
}

/// The writes that paste rooms create no exits or connections.
proof fn lemma_rooms_keep(context: PasteContext, rooms: Seq<RoomClipView>, points: Seq<Point>)
    ensures
        ({
            let ops = paste::rooms_writes(context, rooms, points);
            forall|i: int|
                #![trigger ops[i]]
                0 <= i < ops.len() ==> wiring::keeps_links(ops[i]) && unpasting::exit_of(ops[i]) is None
                    && unpasting::connection_of(ops[i]) is None
        }),
    decreases rooms.len(),
{
    if rooms.len() > 0 {
        lemma_rooms_keep(context, rooms.drop_last(), points);
        let early = paste::rooms_writes(context, rooms.drop_last(), points);
        let late = paste::room_writes(context, rooms.last(), points[rooms.len() - 1]);
        let number = paste::pasted_number(context, rooms.last());
        let pairs = rooms.last().properties.map_values(
            |pair: (Seq<char>, Seq<char>)| paste::pasted_property(number, pair),
        );
        let ops = paste::rooms_writes(context, rooms, points);
        assert forall|i: int|
            #![trigger ops[i]]
            0 <= i < ops.len() implies wiring::keeps_links(ops[i]) && unpasting::exit_of(ops[i]) is None
            && unpasting::connection_of(ops[i]) is None by {
            if i < early.len() {
                assert(ops[i] == early[i]);
            } else {
                assert(ops[i] == late[i - early.len()]);
                if i > early.len() {
                    assert(late[i - early.len()] == pairs[i - early.len() - 1]);
                }
            }
        }
    }
}

/// What the writes of a paste add.
#[verifier::rlimit(60)]
#[verifier::spinoff_prover]
proof fn lemma_paste_adds(
    held: Links,
    context: PasteContext,
    clipboard: ClipboardView,
    points: PastePoints,
    ids: PasteIds,
)
    requires
        are_unused(ids, clipboard, held),
    ensures
        ({
            let ops = paste::paste_writes(context, clipboard, points, ids);
            let exits = paste::rooms_exit_writes(context, clipboard.rooms, ids.room_exits@);
            let links = paste::connections_paste(context, clipboard.connections, ids, points.routes@).writes;
            &&& unpasting::are_new(held, ops)
            &&& all_add(ops)
            &&& forall|op: OpView| #[trigger] exits.contains(op) ==> ops.contains(op)
            &&& forall|op: OpView| #[trigger] links.contains(op) ==> ops.contains(op)
            &&& forall|p: int|
                #![trigger ops[p]]
                0 <= p < ops.len() ==> (unpasting::exit_of(ops[p]) is Some ==> exits.contains(ops[p])
                    || links.contains(ops[p])) && (unpasting::connection_of(ops[p]) is Some
                    ==> links.contains(ops[p]))
            &&& forall|i: int, j: int|
                #![trigger ops[i], ops[j]]
                0 <= i < j < ops.len() && unpasting::connection_of(ops[i]) is Some
                    ==> unpasting::connection_of(ops[i]) != unpasting::connection_of(ops[j])
        }),
{
    let ops = paste::paste_writes(context, clipboard, points, ids);
    let a = paste::rooms_writes(context, clipboard.rooms, points.rooms@);
    let b = paste::rooms_exit_writes(context, clipboard.rooms, ids.room_exits@);
    let c = paste::connections_paste(context, clipboard.connections, ids, points.routes@).writes;
    lemma_rooms_keep(context, clipboard.rooms, points.rooms@);
    lemma_room_exits_new(held, context, clipboard.rooms, ids.room_exits@);
    lemma_connections_new(held, context, clipboard.connections, ids, points.routes@);
    lemma_connections_distinct(context, clipboard.connections, ids, points.routes@);
    assert(ops =~= a + b + c);
    lemma_both_new(held, a, b);
    assert forall|i: int, j: int|
        #![trigger (a + b)[i], c[j]]
        0 <= i < (a + b).len() && 0 <= j < c.len() && unpasting::exit_of((a + b)[i]) is Some implies unpasting::exit_of(
        (a + b)[i],
    ) != unpasting::exit_of(c[j]) by {
        if i < a.len() {
            assert((a + b)[i] == a[i]);
        } else {
            assert((a + b)[i] == b[i - a.len()]);
            let id = unpasting::exit_of(b[i - a.len()])->0;
            if unpasting::exit_of(c[j]) == Some(id) {
                let (r, k) = choose|r: int, k: int|
                    0 <= r < clipboard.rooms.len() && 0 <= k < clipboard.rooms[r].exits.len()
                        && #[trigger] ids.room_exits@[r]@[k] == id;
                let (m, l) = choose|m: int, l: int|
                    0 <= m < clipboard.connections.len() && 0 <= l
                        < clipboard.connections[m].members.len() && paste::connection_fits(
                        context,
                        clipboard.connections[m],
                    ) && unpasting::exit_of(c[j]) == Some(#[trigger] ids.members@[m]@[l]);
                assert(ids.room_exits@[r]@[k] != ids.members@[m]@[l]);
            }
        }
    }
    lemma_both_new(held, a + b, c);
    assert forall|op: OpView| #[trigger] b.contains(op) implies ops.contains(op) by {
        let p = choose|p: int| 0 <= p < b.len() && b[p] == op;
        assert(ops[a.len() + p] == op);
    }
    assert forall|op: OpView| #[trigger] c.contains(op) implies ops.contains(op) by {
        let p = choose|p: int| 0 <= p < c.len() && c[p] == op;
        assert(ops[a.len() + b.len() + p] == op);
    }
    assert forall|p: int|
        #![trigger ops[p]]
        0 <= p < ops.len() implies unpasting::only_adds(ops[p]) && (unpasting::exit_of(ops[p]) is Some
            ==> b.contains(ops[p]) || c.contains(ops[p])) && (unpasting::connection_of(ops[p]) is Some
            ==> c.contains(ops[p])) && (p < a.len() + b.len() ==> unpasting::connection_of(ops[p]) is None) by {
        if p < a.len() {
            assert(ops[p] == a[p]);
        } else if p < a.len() + b.len() {
            assert(ops[p] == b[p - a.len()]);
        } else {
            assert(ops[p] == c[p - a.len() - b.len()]);
        }
    }
    assert forall|i: int, j: int|
        #![trigger ops[i], ops[j]]
        0 <= i < j < ops.len() && unpasting::connection_of(ops[i]) is Some implies unpasting::connection_of(ops[i])
        != unpasting::connection_of(ops[j]) by {
        let n = a.len() + b.len();
        assert(ops[i] == c[i - n] && ops[j] == c[j - n]);
    }
}

/// What the writes of a paste leave of exits and connections.
#[verifier::rlimit(60)]
#[verifier::spinoff_prover]
proof fn lemma_paste_links(
    held: Links,
    context: PasteContext,
    pasting: Pasting,
    points: PastePoints,
    ids: PasteIds,
)
    requires
        agrees(context, pasting),
        are_unused(ids, pasting.clipboard, held),
    ensures
        are_links_pasted(
            wiring::all_links_written(
                held,
                pasting.target,
                paste::paste_writes(context, pasting.clipboard, points, ids),
            ),
            held,
            pasting,
            ids,
            points.routes@,
        ),
{
    let clipboard = pasting.clipboard;
    let clips = clipboard.connections;
    let rooms = clipboard.rooms;
    let routes = points.routes@;
    let ops = paste::paste_writes(context, clipboard, points, ids);
    let exits = paste::rooms_exit_writes(context, rooms, ids.room_exits@);
    let links = paste::connections_paste(context, clips, ids, routes).writes;
    let after = wiring::all_links_written(held, pasting.target, ops);
    lemma_room_exits_new(held, context, rooms, ids.room_exits@);
    lemma_connections_new(held, context, clips, ids, routes);
    lemma_paste_adds(held, context, clipboard, points, ids);
    unpasting::lemma_added(held, pasting.target, ops);
    lemma_connections_added(held, pasting.target, ops);
    assert forall|i: int, k: int|
        #![trigger ids.members@[i]@[k]]
        0 <= i < clips.len() && 0 <= k < clips[i].members.len() && pasting.finds_place(clips[i]) implies after.exits.dom().contains(
        ids.members@[i]@[k],
    ) && pasting.is_member(
        after.exits[ids.members@[i]@[k]],
        clips[i].members[k],
        ids.members@[i]@[k],
        ids.connections@[i],
    ) by {
        let id = ids.members@[i]@[k];
        lemma_finds_place(context, pasting, clips[i]);
        let op = paste::member_write(context, clips[i].members[k], id, ids.connections@[i]);
        assert(links.contains(op));
        let p = choose|p: int| 0 <= p < ops.len() && ops[p] == op;
        assert(unpasting::exit_of(ops[p]) == Some(id));
        lemma_member(context, pasting, clips[i].members[k], id, ids.connections@[i], after.exits[id]);
    }
    assert forall|i: int|
        #![trigger clips[i]]
        0 <= i < clips.len() && pasting.finds_place(clips[i]) implies after.connections.dom().contains(
        ids.connections@[i],
    ) && pasting.is_connection(
        after.connections[ids.connections@[i]],
        clips[i],
        ids.connections@[i],
        routes[i]@,
    ) by {
        lemma_finds_place(context, pasting, clips[i]);
        let body = paste::pasted_connection(context, clips[i], ids.connections@[i], routes[i]@);
        let op: OpView = AreaMutation::CreateConnection { body };
        assert(links.contains(op));
        let p = choose|p: int| 0 <= p < ops.len() && ops[p] == op;
        assert(ops[p] == op);
        lemma_connection(context, pasting, clips[i], ids.connections@[i], routes[i]@);
    }
    assert forall|i: int, k: int|
        #![trigger ids.room_exits@[i]@[k]]
        0 <= i < rooms.len() && 0 <= k < rooms[i].exits.len() implies after.exits.dom().contains(
        ids.room_exits@[i]@[k],
    ) && pasting.is_room_exit(
        after.exits[ids.room_exits@[i]@[k]],
        rooms[i],
        rooms[i].exits[k],
        ids.room_exits@[i]@[k],
    ) by {
        let id = ids.room_exits@[i]@[k];
        let op = paste::room_exit_write(
            context,
            paste::pasted_number(context, rooms[i]),
            rooms[i].exits[k],
            id,
        );
        assert(exits.contains(op));
        let p = choose|p: int| 0 <= p < ops.len() && ops[p] == op;
        assert(unpasting::exit_of(ops[p]) == Some(id));
        lemma_room_exit(context, pasting, rooms[i], rooms[i].exits[k], id, after.exits[id]);
    }
    assert forall|id: ExitId|
        #![trigger after.exits.dom().contains(id)]
        after.exits.dom().contains(id) && !held.exits.dom().contains(id) implies came_with_connection(
        pasting,
        ids.members@,
        id,
    ) || is_room_exit_id(rooms, ids.room_exits@, id) by {
        let p = choose|p: int| 0 <= p < ops.len() && unpasting::exit_of(#[trigger] ops[p]) == Some(id);
        if exits.contains(ops[p]) {
            let q = choose|q: int| 0 <= q < exits.len() && exits[q] == ops[p];
            assert(is_room_exit_id(rooms, ids.room_exits@, unpasting::exit_of(exits[q])->0));
        } else {
            let q = choose|q: int| 0 <= q < links.len() && links[q] == ops[p];
            assert(pastes_member(links[q], context, clips, ids.members@));
            let (i, k) = choose|i: int, k: int|
                0 <= i < clips.len() && 0 <= k < clips[i].members.len() && paste::connection_fits(
                    context,
                    clips[i],
                ) && unpasting::exit_of(links[q]) == Some(#[trigger] ids.members@[i]@[k]);
            lemma_finds_place(context, pasting, clips[i]);
            assert(ids.members@[i]@[k] == id);
        }
    }
    assert forall|id: ConnectionId|
        #![trigger after.connections.dom().contains(id)]
        after.connections.dom().contains(id) && !held.connections.dom().contains(id) implies is_pasted_connection(
        pasting,
        ids.connections@,
        id,
    ) || wiring::is_carried(after.exits, id) by {
        if !wiring::is_carried(after.exits, id) {
            let p = choose|p: int|
                0 <= p < ops.len() && unpasting::connection_of(#[trigger] ops[p]) == Some(id);
            let q = choose|q: int| 0 <= q < links.len() && links[q] == ops[p];
            assert(creates_one(links[q], context, clips, ids, routes));
            lemma_only_fitting(context, clips, ids, routes, q);
            let i = choose|i: int|
                0 <= i < clips.len() && paste::connection_fits(context, clips[i])
                    && #[trigger] ids.connections@[i] == id;
            lemma_finds_place(context, pasting, clips[i]);
            assert(ids.connections@[i] == id);
        }
    }
}

/// A connection that is created is one that fits.
proof fn lemma_only_fitting(
    context: PasteContext,
    clips: Seq<ConnectionClipView>,
    ids: PasteIds,
    routes: Seq<Vec<Point>>,
    q: int,
)
    requires
        0 <= q < paste::connections_paste(context, clips, ids, routes).writes.len(),
        unpasting::connection_of(paste::connections_paste(context, clips, ids, routes).writes[q]) is Some,
    ensures
        exists|i: int|
            0 <= i < clips.len() && paste::connection_fits(context, clips[i])
                && #[trigger] ids.connections@[i] == unpasting::connection_of(
                paste::connections_paste(context, clips, ids, routes).writes[q],
            )->0,
    decreases clips.len(),
{
    let ops = paste::connections_paste(context, clips, ids, routes).writes;
    let rest = clips.drop_last();
    let at = clips.len() - 1;
    let early = paste::connections_paste(context, rest, ids, routes).writes;
    if q < early.len() {
        assert(ops[q] == early[q]);
        lemma_only_fitting(context, rest, ids, routes, q);
        let i = choose|i: int|
            0 <= i < rest.len() && paste::connection_fits(context, rest[i])
                && #[trigger] ids.connections@[i] == unpasting::connection_of(early[q])->0;
        assert(rest[i] == clips[i]);
        assert(ids.connections@[i] == unpasting::connection_of(ops[q])->0);
    } else {
        let late = paste::connection_writes(
            context,
            clips[at],
            ids.connections@[at],
            ids.members@[at]@,
            routes[at]@,
        );
        assert(ops[q] == late[q - early.len()]);
        assert(ids.connections@[at] == unpasting::connection_of(ops[q])->0);
    }
}

/// A pasted exit is the copied exit between the counterparts of its rooms, and a pasted
/// connection the copied connection. Nothing else of exits and connections changes.
pub proof fn law_a_pasted_link_is_the_copied_link(
    before: Links,
    atlas: AtlasCache,
    area_id: AreaId,
    clipboard: ClipboardView,
    level: i32,
    points: PastePoints,
    ids: PasteIds,
    next_room_number: Option<RoomNumber>,
    limit: int,
    fresh: Seq<u128>,
)
    requires
        paste::rooms_fit(atlas, area_id, clipboard, next_room_number),
        copying::rooms_differ(clipboard.rooms),
        are_unused(ids, clipboard, before),
        clipboard.labels.len() + clipboard.shapes.len() <= usize::MAX,
        fresh.len() >= 1 + clipboard.labels.len() + clipboard.shapes.len(),
    ensures
        ({
            let paste = paste::pasted(
                atlas,
                area_id,
                clipboard,
                level,
                points,
                ids,
                next_room_number,
                limit,
            );
            paste.command matches Some(command) ==> are_links_pasted(
                wiring::links_staged(before, doing::redo_batches(command, fresh, limit)),
                before,
                pasting_of(atlas, area_id, clipboard, paste),
                ids,
                points.routes@,
            )
        }),
{
    let paste = paste::pasted(atlas, area_id, clipboard, level, points, ids, next_room_number, limit);
    if let Some(command) = paste.command {
        let area = atlas.area(area_id)->0;
        let context = paste::paste_context(atlas, area, area_id, clipboard, next_room_number);
        let pasting = pasting_of(atlas, area_id, clipboard, paste);
        let numbers = paste::pasted_numbers(context, clipboard.rooms);
        let writes = paste::paste_writes(context, clipboard, points, ids);
        let present = writes.len() != 0;
        let labels = clipboard.labels.len();
        let b = paste::labels_pasted(area_id, clipboard.labels, points.labels@, context.same_area, level);
        let c = paste::shapes_pasted(
            area_id,
            clipboard.shapes,
            points.shapes@,
            context.same_area,
            level,
            labels as int,
        );
        let intent = paste::paste_description(numbers.len());
        let a = withdrawing::as_batch(area_id, present, writes, intent);
        assert(command.redo =~= a + (b + c));
        assert(command.redo =~= a + b + c);
        withdrawing::lemma_paste_slots(a, b, c, command.undo);
        assert(wiring::all_spare(b + c, 0));
        assert(mutation::fills_in(b + c, command.resolved_ids.len() as int));
        unpasting::lemma_headed(
            before,
            command,
            Direction::Redo,
            area_id,
            present,
            writes,
            intent,
            b + c,
            fresh,
            limit,
        );
        assert forall|number: RoomNumber|
            paste::resolved_room(context, number) == pasting.room(number) && paste::mapped(
                context.mapping,
                number,
            ) is Some == is_copied(clipboard.rooms, number) && (is_copied(clipboard.rooms, number)
                ==> paste::mapped(context.mapping, number) == pasting.room(number)) by {
            lemma_counterpart(atlas, area, area_id, clipboard, next_room_number, number);
        }
        assert(agrees(context, pasting));
        lemma_paste_links(before, context, pasting, points, ids);
    }
}

// ===== How much is pasted =====

/// How many writes copied rooms take: one for each, for each of its properties and for each of
/// the exits copied with it.
pub open spec fn room_count(rooms: Seq<RoomClipView>) -> int
    decreases rooms.len(),
{
    if rooms.len() == 0 {
        0
    } else {
        room_count(rooms.drop_last()) + 1 + rooms.last().properties.len() + rooms.last().exits.len()
    }
}

/// How many writes copied connections take: one for each that finds a place, and one for each
/// of its exits.
pub open spec fn link_count(pasting: Pasting, clips: Seq<ConnectionClipView>) -> int
    decreases clips.len(),
{
    if clips.len() == 0 {
        0
    } else {
        link_count(pasting, clips.drop_last()) + if pasting.finds_place(clips.last()) {
            1 + clips.last().members.len()
        } else {
            0
        }
    }
}

/// How many copied connections find no place.
pub open spec fn homeless(pasting: Pasting, clips: Seq<ConnectionClipView>) -> int
    decreases clips.len(),
{
    if clips.len() == 0 {
        0
    } else {
        homeless(pasting, clips.drop_last()) + if pasting.finds_place(clips.last()) {
            0int
        } else {
            1
        }
    }
}

/// How many writes pasted rooms take.
proof fn lemma_room_count(
    context: PasteContext,
    rooms: Seq<RoomClipView>,
    points: Seq<Point>,
    ids: Seq<Vec<ExitId>>,
)
    ensures
        paste::rooms_writes(context, rooms, points).len() + paste::rooms_exit_writes(
            context,
            rooms,
            ids,
        ).len() == room_count(rooms),
    decreases rooms.len(),
{
    if rooms.len() > 0 {
        lemma_room_count(context, rooms.drop_last(), points, ids);
    }
}

/// How many writes pasted connections take, and how many are skipped.
proof fn lemma_link_count(
    context: PasteContext,
    pasting: Pasting,
    clips: Seq<ConnectionClipView>,
    ids: PasteIds,
    routes: Seq<Vec<Point>>,
)
    requires
        agrees(context, pasting),
    ensures
        paste::connections_paste(context, clips, ids, routes).writes.len() == link_count(pasting, clips),
        paste::connections_paste(context, clips, ids, routes).skipped == homeless(pasting, clips),
        link_count(pasting, clips) >= 0,
    decreases clips.len(),
{
    if clips.len() > 0 {
        lemma_link_count(context, pasting, clips.drop_last(), ids, routes);
        lemma_finds_place(context, pasting, clips.last());
    }
}

/// A paste is done whole or not at all: not when there is nothing to paste, or it would take
/// more writes than there may be; else everything that finds a place is pasted, and the
/// connections that find none are counted.
pub proof fn law_a_paste_is_whole_or_nothing(
    atlas: AtlasCache,
    area_id: AreaId,
    clipboard: ClipboardView,
    level: i32,
    points: PastePoints,
    ids: PasteIds,
    next_room_number: Option<RoomNumber>,
    limit: int,
)
    requires
        paste::rooms_fit(atlas, area_id, clipboard, next_room_number),
        copying::rooms_differ(clipboard.rooms),
    ensures
        ({
            let paste = paste::pasted(
                atlas,
                area_id,
                clipboard,
                level,
                points,
                ids,
                next_room_number,
                limit,
            );
            match atlas.area(area_id) {
                None => paste.command is None && paste.rooms.len() == 0 && paste.skipped == 0,
                Some(area) => {
                    let numbers = Seq::new(clipboard.rooms.len(), |i: int| RoomNumber(0));
                    let pasting = Pasting { atlas, area, target: area_id, clipboard, numbers };
                    let writes = room_count(clipboard.rooms) + link_count(
                        pasting,
                        clipboard.connections,
                    );
                    let drawings = clipboard.labels.len() + clipboard.shapes.len();
                    if writes > limit {
                        paste.command is None && paste.rooms.len() == 0 && paste.skipped == 0
                    } else {
                        &&& paste.command is Some == (writes + drawings > 0)
                        &&& paste.rooms.len() == clipboard.rooms.len()
                        &&& paste.skipped == homeless(pasting, clipboard.connections)
                    }
                },
            }
        }),
{
    let paste = paste::pasted(atlas, area_id, clipboard, level, points, ids, next_room_number, limit);
    if let Some(area) = atlas.area(area_id) {
        let context = paste::paste_context(atlas, area, area_id, clipboard, next_room_number);
        let actual = Pasting {
            atlas,
            area,
            target: area_id,
            clipboard,
            numbers: paste::pasted_numbers(context, clipboard.rooms),
        };
        let numbers = Seq::new(clipboard.rooms.len(), |i: int| RoomNumber(0));
        let pasting = Pasting { numbers, ..actual };
        assert forall|number: RoomNumber|
            paste::resolved_room(context, number) == actual.room(number) && paste::mapped(
                context.mapping,
                number,
            ) is Some == is_copied(clipboard.rooms, number) && (is_copied(clipboard.rooms, number)
                ==> paste::mapped(context.mapping, number) == actual.room(number)) by {
            lemma_counterpart(atlas, area, area_id, clipboard, next_room_number, number);
        }
        assert(agrees(context, actual));
        lemma_room_count(context, clipboard.rooms, points.rooms@, ids.room_exits@);
        lemma_link_count(context, actual, clipboard.connections, ids, points.routes@);
        lemma_count_alike(actual, pasting, clipboard.connections);
        let writes = paste::paste_writes(context, clipboard, points, ids);
        lemma_room_count_positive(clipboard.rooms);
        assert(writes.len() == room_count(clipboard.rooms) + link_count(pasting, clipboard.connections));
        let redo = (if writes.len() == 0 {
            Seq::empty()
        } else {
            seq![
                super::edits::batch(
                    area_id,
                    writes,
                    paste::paste_description(
                        paste::pasted_numbers(context, clipboard.rooms).len(),
                    ),
                ),
            ]
        }) + paste::labels_pasted(
            area_id,
            clipboard.labels,
            points.labels@,
            context.same_area,
            level,
        ) + paste::shapes_pasted(
            area_id,
            clipboard.shapes,
            points.shapes@,
            context.same_area,
            level,
            clipboard.labels.len() as int,
        );
        assert((redo.len() > 0) == (writes.len() + clipboard.labels.len() + clipboard.shapes.len() > 0));
        lemma_homeless(actual, clipboard.connections);
    }
}

/// Rooms take writes.
proof fn lemma_room_count_positive(rooms: Seq<RoomClipView>)
    ensures
        room_count(rooms) >= rooms.len(),
    decreases rooms.len(),
{
    if rooms.len() > 0 {
        lemma_room_count_positive(rooms.drop_last());
    }
}

/// Whether a connection finds a place does not depend on the numbers of the pasted rooms.
proof fn lemma_count_alike(a: Pasting, b: Pasting, clips: Seq<ConnectionClipView>)
    requires
        b == (Pasting { numbers: b.numbers, ..a }),
    ensures
        link_count(a, clips) == link_count(b, clips),
        homeless(a, clips) == homeless(b, clips),
    decreases clips.len(),
{
    if clips.len() > 0 {
        lemma_count_alike(a, b, clips.drop_last());
        let clip = clips.last();
        assert forall|number: RoomNumber| #[trigger] a.room(number) is Some == b.room(number) is Some by {}
        assert forall|k: int| 0 <= k < clip.members.len() implies a.is_free(#[trigger] clip.members[k])
            == b.is_free(clip.members[k]) by {}
        assert(a.finds_place(clip) == b.finds_place(clip)) by {
            if a.finds_place(clip) {
                assert forall|k: int| 0 <= k < clip.members.len() implies b.room(
                    (#[trigger] clip.members[k]).0,
                ) is Some && b.is_free(clip.members[k]) by {
                    assert(a.room(clip.members[k].0) is Some);
                }
            }
            if b.finds_place(clip) {
                assert forall|k: int| 0 <= k < clip.members.len() implies a.room(
                    (#[trigger] clip.members[k]).0,
                ) is Some && a.is_free(clip.members[k]) by {
                    assert(b.room(clip.members[k].0) is Some);
                }
            }
        }
    }
}

/// No more connections are skipped than there are.
proof fn lemma_homeless(pasting: Pasting, clips: Seq<ConnectionClipView>)
    ensures
        0 <= homeless(pasting, clips) <= clips.len(),
    decreases clips.len(),
{
    if clips.len() > 0 {
        lemma_homeless(pasting, clips.drop_last());
    }
}

} // verus!
