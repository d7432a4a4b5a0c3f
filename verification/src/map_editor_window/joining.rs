//! What a command does to exits and connections when it is carried out.
//!
//! Each law says which exits and connections there are afterwards, over the model of
//! `wiring`: where every new exit leads and how it is walked, and that everything else is
//! as it was.

use vstd::prelude::*;

use super::commands::{self, CommandView, Direction};
use super::compile;
use super::creation::{self, Anchor, LinkEnds, LinkIds, NewExitTarget, NewLinkOptions};
use super::doing;
use super::edits;
use super::model::{
    AreaId, ConnectionEndpoint, ConnectionId, CornerStyle, ExitCache, ExitDirection, ExitId, PortMode, RoomKey,
    RoomNumber, Scalar, SegmentShape,
};
use super::mutation::OpView;
use super::relinking::ExitState;
use super::restoring;
use super::undoing::{self, World};
use super::wiring::{self, LinkState, Links};

verus! {

// ===== Carrying a command out =====

/// Whether carrying a command out turns exits and connections into others, with writes to
/// one area alone.
pub open spec fn rewires(command: CommandView, area_id: AreaId, before: Links, after: Links) -> bool {
    forall|fresh: Seq<u128>, limit: int|
        limit > 0 ==> leads_links(#[trigger] doing::redo_batches(command, fresh, limit), area_id, before, after)
}

/// Whether batches turn exits and connections into others, with writes to one area alone.
pub open spec fn leads_links(
    batches: Seq<compile::BatchView>,
    area_id: AreaId,
    before: Links,
    after: Links,
) -> bool {
    doing::all_to(batches, area_id) && wiring::links_staged(before, batches) == after
}

/// Whether carrying a command out turns what an area holds of rooms and drawings into
/// something else.
pub open spec fn rebuilds(command: CommandView, before: World, after: World) -> bool {
    forall|fresh: Seq<u128>, limit: int|
        limit > 0 ==> undoing::staged(before, #[trigger] doing::redo_batches(command, fresh, limit))
            == after
}

/// Whether carrying a command out leaves rooms and drawings alone.
pub open spec fn spares_rooms(command: CommandView) -> bool {
    forall|world: World| #[trigger] rebuilds(command, world, world)
}

/// What a command of one mutation that creates nothing does: its writes.
pub(crate) proof fn lemma_one_done(command: CommandView, area_id: AreaId, ops: Seq<OpView>)
    requires
        command.redo.len() == 1,
        wiring::area_of(command.redo[0]) == area_id,
        forall|fresh: u128| #[trigger] restoring::step_ops(command.resolved_ids, command.redo[0], fresh)
            == ops,
    ensures
        forall|before: Links|
            #![trigger wiring::all_links_written(before, area_id, ops)]
            rewires(command, area_id, before, wiring::all_links_written(before, area_id, ops)),
        forall|before: World|
            #![trigger undoing::all_written(before, ops)]
            rebuilds(command, before, undoing::all_written(before, ops)),
{
    let start = restoring::compile_start(command);
    let only = command.redo[0];
    assert forall|before: Links|
        #![trigger wiring::all_links_written(before, area_id, ops)]
        rewires(command, area_id, before, wiring::all_links_written(before, area_id, ops)) by {
        assert forall|fresh: Seq<u128>, limit: int| limit > 0 implies leads_links(
            #[trigger] doing::redo_batches(command, fresh, limit),
            area_id,
            before,
            wiring::all_links_written(before, area_id, ops),
        ) by {
            doing::lemma_all_to(start, command.redo, fresh, command.id, limit, area_id);
            wiring::lemma_one_mutation(before, command, Direction::Redo, fresh, limit);
            assert(restoring::step_ops(command.resolved_ids, only, fresh[0]) == ops);
        }
    }
    assert forall|before: World|
        #![trigger undoing::all_written(before, ops)]
        rebuilds(command, before, undoing::all_written(before, ops)) by {
        assert forall|fresh: Seq<u128>, limit: int| limit > 0 implies undoing::staged(
            before,
            #[trigger] doing::redo_batches(command, fresh, limit),
        ) == undoing::all_written(before, ops) by {
            reveal_with_fuel(compile::compiled, 2);
            assert(command.redo.drop_last() =~= Seq::empty());
            assert(command.redo.last() == only);
            restoring::lemma_step_staged(before, start, only, fresh[0], command.id, limit);
            assert(undoing::ops_of(start.batches) =~= Seq::empty());
            assert(restoring::step_ops(command.resolved_ids, only, fresh[0]) == ops);
        }
    }
}

/// Whether a write touches nothing but exits and connections.
pub open spec fn is_of_links(op: OpView) -> bool {
    restoring::keeps_rooms(op) && restoring::keeps_labels(op) && restoring::keeps_shapes(op)
}

/// Writes to exits and connections leave rooms and drawings alone.
pub(crate) proof fn lemma_world_kept(world: World, ops: Seq<OpView>)
    requires
        forall|i: int| 0 <= i < ops.len() ==> is_of_links(#[trigger] ops[i]),
    ensures
        undoing::all_written(world, ops) == world,
{
    restoring::lemma_kept(world, ops);
    assert(undoing::all_written(world, ops) =~= world);
}

/// A command of one mutation whose writes are of exits and connections leaves rooms and
/// drawings alone.
pub(crate) proof fn lemma_spares_rooms(command: CommandView, area_id: AreaId, ops: Seq<OpView>)
    requires
        command.redo.len() == 1,
        wiring::area_of(command.redo[0]) == area_id,
        forall|fresh: u128| #[trigger] restoring::step_ops(command.resolved_ids, command.redo[0], fresh)
            == ops,
        forall|i: int| 0 <= i < ops.len() ==> is_of_links(#[trigger] ops[i]),
    ensures
        spares_rooms(command),
{
    lemma_one_done(command, area_id, ops);
    assert forall|world: World| #[trigger] rebuilds(command, world, world) by {
        lemma_world_kept(world, ops);
        assert(rebuilds(command, world, undoing::all_written(world, ops)));
    }
}

// ===== Drawing a link =====

/// Whether a new link gets an exit back: it leads to a room, is not one-way, and does not
/// join a link that is there.
pub open spec fn is_two_way(to: NewExitTarget, options: NewLinkOptions<Seq<char>>) -> bool {
    !options.one_way && !(to is Dangling) && options.pair_with is None
}

/// A new exit: plain but for where it leads and how it is walked.
pub open spec fn new_exit(
    id: ExitId,
    connection_id: ConnectionId,
    from_direction: ExitDirection,
    to: Option<(RoomKey, ExitDirection)>,
    command: Option<Seq<char>>,
) -> ExitState {
    ExitCache {
        id,
        connection_id,
        from_direction,
        to_area_id: match to {
            Some((key, _)) => Some(key.area_id),
            None => None,
        },
        to_room_number: match to {
            Some((key, _)) => Some(key.room_number),
            None => None,
        },
        to_direction: match to {
            Some((_, direction)) => Some(direction),
            None => None,
        },
        path: None,
        is_hidden: false,
        is_closed: false,
        is_locked: false,
        weight: Scalar(0x3f80_0000),
        command,
        is_secret: false,
        to_unknown: false,
    }
}

/// The room that a new link leads to.
pub open spec fn far_room(to: NewExitTarget) -> RoomNumber {
    match to {
        NewExitTarget::Room(number) => number,
        NewExitTarget::NewRoom { room_number, .. } => room_number,
        NewExitTarget::Dangling => RoomNumber(0),
    }
}

/// Whether an end of a connection meets a room where an anchor says.
pub open spec fn meets(end: ConnectionEndpoint, number: RoomNumber, anchor: Anchor) -> bool {
    end.room_number == number && end.side == anchor.side && end.port_offset == anchor.port_offset
        && end.port_mode == PortMode::AutoPinned
}

/// Whether a connection runs between the rooms of a new link, the one with the smaller
/// number first, and looks as it was asked to.
pub open spec fn is_drawn(link: LinkState, ends: LinkEnds, options: NewLinkOptions<Seq<char>>, id: ConnectionId) -> bool {
    &&& link.id == id
    &&& match link.endpoint_b {
        None => ends.to is Dangling && meets(link.endpoint_a, ends.from, ends.from_anchor),
        Some(end) => !(ends.to is Dangling) && link.endpoint_a.room_number.0 <= end.room_number.0 && if ends.from.0
            <= far_room(ends.to).0 {
            meets(link.endpoint_a, ends.from, ends.from_anchor) && meets(
                end,
                far_room(ends.to),
                ends.to_anchor,
            )
        } else {
            meets(link.endpoint_a, far_room(ends.to), ends.to_anchor) && meets(
                end,
                ends.from,
                ends.from_anchor,
            )
        },
    }
    &&& link.routing == options.routing && link.dash == options.dash && link.color == options.color
        && link.thickness == options.thickness
    &&& link.segment_shape == SegmentShape::Direct && link.corner == CornerStyle::Sharp
        && link.route_points.len() == 0
}

/// Whether exits and connections are those that were there and those of a new link: an
/// exit of the first room that leads to the second, walked by its own command; for a two-way
/// link one exit more, of the second room, that leads back and is walked by the command of
/// that end; and their connection, unless the link joins one that is there.
pub open spec fn link_is_drawn(
    after: Links,
    before: Links,
    area_id: AreaId,
    ends: LinkEnds,
    options: NewLinkOptions<Seq<char>>,
    ids: LinkIds,
) -> bool {
    let near = RoomKey { area_id, room_number: ends.from };
    let far = RoomKey { area_id, room_number: far_room(ends.to) };
    let connection_id = match options.pair_with {
        Some(id) => id,
        None => ids.connection_id,
    };
    &&& after.exits.dom() == if is_two_way(ends.to, options) {
        before.exits.dom().insert(ids.forward_id).insert(ids.reverse_id)
    } else {
        before.exits.dom().insert(ids.forward_id)
    }
    &&& forall|id: ExitId| #[trigger]
        before.exits.dom().contains(id) && id != ids.forward_id && id != ids.reverse_id
            ==> after.exits[id] == before.exits[id]
    &&& after.exits[ids.forward_id] == (
        near,
        new_exit(
            ids.forward_id,
            connection_id,
            ends.from_direction,
            if ends.to is Dangling {
                None
            } else {
                Some((far, ends.to_direction))
            },
            options.from_command,
        ),
    )
    &&& is_two_way(ends.to, options) ==> after.exits[ids.reverse_id] == (
        far,
        new_exit(
            ids.reverse_id,
            connection_id,
            ends.to_direction,
            Some((near, ends.from_direction)),
            options.to_command,
        ),
    )
    &&& options.pair_with matches Some(id) ==> (before.connections.dom().contains(id)
        ==> after.connections == before.connections)
    &&& options.pair_with is None ==> {
        &&& after.connections.dom() == before.connections.dom().insert(connection_id)
        &&& is_drawn(after.connections[connection_id], ends, options, connection_id)
        &&& forall|id: ConnectionId| #[trigger]
            before.connections.dom().contains(id) && id != connection_id ==> after.connections[id]
                == before.connections[id]
    }
}

/// Whether a command draws a link among exits and connections.
pub open spec fn draws_link_among(
    command: CommandView,
    before: Links,
    area_id: AreaId,
    ends: LinkEnds,
    options: NewLinkOptions<Seq<char>>,
    ids: LinkIds,
) -> bool {
    exists|after: Links| #[trigger]
        rewires(command, area_id, before, after) && link_is_drawn(
            after,
            before,
            area_id,
            ends,
            options,
            ids,
        )
}

/// Whether a command draws a link: the link is there afterwards, with the room it creates,
/// and nothing else changes.
pub open spec fn draws_link(
    command: CommandView,
    area_id: AreaId,
    ends: LinkEnds,
    options: NewLinkOptions<Seq<char>>,
    ids: LinkIds,
) -> bool {
    &&& ids.forward_id != ids.reverse_id ==> forall|before: Links| #[trigger]
        draws_link_among(command, before, area_id, ends, options, ids)
    &&& match ends.to {
        NewExitTarget::NewRoom { room_number, at, level } => forall|world: World|
            #![trigger world.rooms.dom().contains(room_number)]
            !world.rooms.dom().contains(room_number) ==> rebuilds(
                command,
                world,
                undoing::with_room(world, room_number, doing::untitled(at, level)),
            ),
        _ => spares_rooms(command),
    }
}

/// The command of a new link.
pub open spec fn link_command(
    area_id: AreaId,
    ends: LinkEnds,
    options: NewLinkOptions<Seq<char>>,
    ids: LinkIds,
) -> CommandView {
    commands::new_command(
        seq![
            edits::batch(
                area_id,
                creation::link_writes(area_id, ends, options, ids),
                creation::link_intent(ends.to, options),
            ),
        ],
        seq![
            edits::batch(
                area_id,
                creation::link_inverse(ends.to, options, ids),
                "Undo link creation"@,
            ),
        ],
    )
}

/// What the writes of a new link leave of exits and connections.
proof fn lemma_link_drawn(
    before: Links,
    area_id: AreaId,
    ends: LinkEnds,
    options: NewLinkOptions<Seq<char>>,
    ids: LinkIds,
)
    requires
        ids.forward_id != ids.reverse_id,
    ensures
        link_is_drawn(
            wiring::all_links_written(
                before,
                area_id,
                creation::link_writes(area_id, ends, options, ids),
            ),
            before,
            area_id,
            ends,
            options,
            ids,
        ),
{
    let room = creation::link_room(ends.to);
    let joint = creation::link_connection(ends, options, ids);
    let forward = creation::link_forward(area_id, ends, options, ids);
    let reverse = creation::link_reverse(area_id, ends, options, ids);
    let all = creation::link_writes(area_id, ends, options, ids);
    assert(all =~= room + joint + seq![forward] + reverse);
    wiring::lemma_links_written(before, area_id, room + joint + seq![forward], reverse);
    wiring::lemma_links_written(before, area_id, room + joint, seq![forward]);
    wiring::lemma_links_written(before, area_id, room, joint);
    assert forall|i: int| 0 <= i < room.len() implies wiring::keeps_links(#[trigger] room[i]) by {}
    wiring::lemma_links_kept(before, area_id, room);
    let joined = wiring::all_links_written(before, area_id, joint);
    wiring::lemma_one_link_written(joined, area_id, forward);
    let there = wiring::links_written(joined, area_id, forward);
    let after = wiring::all_links_written(there, area_id, reverse);
    if options.pair_with is Some {
        assert(joint =~= Seq::empty());
    } else {
        assert(joint =~= seq![joint[0]]);
        wiring::lemma_one_link_written(before, area_id, joint[0]);
    }
    if is_two_way(ends.to, options) {
        assert(reverse =~= seq![reverse[0]]);
        wiring::lemma_one_link_written(there, area_id, reverse[0]);
    } else {
        assert(reverse =~= Seq::empty());
    }
    let two_way = is_two_way(ends.to, options);
    assert(after.exits.dom() =~= if two_way {
        before.exits.dom().insert(ids.forward_id).insert(ids.reverse_id)
    } else {
        before.exits.dom().insert(ids.forward_id)
    });
    if options.pair_with is None {
        assert(after.connections.dom() =~= before.connections.dom().insert(ids.connection_id));
    }
}

/// A drawn link joins its two rooms: there is one exit of the first room that leads to the
/// second and is walked by the command given for it; where the link is two-way, there is one
/// exit of the second room that leads back and is walked by the command given for that; both
/// share a connection that runs between the rooms. Nothing else changes.
pub proof fn law_a_drawn_link_joins_its_rooms(
    area_id: AreaId,
    ends: LinkEnds,
    options: NewLinkOptions<Seq<char>>,
    ids: LinkIds,
)
    ensures
        draws_link(link_command(area_id, ends, options, ids), area_id, ends, options, ids),
{
    let command = link_command(area_id, ends, options, ids);
    let ops = creation::link_writes(area_id, ends, options, ids);
    assert forall|fresh: u128| #[trigger] restoring::step_ops(command.resolved_ids, command.redo[0], fresh)
        == ops by {}
    lemma_one_done(command, area_id, ops);
    if ids.forward_id != ids.reverse_id {
        assert forall|before: Links| #[trigger]
            draws_link_among(command, before, area_id, ends, options, ids) by {
            let after = wiring::all_links_written(before, area_id, ops);
            lemma_link_drawn(before, area_id, ends, options, ids);
            assert(rewires(command, area_id, before, after));
        }
    }
    let room = creation::link_room(ends.to);
    let rest = creation::link_connection(ends, options, ids) + seq![
        creation::link_forward(area_id, ends, options, ids),
    ] + creation::link_reverse(area_id, ends, options, ids);
    assert(ops =~= room + rest);
    assert forall|i: int| 0 <= i < rest.len() implies is_of_links(#[trigger] rest[i]) by {}
    match ends.to {
        NewExitTarget::NewRoom { room_number, at, level } => {
            assert forall|world: World|
                #![trigger world.rooms.dom().contains(room_number)]
                !world.rooms.dom().contains(room_number) implies rebuilds(
                command,
                world,
                undoing::with_room(world, room_number, doing::untitled(at, level)),
            ) by {
                undoing::lemma_all_written(world, room, rest);
                assert(room =~= seq![room[0]]);
                undoing::lemma_one_written(world, room[0]);
                lemma_world_kept(undoing::written(world, room[0]), rest);
                assert(rebuilds(command, world, undoing::all_written(world, ops)));
            }
        },
        _ => {
            assert(ops =~= rest);
            lemma_spares_rooms(command, area_id, ops);
        },
    }
}

} // verus!
