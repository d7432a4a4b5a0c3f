//! Builders of commands that create entities.

use vstd::prelude::*;

use super::commands::{self, Command, CommandView};
use super::doing;
use super::edits::{self, one, pair, push_op, Rect};
use super::joining;
use super::model::{
    Alignment, AreaId, ConnectionArgs, ConnectionDash, ConnectionEndpoint, ConnectionId, ConnectionRouting,
    CornerStyle, ExitArgs, ExitDirection, ExitId, LabelArgs, LabelId, Point, PortMode, RoomKey, RoomNumber, RoomSide,
    RoomUpdates, Scalar, SegmentShape, ShapeArgs, ShapeType,
};
use super::mutation::{self, AreaMutation, IdRef, Mutation, OpView};
use crate::text::{self, clone_opt, join3, signed_decimal_text};

verus! {

/// An untitled room at a position.
pub open spec fn new_room(at: Point, level: i32) -> RoomUpdates<Seq<char>> {
    RoomUpdates {
        is_secret: None,
        title: Some(Seq::empty()),
        description: Some(Seq::empty()),
        level: Some(level),
        x: Some(at.x),
        y: Some(at.y),
        color: Some(Seq::empty()),
        external_id: None,
    }
}

/// An untitled room at a position.
fn make_room(at: Point, level: i32) -> (room: RoomUpdates)
    ensures
        room@ == new_room(at, level),
{
    RoomUpdates {
        is_secret: None,
        title: Some(String::new()),
        description: Some(String::new()),
        level: Some(level),
        x: Some(at.x),
        y: Some(at.y),
        color: Some(String::new()),
        external_id: None,
    }
}

/// The command of [`create_room`].
pub open spec fn new_room_command(
    area_id: AreaId,
    room_number: RoomNumber,
    at: Point,
    level: i32,
) -> CommandView {
    commands::new_command(
        seq![Mutation::UpsertRooms(area_id, seq![(room_number, new_room(at, level))])],
        seq![Mutation::DeleteRoom(RoomKey { area_id, room_number })],
    )
}

/// Creates a room at a map-space point on the given level.
pub fn create_room(area_id: AreaId, room_number: RoomNumber, at: Point, level: i32) -> (command: Command)
    ensures
        command@ == commands::new_command(
            seq![Mutation::UpsertRooms(area_id, seq![(room_number, new_room(at, level))])],
            seq![Mutation::DeleteRoom(RoomKey { area_id, room_number })],
        ),
        doing::places_room(command@, area_id, room_number, at, level),
        command.wf(),
{
    proof {
        doing::law_a_new_room_stands_where_it_was_placed(area_id, room_number, at, level);
    }
    let mut rooms: Vec<(RoomNumber, RoomUpdates)> = Vec::new();
    rooms.push((room_number, make_room(at, level)));
    assert(mutation::rooms_view(rooms@) =~= seq![(room_number, new_room(at, level))]);
    pair(
        Mutation::UpsertRooms(area_id, rooms),
        Mutation::DeleteRoom(RoomKey::new(area_id, room_number)),
    )
}

/// The body of a new exit that leads nowhere and is reached by a command of its
/// own.
pub open spec fn default_exit() -> ExitArgs<Seq<char>> {
    ExitArgs {
        id: None,
        connection_id: None,
        new_connection_id: None,
        is_secret: None,
        from_direction: ExitDirection::Special,
        to_area_id: None,
        to_room_number: None,
        to_direction: None,
        path: None,
        is_hidden: false,
        is_closed: false,
        is_locked: false,
        weight: Scalar(0x3f80_0000),
        command: None,
    }
}

/// The command of [`add_default_exit`].
pub open spec fn default_exit_command(area_id: AreaId, room_number: RoomNumber) -> CommandView {
    commands::new_command(
        seq![
            Mutation::CreateExit {
                room_key: RoomKey { area_id, room_number },
                args: default_exit(),
                follow_up: None,
                slot: 0,
            },
        ],
        seq![
            Mutation::DeleteExit {
                room_key: RoomKey { area_id, room_number },
                id: IdRef::Slot(0),
            },
        ],
    )
}

/// Adds a default unconnected exit to a room.
pub fn add_default_exit(area_id: AreaId, room_number: RoomNumber) -> (command: Command)
    ensures
        command@ == default_exit_command(area_id, room_number),
        command.wf(),
{
    let room_key = RoomKey::new(area_id, room_number);
    let args: ExitArgs = ExitArgs {
        id: None,
        connection_id: None,
        new_connection_id: None,
        is_secret: None,
        from_direction: ExitDirection::Special,
        to_area_id: None,
        to_room_number: None,
        to_direction: None,
        path: None,
        is_hidden: false,
        is_closed: false,
        is_locked: false,
        weight: Scalar::one(),
        command: None,
    };
    pair(
        Mutation::CreateExit { room_key, args, follow_up: None, slot: 0 },
        Mutation::DeleteExit { room_key, id: IdRef::Slot(0) },
    )
}

/// The body of a new label: legible, with an explicitly transparent background.
pub open spec fn new_label(rect: Rect, level: i32, caption: Seq<char>) -> LabelArgs<Seq<char>> {
    LabelArgs {
        id: None,
        is_secret: None,
        level,
        x: rect.x,
        y: rect.y,
        width: rect.width,
        height: rect.height,
        horizontal_alignment: Alignment::Standard,
        vertical_alignment: Alignment::Standard,
        text: caption,
        color: "#c8c8c8"@,
        background_color: Some(Seq::empty()),
        font_size: 16,
        font_weight: 400,
    }
}

/// The command of [`create_label`].
pub open spec fn new_label_command(
    area_id: AreaId,
    rect: Rect,
    level: i32,
    caption: Seq<char>,
) -> CommandView {
    commands::new_command(
        seq![Mutation::CreateLabel { area_id, args: new_label(rect, level, caption), slot: 0 }],
        seq![Mutation::DeleteLabel { area_id, id: IdRef::Slot(0) }],
    )
}

/// Creates a label covering a map-space rect on the given level, with legible
/// defaults for inspector refinement.
pub fn create_label(area_id: AreaId, rect: Rect, level: i32, caption: String) -> (command: Command)
    ensures
        command@ == commands::new_command(
            seq![Mutation::CreateLabel { area_id, args: new_label(rect, level, caption@), slot: 0 }],
            seq![Mutation::DeleteLabel { area_id, id: IdRef::Slot(0) }],
        ),
        doing::draws_label(
            command@,
            area_id,
            |id: LabelId| doing::fresh_label(id, rect, level, caption@),
        ),
        command.wf(),
{
    proof {
        doing::law_a_new_label_covers_its_rectangle(area_id, rect, level, caption@);
    }
    let args: LabelArgs = LabelArgs {
        id: None,
        is_secret: None,
        level,
        x: rect.x,
        y: rect.y,
        width: rect.width,
        height: rect.height,
        horizontal_alignment: Alignment::Standard,
        vertical_alignment: Alignment::Standard,
        text: caption,
        color: "#c8c8c8".to_owned(),
        background_color: Some(String::new()),
        font_size: 16,
        font_weight: 400,
    };
    pair(
        Mutation::CreateLabel { area_id, args, slot: 0 },
        Mutation::DeleteLabel { area_id, id: IdRef::Slot(0) },
    )
}

/// The body of a new shape: filled, with an explicitly absent stroke.
pub open spec fn new_shape(rect: Rect, level: i32) -> ShapeArgs<Seq<char>> {
    ShapeArgs {
        id: None,
        is_secret: None,
        level,
        x: rect.x,
        y: rect.y,
        width: rect.width,
        height: rect.height,
        background_color: Some("#32323c"@),
        stroke_color: Some(Seq::empty()),
        shape_type: ShapeType::Standard,
        border_radius: Scalar(0),
        stroke_width: None,
    }
}

/// The command of [`create_shape`].
pub open spec fn new_shape_command(area_id: AreaId, rect: Rect, level: i32) -> CommandView {
    commands::new_command(
        seq![Mutation::CreateShape { area_id, args: new_shape(rect, level), slot: 0 }],
        seq![Mutation::DeleteShape { area_id, id: IdRef::Slot(0) }],
    )
}

/// Creates a shape covering a map-space rect on the given level.
pub fn create_shape(area_id: AreaId, rect: Rect, level: i32) -> (command: Command)
    ensures
        command@ == commands::new_command(
            seq![Mutation::CreateShape { area_id, args: new_shape(rect, level), slot: 0 }],
            seq![Mutation::DeleteShape { area_id, id: IdRef::Slot(0) }],
        ),
        doing::draws_shape(command@, area_id, doing::fresh_shape(rect, level)),
        command.wf(),
{
    proof {
        doing::law_a_new_shape_covers_its_rectangle(area_id, rect, level);
    }
    let args: ShapeArgs = ShapeArgs {
        id: None,
        is_secret: None,
        level,
        x: rect.x,
        y: rect.y,
        width: rect.width,
        height: rect.height,
        background_color: Some("#32323c".to_owned()),
        stroke_color: Some(String::new()),
        shape_type: ShapeType::Standard,
        border_radius: Scalar::zero(),
        stroke_width: None,
    };
    pair(
        Mutation::CreateShape { area_id, args, slot: 0 },
        Mutation::DeleteShape { area_id, id: IdRef::Slot(0) },
    )
}

/// Where a new exit should land.
#[derive(Clone, Copy, Debug, PartialEq, Eq, Structural)]
pub enum NewExitTarget {
    /// An existing room.
    Room(RoomNumber),
    /// A new room created at this position and level as part of the command.
    NewRoom { room_number: RoomNumber, at: Point, level: i32 },
    /// An outbound traversal with no destination room.
    Dangling,
}

/// Editable values from the link tool.
pub struct NewLinkOptions<T = String> {
    pub one_way: bool,
    pub from_command: Option<T>,
    pub to_command: Option<T>,
    pub routing: ConnectionRouting,
    pub dash: ConnectionDash,
    pub color: T,
    pub thickness: Scalar,
    /// When present, add the reciprocal traversal to this existing one-exit
    /// connection instead of creating a second visual route.
    pub pair_with: Option<ConnectionId>,
}

impl View for NewLinkOptions<String> {
    type V = NewLinkOptions<Seq<char>>;

    open spec fn view(&self) -> NewLinkOptions<Seq<char>> {
        NewLinkOptions {
            one_way: self.one_way,
            from_command: text::opt_text(self.from_command),
            to_command: text::opt_text(self.to_command),
            routing: self.routing,
            dash: self.dash,
            color: self.color@,
            thickness: self.thickness,
            pair_with: self.pair_with,
        }
    }
}

impl NewLinkOptions {
    /// A plain two-way link in the given color and thickness.
    pub fn styled(color: String, thickness: Scalar) -> (options: Self)
        ensures
            options@ == (NewLinkOptions {
                one_way: false,
                from_command: None,
                to_command: None,
                routing: ConnectionRouting::Simple,
                dash: ConnectionDash::Solid,
                color: color@,
                thickness,
                pair_with: None,
            }),
    {
        NewLinkOptions {
            one_way: false,
            from_command: None,
            to_command: None,
            routing: ConnectionRouting::Simple,
            dash: ConnectionDash::Solid,
            color,
            thickness,
            pair_with: None,
        }
    }
}

/// Where an exit in some direction meets the wall: the side, and how far along.
#[derive(Clone, Copy, Debug, PartialEq, Eq, Structural)]
pub struct Anchor {
    pub side: RoomSide,
    pub port_offset: Scalar,
}

/// Identities minted for a new link.
#[derive(Clone, Copy, Debug, PartialEq, Eq, Structural)]
pub struct LinkIds {
    pub connection_id: ConnectionId,
    pub forward_id: ExitId,
    pub reverse_id: ExitId,
}

/// The ends of a new link.
#[derive(Clone, Copy, Debug, PartialEq, Eq, Structural)]
pub struct LinkEnds {
    pub from: RoomNumber,
    pub from_direction: ExitDirection,
    /// The default anchor of `from_direction`.
    pub from_anchor: Anchor,
    pub to: NewExitTarget,
    pub to_direction: ExitDirection,
    /// The default anchor of `to_direction`.
    pub to_anchor: Anchor,
}

/// The room a new exit leads to.
pub open spec fn target_room(to: NewExitTarget) -> Option<RoomNumber> {
    match to {
        NewExitTarget::Room(number) => Some(number),
        NewExitTarget::NewRoom { room_number, .. } => Some(room_number),
        NewExitTarget::Dangling => None,
    }
}

/// Whether only the forward exit is created.
pub open spec fn is_one_way(to: NewExitTarget, options: NewLinkOptions<Seq<char>>) -> bool {
    options.one_way || to == NewExitTarget::Dangling || options.pair_with is Some
}

/// An automatically placed endpoint.
pub open spec fn pinned(room_number: RoomNumber, anchor: Anchor) -> ConnectionEndpoint {
    ConnectionEndpoint {
        room_number,
        side: anchor.side,
        port_offset: anchor.port_offset,
        port_mode: PortMode::AutoPinned,
    }
}

/// The endpoints of a new connection: the room with the smaller number first.
pub open spec fn link_endpoints(ends: LinkEnds) -> (ConnectionEndpoint, Option<ConnectionEndpoint>) {
    let a = pinned(ends.from, ends.from_anchor);
    match target_room(ends.to) {
        None => (a, None),
        Some(to_room) => {
            let b = pinned(to_room, ends.to_anchor);
            if a.room_number.0 > b.room_number.0 {
                (b, Some(a))
            } else {
                (a, Some(b))
            }
        },
    }
}

/// An exit body with nothing but its identity, its link and its ends.
pub open spec fn plain_exit(
    id: ExitId,
    connection_id: ConnectionId,
    from_direction: ExitDirection,
    to_area_id: Option<AreaId>,
    to_room_number: Option<RoomNumber>,
    to_direction: Option<ExitDirection>,
    command: Option<Seq<char>>,
) -> ExitArgs<Seq<char>> {
    ExitArgs {
        id: Some(id),
        connection_id: Some(connection_id),
        new_connection_id: None,
        is_secret: None,
        from_direction,
        to_area_id,
        to_room_number,
        to_direction,
        path: None,
        is_hidden: false,
        is_closed: false,
        is_locked: false,
        weight: Scalar(0x3f80_0000),
        command,
    }
}

/// The connection a new exit attaches to.
pub open spec fn attached_connection(ids: LinkIds, options: NewLinkOptions<Seq<char>>) -> ConnectionId {
    match options.pair_with {
        Some(id) => id,
        None => ids.connection_id,
    }
}

/// The room a new link creates.
pub open spec fn link_room(to: NewExitTarget) -> Seq<OpView> {
    match to {
        NewExitTarget::NewRoom { room_number, at, level } => seq![
            AreaMutation::UpsertRoom { room_number, body: new_room(at, level) },
        ],
        _ => Seq::empty(),
    }
}

/// The connection a new link creates, unless it joins an existing one.
pub open spec fn link_connection(
    ends: LinkEnds,
    options: NewLinkOptions<Seq<char>>,
    ids: LinkIds,
) -> Seq<OpView> {
    if options.pair_with is Some {
        Seq::empty()
    } else {
        let (endpoint_a, endpoint_b) = link_endpoints(ends);
        seq![
            AreaMutation::CreateConnection {
                body: ConnectionArgs {
                    id: ids.connection_id,
                    endpoint_a,
                    endpoint_b,
                    routing: options.routing,
                    segment_shape: SegmentShape::Direct,
                    corner: CornerStyle::Sharp,
                    route_points: Seq::empty(),
                    dash: options.dash,
                    color: options.color,
                    thickness: options.thickness,
                },
            },
        ]
    }
}

/// The forward exit of a new link.
pub open spec fn link_forward(
    area_id: AreaId,
    ends: LinkEnds,
    options: NewLinkOptions<Seq<char>>,
    ids: LinkIds,
) -> OpView {
    let to_room = target_room(ends.to);
    AreaMutation::CreateExit {
        room_number: ends.from,
        body: plain_exit(
            ids.forward_id,
            attached_connection(ids, options),
            ends.from_direction,
            edits::prior(to_room, area_id),
            to_room,
            edits::prior(to_room, ends.to_direction),
            options.from_command,
        ),
    }
}

/// The reverse exit of a new link, unless it is one-way.
pub open spec fn link_reverse(
    area_id: AreaId,
    ends: LinkEnds,
    options: NewLinkOptions<Seq<char>>,
    ids: LinkIds,
) -> Seq<OpView> {
    if is_one_way(ends.to, options) {
        Seq::empty()
    } else {
        seq![
            AreaMutation::CreateExit {
                room_number: target_room(ends.to)->0,
                body: plain_exit(
                    ids.reverse_id,
                    ids.connection_id,
                    ends.to_direction,
                    Some(area_id),
                    Some(ends.from),
                    Some(ends.from_direction),
                    options.to_command,
                ),
            },
        ]
    }
}

/// What a new link is called.
pub open spec fn link_intent(to: NewExitTarget, options: NewLinkOptions<Seq<char>>) -> Seq<char> {
    if options.pair_with is Some {
        "Pair reciprocal traversal"@
    } else {
        match (to, is_one_way(to, options)) {
            (NewExitTarget::NewRoom { room_number, .. }, false) => "Create room "@
                + text::signed_decimal(room_number.0 as int) + " and bidirectional link"@,
            (NewExitTarget::NewRoom { room_number, .. }, true) => "Create room "@
                + text::signed_decimal(room_number.0 as int) + " and one-way link"@,
            (_, false) => "Create bidirectional link"@,
            (_, true) => "Create one-way link"@,
        }
    }
}

/// The writes that take a new link back: the exit alone when it joined an
/// existing connection, the whole link otherwise, and the room it created.
pub open spec fn link_inverse(
    to: NewExitTarget,
    options: NewLinkOptions<Seq<char>>,
    ids: LinkIds,
) -> Seq<OpView> {
    let head: OpView = if options.pair_with is Some {
        AreaMutation::DeleteExit { exit_id: ids.forward_id }
    } else {
        AreaMutation::DeleteLink { connection_id: ids.connection_id }
    };
    match to {
        NewExitTarget::NewRoom { room_number, .. } => seq![
            head,
            AreaMutation::DeleteRoom { room_number },
        ],
        _ => seq![head],
    }
}

/// The writes of a new link, in order: the room, the connection, the exits.
pub open spec fn link_writes(
    area_id: AreaId,
    ends: LinkEnds,
    options: NewLinkOptions<Seq<char>>,
    ids: LinkIds,
) -> Seq<OpView> {
    link_room(ends.to) + link_connection(ends, options, ids) + seq![
        link_forward(area_id, ends, options, ids),
    ] + link_reverse(area_id, ends, options, ids)
}

/// An exit body with nothing but its identity, its link and its ends.
fn make_exit(
    id: ExitId,
    connection_id: ConnectionId,
    from_direction: ExitDirection,
    to_area_id: Option<AreaId>,
    to_room_number: Option<RoomNumber>,
    to_direction: Option<ExitDirection>,
    command: Option<String>,
) -> (args: ExitArgs)
    ensures
        args@ == plain_exit(
            id,
            connection_id,
            from_direction,
            to_area_id,
            to_room_number,
            to_direction,
            text::opt_text(command),
        ),
{
    ExitArgs {
        id: Some(id),
        connection_id: Some(connection_id),
        new_connection_id: None,
        is_secret: None,
        from_direction,
        to_area_id,
        to_room_number,
        to_direction,
        path: None,
        is_hidden: false,
        is_closed: false,
        is_locked: false,
        weight: Scalar::one(),
        command,
    }
}

/// An automatically placed endpoint.
fn pin(room_number: RoomNumber, anchor: Anchor) -> (endpoint: ConnectionEndpoint)
    ensures
        endpoint == pinned(room_number, anchor),
{
    ConnectionEndpoint {
        room_number,
        side: anchor.side,
        port_offset: anchor.port_offset,
        port_mode: PortMode::AutoPinned,
    }
}

/// A phrase around a room number.
fn around(before: &str, number: RoomNumber, after: &str) -> (phrase: String)
    ensures
        phrase@ == before@ + text::signed_decimal(number.0 as int) + after@,
{
    let digits = signed_decimal_text(number.0 as i64);
    join3(before, digits.as_str(), after)
}

/// Creates a link-tool draft as one compound mutation: room, connection and
/// exits are created together or not at all.
pub fn create_exit_with_options(
    area_id: AreaId,
    ends: LinkEnds,
    options: NewLinkOptions,
    ids: LinkIds,
) -> (command: Command)
    ensures
        command@ == commands::new_command(
            seq![
                edits::batch(
                    area_id,
                    link_writes(area_id, ends, options@, ids),
                    link_intent(ends.to, options@),
                ),
            ],
            seq![
                edits::batch(
                    area_id,
                    link_inverse(ends.to, options@, ids),
                    "Undo link creation"@,
                ),
            ],
        ),
        joining::draws_link(command@, area_id, ends, options@, ids),
        command.wf(),
{
    proof {
        joining::law_a_drawn_link_joins_its_rooms(area_id, ends, options@, ids);
    }
    let one_way = options.one_way || matches!(ends.to, NewExitTarget::Dangling)
        || options.pair_with.is_some();
    let mut operations: Vec<AreaMutation> = Vec::new();
    let to_room = match ends.to {
        NewExitTarget::Room(number) => Some(number),
        NewExitTarget::NewRoom { room_number, at, level } => {
            push_op(
                &mut operations,
                AreaMutation::UpsertRoom { room_number, body: make_room(at, level) },
            );
            Some(room_number)
        },
        NewExitTarget::Dangling => None,
    };
    assert(mutation::ops_view(operations@) =~= link_room(ends.to));
    let ghost rooms = mutation::ops_view(operations@);
    if options.pair_with.is_none() {
        let a = pin(ends.from, ends.from_anchor);
        let (endpoint_a, endpoint_b) = match to_room {
            None => (a, None),
            Some(to_room) => {
                let b = pin(to_room, ends.to_anchor);
                if a.room_number.0 > b.room_number.0 {
                    (b, Some(a))
                } else {
                    (a, Some(b))
                }
            },
        };
        let body = ConnectionArgs {
            id: ids.connection_id,
            endpoint_a,
            endpoint_b,
            routing: options.routing,
            segment_shape: SegmentShape::Direct,
            corner: CornerStyle::Sharp,
            route_points: Vec::new(),
            dash: options.dash,
            color: options.color.clone(),
            thickness: options.thickness,
        };
        assert(body@.route_points =~= Seq::empty());
        push_op(&mut operations, AreaMutation::CreateConnection { body });
    }
    assert(mutation::ops_view(operations@) =~= rooms + link_connection(ends, options@, ids));
    let attached = match options.pair_with {
        Some(id) => id,
        None => ids.connection_id,
    };
    let (to_area, back) = match to_room {
        Some(_) => (Some(area_id), Some(ends.to_direction)),
        None => (None, None),
    };
    push_op(
        &mut operations,
        AreaMutation::CreateExit {
            room_number: ends.from,
            body: make_exit(
                ids.forward_id,
                attached,
                ends.from_direction,
                to_area,
                to_room,
                back,
                clone_opt(&options.from_command),
            ),
        },
    );
    let ghost forward = mutation::ops_view(operations@);
    assert(forward =~= rooms + link_connection(ends, options@, ids) + seq![
        link_forward(area_id, ends, options@, ids),
    ]);
    if !one_way {
        if let Some(to_room) = to_room {
            push_op(
                &mut operations,
                AreaMutation::CreateExit {
                    room_number: to_room,
                    body: make_exit(
                        ids.reverse_id,
                        ids.connection_id,
                        ends.to_direction,
                        Some(area_id),
                        Some(ends.from),
                        Some(ends.from_direction),
                        clone_opt(&options.to_command),
                    ),
                },
            );
        }
    }
    assert(mutation::ops_view(operations@) =~= link_writes(area_id, ends, options@, ids));
    let description = if options.pair_with.is_some() {
        "Pair reciprocal traversal".to_owned()
    } else {
        match ends.to {
            NewExitTarget::NewRoom { room_number, .. } => {
                if one_way {
                    around("Create room ", room_number, " and one-way link")
                } else {
                    around("Create room ", room_number, " and bidirectional link")
                }
            },
            _ => {
                if one_way {
                    "Create one-way link".to_owned()
                } else {
                    "Create bidirectional link".to_owned()
                }
            },
        }
    };
    assert(description@ == link_intent(ends.to, options@));
    let mut inverse = if options.pair_with.is_some() {
        one(AreaMutation::DeleteExit { exit_id: ids.forward_id })
    } else {
        one(AreaMutation::DeleteLink { connection_id: ids.connection_id })
    };
    if let NewExitTarget::NewRoom { room_number, .. } = ends.to {
        push_op(&mut inverse, AreaMutation::DeleteRoom { room_number });
    }
    assert(mutation::ops_view(inverse@) =~= link_inverse(ends.to, options@, ids));
    pair(
        Mutation::AreaBatch { area_id, operations, description },
        Mutation::AreaBatch {
            area_id,
            operations: inverse,
            description: "Undo link creation".to_owned(),
        },
    )
}

} // verus!
