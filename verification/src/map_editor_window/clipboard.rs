//! Copying the selection.

use vstd::prelude::*;

use super::cache::{self, Selection};
use super::deletion::{
    self, holds_connection, holds_room, label_args_from_cache, shape_args_from_cache, sort_properties,
};
use super::links::{self, connection_args_from_cache, members_of};
use super::model::{
    AreaCache, AreaId, AtlasCache, Connection, ConnectionArgs, ConnectionEndpoint, ConnectionId,
    ConnectionRouting, EntityId, ExitCache, ExitDirection, LabelArgs, LabelCache, LabelId, Point, RoomCache,
    RoomNumber, Scalar, SegmentShape, ShapeArgs, ShapeCache, ShapeId,
};
use crate::list::{self, sort_by};
use crate::text::{self, clone_opt};

verus! {

// ===== Clips =====

/// A copied exit.
pub struct ExitClip<T = String> {
    pub from_direction: ExitDirection,
    pub to_area_id: Option<AreaId>,
    pub to_room_number: Option<RoomNumber>,
    pub to_direction: Option<ExitDirection>,
    pub path: Option<T>,
    pub is_hidden: bool,
    pub is_closed: bool,
    pub is_locked: bool,
    pub weight: Scalar,
    pub command: Option<T>,
    pub is_secret: bool,
    /// The destination was withheld; always pastes dangling.
    pub to_unknown: bool,
}

impl View for ExitClip<String> {
    type V = ExitClip<Seq<char>>;

    open spec fn view(&self) -> ExitClip<Seq<char>> {
        ExitClip {
            from_direction: self.from_direction,
            to_area_id: self.to_area_id,
            to_room_number: self.to_room_number,
            to_direction: self.to_direction,
            path: text::opt_text(self.path),
            is_hidden: self.is_hidden,
            is_closed: self.is_closed,
            is_locked: self.is_locked,
            weight: self.weight,
            command: text::opt_text(self.command),
            is_secret: self.is_secret,
            to_unknown: self.to_unknown,
        }
    }
}

/// A copied room: identity, geometry, styling, properties, and the exits it
/// owns.
pub struct RoomClip<T = String, P = Vec<(String, String)>, E = Vec<ExitClip>> {
    /// The room's number in the source area; pasting maps it.
    pub room_number: RoomNumber,
    pub title: T,
    pub description: T,
    pub level: i32,
    pub x: Scalar,
    pub y: Scalar,
    pub color: T,
    pub is_secret: bool,
    /// The room's identity on the game server; rides copy and paste.
    pub external_id: Option<T>,
    /// In order, without secrecy marks.
    pub properties: P,
    pub exits: E,
}

/// A copied room over sequences.
pub type RoomClipView = RoomClip<Seq<char>, Seq<(Seq<char>, Seq<char>)>, Seq<ExitClip<Seq<char>>>>;

/// The view of a list of texts in pairs.
pub open spec fn text_pairs(list: Seq<(String, String)>) -> Seq<(Seq<char>, Seq<char>)> {
    list.map_values(|pair: (String, String)| (pair.0@, pair.1@))
}

/// The views of a list of copied exits.
pub open spec fn exit_clips(list: Seq<ExitClip>) -> Seq<ExitClip<Seq<char>>> {
    list.map_values(|clip: ExitClip| clip@)
}

impl View for RoomClip<String, Vec<(String, String)>, Vec<ExitClip>> {
    type V = RoomClipView;

    open spec fn view(&self) -> RoomClipView {
        RoomClip {
            room_number: self.room_number,
            title: self.title@,
            description: self.description@,
            level: self.level,
            x: self.x,
            y: self.y,
            color: self.color@,
            is_secret: self.is_secret,
            external_id: text::opt_text(self.external_id),
            properties: text_pairs(self.properties@),
            exits: exit_clips(self.exits@),
        }
    }
}

/// A copied connection with the exits that share it. Its route points are
/// relative to [`EntityClipboard::connection_origin`].
pub struct ConnectionClip<B = ConnectionArgs, M = Vec<(RoomNumber, ExitClip)>> {
    pub body: B,
    pub members: M,
}

/// A copied connection over sequences.
pub type ConnectionClipView = ConnectionClip<
    ConnectionArgs<Seq<char>, Seq<Point>>,
    Seq<(RoomNumber, ExitClip<Seq<char>>)>,
>;

/// The view of a copied exit with its room.
pub open spec fn member_clip(member: (RoomNumber, ExitClip)) -> (RoomNumber, ExitClip<Seq<char>>) {
    (member.0, member.1@)
}

/// The views of a list of copied exits with their rooms.
pub open spec fn member_clips(
    list: Seq<(RoomNumber, ExitClip)>,
) -> Seq<(RoomNumber, ExitClip<Seq<char>>)> {
    list.map_values(|member: (RoomNumber, ExitClip)| member_clip(member))
}

impl View for ConnectionClip<ConnectionArgs, Vec<(RoomNumber, ExitClip)>> {
    type V = ConnectionClipView;

    open spec fn view(&self) -> ConnectionClipView {
        ConnectionClip { body: self.body@, members: member_clips(self.members@) }
    }
}

/// Copied entities, held between copy and paste.
pub struct EntityClipboard<
    R = Vec<RoomClip>,
    C = Vec<ConnectionClip>,
    L = Vec<LabelArgs>,
    S = Vec<ShapeArgs>,
> {
    /// The area the snapshot came from; decides between same-area pasting (fresh
    /// room numbers, cascading offset) and cross-area pasting (numbers kept
    /// where vacant, exact positions).
    pub source_area_id: Option<AreaId>,
    pub rooms: R,
    pub connections: C,
    pub connection_origin: Option<Point>,
    pub labels: L,
    pub shapes: S,
}

/// Copied entities over sequences.
pub type ClipboardView = EntityClipboard<
    Seq<RoomClipView>,
    Seq<ConnectionClipView>,
    Seq<LabelArgs<Seq<char>>>,
    Seq<ShapeArgs<Seq<char>>>,
>;

/// The views of a list of copied rooms.
pub open spec fn room_clips(list: Seq<RoomClip>) -> Seq<RoomClipView> {
    list.map_values(|clip: RoomClip| clip@)
}

/// The views of a list of copied connections.
pub open spec fn connection_clips(list: Seq<ConnectionClip>) -> Seq<ConnectionClipView> {
    list.map_values(|clip: ConnectionClip| clip@)
}

/// The views of a list of label bodies.
pub open spec fn label_bodies(list: Seq<LabelArgs>) -> Seq<LabelArgs<Seq<char>>> {
    list.map_values(|args: LabelArgs| args@)
}

/// The views of a list of shape bodies.
pub open spec fn shape_bodies(list: Seq<ShapeArgs>) -> Seq<ShapeArgs<Seq<char>>> {
    list.map_values(|args: ShapeArgs| args@)
}

impl View for EntityClipboard<Vec<RoomClip>, Vec<ConnectionClip>, Vec<LabelArgs>, Vec<ShapeArgs>> {
    type V = ClipboardView;

    open spec fn view(&self) -> ClipboardView {
        EntityClipboard {
            source_area_id: self.source_area_id,
            rooms: room_clips(self.rooms@),
            connections: connection_clips(self.connections@),
            connection_origin: self.connection_origin,
            labels: label_bodies(self.labels@),
            shapes: shape_bodies(self.shapes@),
        }
    }
}

/// Nothing copied.
pub open spec fn empty_clipboard() -> ClipboardView {
    EntityClipboard {
        source_area_id: None,
        rooms: Seq::empty(),
        connections: Seq::empty(),
        connection_origin: None,
        labels: Seq::empty(),
        shapes: Seq::empty(),
    }
}

/// Whether nothing is copied.
pub open spec fn holds_nothing(clipboard: ClipboardView) -> bool {
    clipboard.rooms.len() == 0 && clipboard.connections.len() == 0 && clipboard.labels.len() == 0
        && clipboard.shapes.len() == 0
}

impl EntityClipboard {
    /// Nothing copied.
    pub fn new() -> (clipboard: Self)
        ensures
            clipboard@ == empty_clipboard(),
    {
        let clipboard: EntityClipboard = EntityClipboard {
            source_area_id: None,
            rooms: Vec::new(),
            connections: Vec::new(),
            connection_origin: None,
            labels: Vec::new(),
            shapes: Vec::new(),
        };
        proof {
            assert(clipboard@.rooms =~= Seq::empty());
            assert(clipboard@.connections =~= Seq::empty());
            assert(clipboard@.labels =~= Seq::empty());
            assert(clipboard@.shapes =~= Seq::empty());
        }
        clipboard
    }

    pub fn is_empty(&self) -> (empty: bool)
        ensures
            empty == holds_nothing(self@),
    {
        self.rooms.len() == 0 && self.connections.len() == 0 && self.labels.len() == 0
            && self.shapes.len() == 0
    }
}

// ===== What is copied =====

/// The copy of an exit.
pub open spec fn clipped_exit(exit: ExitCache) -> ExitClip<Seq<char>> {
    ExitClip {
        from_direction: exit.from_direction,
        to_area_id: exit.to_area_id,
        to_room_number: exit.to_room_number,
        to_direction: exit.to_direction,
        path: text::opt_text(exit.path),
        is_hidden: exit.is_hidden,
        is_closed: exit.is_closed,
        is_locked: exit.is_locked,
        weight: exit.weight,
        command: text::opt_text(exit.command),
        is_secret: exit.is_secret,
        to_unknown: exit.to_unknown,
    }
}

/// The copy of an exit that leaves the copied rooms: it leads nowhere.
pub open spec fn severed_exit(exit: ExitCache) -> ExitClip<Seq<char>> {
    ExitClip {
        to_area_id: None,
        to_room_number: None,
        to_direction: None,
        to_unknown: false,
        ..clipped_exit(exit)
    }
}

/// The copy of an exit.
fn clip_exit(exit: &ExitCache) -> (clip: ExitClip)
    ensures
        clip@ == clipped_exit(*exit),
{
    ExitClip {
        from_direction: exit.from_direction,
        to_area_id: exit.to_area_id,
        to_room_number: exit.to_room_number,
        to_direction: exit.to_direction,
        path: clone_opt(&exit.path),
        is_hidden: exit.is_hidden,
        is_closed: exit.is_closed,
        is_locked: exit.is_locked,
        weight: exit.weight,
        command: clone_opt(&exit.command),
        is_secret: exit.is_secret,
        to_unknown: exit.to_unknown,
    }
}

/// The copy of a room. Its exits are copied with their connections.
pub open spec fn clipped_room(room: RoomCache) -> RoomClipView {
    RoomClip {
        room_number: room.room_number,
        title: room.title@,
        description: room.description@,
        level: room.level,
        x: room.x,
        y: room.y,
        color: room.color@,
        is_secret: room.is_secret,
        external_id: text::opt_text(room.external_id),
        properties: deletion::sorted_pairs(room.properties@),
        exits: Seq::empty(),
    }
}

/// The copy of a room.
fn clip_room(room: &RoomCache) -> (clip: RoomClip)
    ensures
        clip@ == clipped_room(*room),
{
    let sorted = sort_properties(&room.properties);
    let ghost pairs = deletion::pairs_view(sorted@);
    let mut properties: Vec<(String, String)> = Vec::new();
    for i in 0..sorted.len()
        invariant
            pairs == deletion::pairs_view(sorted@),
            text_pairs(properties@) == pairs.take(i as int),
    {
        let ghost before = properties@;
        let pair = (sorted[i].name.clone(), sorted[i].value.clone());
        properties.push(pair);
        proof {
            assert(text_pairs(properties@) =~= text_pairs(before).push((pair.0@, pair.1@)));
            assert(pairs.take(i + 1) =~= pairs.take(i as int).push(pairs[i as int]));
        }
    }
    assert(pairs.take(sorted.len() as int) =~= pairs);
    let clip: RoomClip = RoomClip {
        room_number: room.room_number,
        title: room.title.clone(),
        description: room.description.clone(),
        level: room.level,
        x: room.x,
        y: room.y,
        color: room.color.clone(),
        is_secret: room.is_secret,
        external_id: clone_opt(&room.external_id),
        properties,
        exits: Vec::new(),
    };
    assert(clip@.exits =~= Seq::empty());
    clip
}

/// The order of room numbers.
pub open spec fn number_before(a: RoomNumber, b: RoomNumber) -> bool {
    a.0 < b.0
}

/// The copies of the selected rooms, by number.
pub open spec fn clipped_rooms(area: AreaCache, rooms: Seq<RoomNumber>) -> Seq<RoomClipView> {
    list::collect(
        list::in_order(rooms, |a: RoomNumber, b: RoomNumber| number_before(a, b)),
        |number: RoomNumber|
            match area.room(number) {
                Some(room) => seq![clipped_room(room)],
                None => Seq::empty(),
            },
    )
}

/// Copies the selected rooms.
fn clip_rooms(area: &AreaCache, rooms: Vec<RoomNumber>) -> (clips: Vec<RoomClip>)
    ensures
        room_clips(clips@) == clipped_rooms(*area, rooms@),
{
    let less = |a: &RoomNumber, b: &RoomNumber| -> (r: bool)
        ensures
            r == number_before(*a, *b),
    {
        a.0 < b.0
    };
    let sorted = sort_by(rooms, less, Ghost(|a: RoomNumber, b: RoomNumber| number_before(a, b)));
    let ghost piece = |number: RoomNumber|
        match area.room(number) {
            Some(room) => seq![clipped_room(room)],
            None => Seq::empty(),
        };
    let mut clips: Vec<RoomClip> = Vec::new();
    proof {
        assert(sorted@.take(0) =~= Seq::empty());
        assert(room_clips(clips@) =~= list::collect(sorted@.take(0), piece));
    }
    for i in 0..sorted.len()
        invariant
            piece == (|number: RoomNumber|
                match area.room(number) {
                    Some(room) => seq![clipped_room(room)],
                    None => Seq::empty(),
                }),
            room_clips(clips@) == list::collect(sorted@.take(i as int), piece),
    {
        let ghost done = room_clips(clips@);
        let ghost before = clips@;
        proof {
            list::lemma_collect_step(sorted@, piece, i as int);
        }
        if let Some(room) = area.get_room(&sorted[i]) {
            let clip = clip_room(room);
            clips.push(clip);
            assert(room_clips(clips@) =~= room_clips(before).push(clip@));
            assert(room_clips(clips@) =~= done + seq![clipped_room(*room)]);
        } else {
            assert(done =~= done + Seq::empty());
        }
    }
    assert(sorted@.take(sorted.len() as int) =~= sorted@);
    clips
}

/// Whether a connection is copied whole: it is selected itself, or both its ends
/// are.
pub open spec fn copied_whole(
    connection: Connection,
    selected: Seq<ConnectionId>,
    rooms: Seq<RoomNumber>,
) -> bool {
    selected.contains(connection.id) || (connection.endpoint_b matches Some(endpoint_b)
        && rooms.contains(connection.endpoint_a.room_number) && rooms.contains(endpoint_b.room_number))
}

/// Whether a connection is copied whole.
fn copies_whole(
    connection: &Connection,
    selected: &Vec<ConnectionId>,
    rooms: &Vec<RoomNumber>,
) -> (whole: bool)
    ensures
        whole == copied_whole(*connection, selected@, rooms@),
{
    if holds_connection(selected, connection.id) {
        return true;
    }
    match connection.endpoint_b {
        Some(endpoint_b) => holds_room(rooms, connection.endpoint_a.room_number) && holds_room(
            rooms,
            endpoint_b.room_number,
        ),
        None => false,
    }
}

/// The connections copied whole, in cache order.
pub open spec fn whole_connections(
    area: AreaCache,
    selected: Seq<ConnectionId>,
    rooms: Seq<RoomNumber>,
) -> Seq<Connection> {
    list::collect(
        area.connections@,
        |connection: Connection|
            if copied_whole(connection, selected, rooms) {
                seq![connection]
            } else {
                Seq::empty()
            },
    )
}

/// The order of copied exits by room.
pub open spec fn clip_before(
    a: (RoomNumber, ExitClip<Seq<char>>),
    b: (RoomNumber, ExitClip<Seq<char>>),
) -> bool {
    a.0.0 < b.0.0
}

/// The copies of the exits that share a connection, by room.
pub open spec fn clipped_members(
    area: AreaCache,
    id: ConnectionId,
) -> Seq<(RoomNumber, ExitClip<Seq<char>>)> {
    list::in_order(
        links::members(area, id).map_values(
            |member: (RoomNumber, ExitCache)| (member.0, clipped_exit(member.1)),
        ),
        |a: (RoomNumber, ExitClip<Seq<char>>), b: (RoomNumber, ExitClip<Seq<char>>)|
            clip_before(a, b),
    )
}

/// Whether one copied exit comes before another by room.
fn member_clip_before(a: &(RoomNumber, ExitClip), b: &(RoomNumber, ExitClip)) -> (before: bool)
    ensures
        before == clip_before(member_clip(*a), member_clip(*b)),
{
    a.0.0 < b.0.0
}

/// Copies the exits that share a connection.
fn clip_members(area: &AreaCache, id: ConnectionId) -> (clips: Vec<(RoomNumber, ExitClip)>)
    ensures
        member_clips(clips@) == clipped_members(*area, id),
{
    let found = members_of(area, id);
    let ghost all = links::members(*area, id);
    let ghost made = |member: (RoomNumber, ExitCache)| (member.0, clipped_exit(member.1));
    let mut clips: Vec<(RoomNumber, ExitClip)> = Vec::new();
    assert(member_clips(clips@) =~= all.take(0).map_values(made));
    for i in 0..found.len()
        invariant
            all == links::members_view(found@),
            made == (|member: (RoomNumber, ExitCache)| (member.0, clipped_exit(member.1))),
            member_clips(clips@) == all.take(i as int).map_values(made),
    {
        let ghost before = clips@;
        let clip = (found[i].0, clip_exit(found[i].1));
        clips.push(clip);
        proof {
            assert(all[i as int] == (found@[i as int].0, *found@[i as int].1));
            assert(member_clips(clips@) =~= member_clips(before).push(member_clip(clip)));
            assert(all.take(i + 1).map_values(made) =~= all.take(i as int).map_values(made).push(
                made(all[i as int]),
            ));
        }
    }
    assert(all.take(found.len() as int) =~= all);
    let ghost by_view = |a: (RoomNumber, ExitClip), b: (RoomNumber, ExitClip)|
        clip_before(member_clip(a), member_clip(b));
    proof {
        list::lemma_in_order_map(
            clips@,
            |member: (RoomNumber, ExitClip)| member_clip(member),
            by_view,
            |a: (RoomNumber, ExitClip<Seq<char>>), b: (RoomNumber, ExitClip<Seq<char>>)|
                clip_before(a, b),
        );
    }
    let less = |a: &(RoomNumber, ExitClip), b: &(RoomNumber, ExitClip)| -> (r: bool)
        ensures
            r == clip_before(member_clip(*a), member_clip(*b)),
    {
        member_clip_before(a, b)
    };
    sort_by(clips, less, Ghost(by_view))
}

/// The copy of a whole connection, its route points given.
pub open spec fn clipped_whole(
    area: AreaCache,
    connection: Connection,
    route: Seq<Point>,
) -> ConnectionClipView {
    ConnectionClip {
        body: ConnectionArgs { route_points: route, ..links::connection_args(connection) },
        members: clipped_members(area, connection.id),
    }
}

/// The routing of a copy that lost its route.
pub open spec fn unrouted(routing: ConnectionRouting) -> ConnectionRouting {
    match routing {
        ConnectionRouting::Manual | ConnectionRouting::Automatic => ConnectionRouting::Simple,
        _ => routing,
    }
}

/// A connection body without its route.
pub open spec fn without_route(
    body: ConnectionArgs<Seq<char>, Seq<Point>>,
) -> ConnectionArgs<Seq<char>, Seq<Point>> {
    ConnectionArgs {
        route_points: Seq::empty(),
        routing: unrouted(body.routing),
        segment_shape: SegmentShape::Direct,
        ..body
    }
}

/// A connection body without its route.
pub(crate) fn drop_route(body: ConnectionArgs) -> (r: ConnectionArgs)
    ensures
        r@ == without_route(body@),
{
    let mut body = body;
    body.route_points = Vec::new();
    body.routing = match body.routing {
        ConnectionRouting::Manual | ConnectionRouting::Automatic => ConnectionRouting::Simple,
        other => other,
    };
    body.segment_shape = SegmentShape::Direct;
    assert(body@.route_points =~= Seq::empty());
    body
}

/// The endpoint of a connection at a room.
pub open spec fn endpoint_at(connection: Connection, number: RoomNumber) -> Option<ConnectionEndpoint> {
    if connection.endpoint_a.room_number == number {
        Some(connection.endpoint_a)
    } else {
        match connection.endpoint_b {
            Some(endpoint_b) => if endpoint_b.room_number == number {
                Some(endpoint_b)
            } else {
                None
            },
            None => None,
        }
    }
}

/// The first exit of a connection that leaves a selected room.
pub open spec fn boundary_member(
    area: AreaCache,
    id: ConnectionId,
    rooms: Seq<RoomNumber>,
) -> Option<(RoomNumber, ExitCache)> {
    list::first(
        links::members(area, id),
        |member: (RoomNumber, ExitCache)| rooms.contains(member.0),
    )
}

/// The copy of a connection that leaves the selected rooms, as a dangling
/// one-way link; none when no exit of it leaves a selected room.
pub open spec fn clipped_boundary(
    area: AreaCache,
    connection: Connection,
    rooms: Seq<RoomNumber>,
) -> Seq<ConnectionClipView> {
    match boundary_member(area, connection.id, rooms) {
        None => Seq::empty(),
        Some((from_room, exit)) => match endpoint_at(connection, from_room) {
            None => Seq::empty(),
            Some(endpoint) => seq![
                ConnectionClip {
                    body: without_route(
                        ConnectionArgs {
                            endpoint_a: endpoint,
                            endpoint_b: None,
                            ..links::connection_args(connection)
                        },
                    ),
                    members: seq![(from_room, severed_exit(exit))],
                },
            ],
        },
    }
}

/// The copies of the connections that leave the selected rooms, in cache order.
pub open spec fn clipped_boundaries(
    area: AreaCache,
    selected: Seq<ConnectionId>,
    rooms: Seq<RoomNumber>,
) -> Seq<ConnectionClipView> {
    list::collect(
        area.connections@,
        |connection: Connection|
            if copied_whole(connection, selected, rooms) {
                Seq::empty()
            } else {
                clipped_boundary(area, connection, rooms)
            },
    )
}

/// One copied connection added to a list.
fn push_connection(clips: &mut Vec<ConnectionClip>, clip: ConnectionClip)
    ensures
        connection_clips(final(clips)@) == connection_clips(old(clips)@).push(clip@),
{
    let ghost before = clips@;
    clips.push(clip);
    assert(connection_clips(clips@) =~= connection_clips(before).push(clip@));
}

/// The first exit of a connection that leaves a selected room.
fn find_boundary_member<'a>(
    area: &'a AreaCache,
    id: ConnectionId,
    rooms: &Vec<RoomNumber>,
) -> (found: Option<(RoomNumber, &'a ExitCache)>)
    ensures
        match found {
            Some((number, exit)) => boundary_member(*area, id, rooms@) == Some((number, *exit)),
            None => boundary_member(*area, id, rooms@) is None,
        },
{
    let ghost matching = |member: (RoomNumber, ExitCache)| rooms@.contains(member.0);
    let list = members_of(area, id);
    let ghost all = links::members(*area, id);
    for i in 0..list.len()
        invariant
            all == links::members(*area, id),
            all == links::members_view(list@),
            matching == (|member: (RoomNumber, ExitCache)| rooms@.contains(member.0)),
            forall|j: int| 0 <= j < i ==> !matching(#[trigger] all[j]),
    {
        assert(all[i as int] == (list@[i as int].0, *list@[i as int].1));
        if holds_room(rooms, list[i].0) {
            proof {
                list::lemma_first(all, matching, i as int);
            }
            return Some(list[i]);
        }
    }
    assert(!exists|i: int| list::is_first(all, matching, i));
    None
}

/// Copies the connections that leave the selected rooms.
fn push_boundaries(
    clips: &mut Vec<ConnectionClip>,
    area: &AreaCache,
    selected: &Vec<ConnectionId>,
    rooms: &Vec<RoomNumber>,
)
    ensures
        connection_clips(final(clips)@) == connection_clips(old(clips)@) + clipped_boundaries(
            *area,
            selected@,
            rooms@,
        ),
{
    let ghost before = connection_clips(clips@);
    let ghost piece = |connection: Connection|
        if copied_whole(connection, selected@, rooms@) {
            Seq::empty()
        } else {
            clipped_boundary(*area, connection, rooms@)
        };
    proof {
        assert(area.connections@.take(0) =~= Seq::empty());
        assert(before =~= before + list::collect(area.connections@.take(0), piece));
    }
    for i in 0..area.connections.len()
        invariant
            piece == (|connection: Connection|
                if copied_whole(connection, selected@, rooms@) {
                    Seq::empty()
                } else {
                    clipped_boundary(*area, connection, rooms@)
                }),
            connection_clips(clips@) == before + list::collect(
                area.connections@.take(i as int),
                piece,
            ),
    {
        let connection = &area.connections[i];
        let ghost done = list::collect(area.connections@.take(i as int), piece);
        proof {
            list::lemma_collect_step(area.connections@, piece, i as int);
        }
        if !copies_whole(connection, selected, rooms) {
            if let Some((from_room, exit)) = find_boundary_member(area, connection.id, rooms) {
                let endpoint = if connection.endpoint_a.room_number == from_room {
                    Some(connection.endpoint_a)
                } else {
                    match connection.endpoint_b {
                        Some(endpoint_b) => if endpoint_b.room_number == from_room {
                            Some(endpoint_b)
                        } else {
                            None
                        },
                        None => None,
                    }
                };
                if let Some(endpoint) = endpoint {
                    let mut body = connection_args_from_cache(connection);
                    body.endpoint_a = endpoint;
                    body.endpoint_b = None;
                    let mut severed = clip_exit(exit);
                    severed.to_area_id = None;
                    severed.to_room_number = None;
                    severed.to_direction = None;
                    severed.to_unknown = false;
                    let mut members: Vec<(RoomNumber, ExitClip)> = Vec::new();
                    members.push((from_room, severed));
                    assert(member_clips(members@) =~= seq![(from_room, severed_exit(*exit))]);
                    push_connection(clips, ConnectionClip { body: drop_route(body), members });
                }
            }
        }
        assert(connection_clips(clips@) =~= before + (done + piece(*connection)));
    }
    assert(area.connections@.take(area.connections.len() as int) =~= area.connections@);
}

/// The copies of the connections copied whole, with their routes given in the
/// same order.
pub open spec fn clipped_wholes(
    area: AreaCache,
    list: Seq<Connection>,
    routes: Seq<Seq<Point>>,
) -> Seq<ConnectionClipView> {
    Seq::new(list.len(), |i: int| clipped_whole(area, list[i], routes[i]))
}

/// `list` is the routes of the connections, each point seen from `origin` (by
/// `minus`) when there is one.
pub open spec fn routes_from<F: Fn(Point, Point) -> Point>(
    minus: F,
    origin: Option<Point>,
    list: Seq<Connection>,
    routes: Seq<Seq<Point>>,
) -> bool {
    &&& routes.len() == list.len()
    &&& forall|i: int|
        0 <= i < list.len() ==> route_from(minus, origin, list[i].route_points@, #[trigger] routes[i])
}

/// `route` is `points` seen from `origin` when there is one.
pub open spec fn route_from<F: Fn(Point, Point) -> Point>(
    minus: F,
    origin: Option<Point>,
    points: Seq<Point>,
    route: Seq<Point>,
) -> bool {
    match origin {
        None => route == points,
        Some(origin) => route.len() == points.len() && forall|k: int|
            0 <= k < points.len() ==> minus.ensures((points[k], origin), #[trigger] route[k]),
    }
}

/// The positions of the cached rooms among `rooms`, in order.
pub open spec fn room_points(area: AreaCache, rooms: Seq<RoomNumber>) -> Seq<Point> {
    list::collect(
        rooms,
        |number: RoomNumber|
            match area.room(number) {
                Some(room) => seq![Point { x: room.x, y: room.y }],
                None => Seq::empty(),
            },
    )
}

/// `chain` holds the points folded together by `least` up to each place.
pub open spec fn chain_of<F: Fn(Point, Point) -> Point>(
    least: F,
    points: Seq<Point>,
    chain: Seq<Point>,
) -> bool {
    &&& chain.len() == points.len()
    &&& points.len() > 0
    &&& chain[0] == points[0]
    &&& forall|k: int|
        0 < k < points.len() ==> least.ensures((chain[k - 1], points[k]), #[trigger] chain[k])
}

/// `corner` is the points folded together by `least`, from the first on.
pub open spec fn folded_by<F: Fn(Point, Point) -> Point>(
    least: F,
    points: Seq<Point>,
    corner: Point,
) -> bool {
    exists|chain: Seq<Point>| #[trigger] chain_of(least, points, chain) && chain.last() == corner
}

/// `origin` is the points folded together by `least`, if there are any.
pub open spec fn is_origin<F: Fn(Point, Point) -> Point>(
    least: F,
    points: Seq<Point>,
    origin: Option<Point>,
) -> bool {
    match origin {
        None => points.len() == 0,
        Some(corner) => folded_by(least, points, corner),
    }
}

/// The corner of the cached rooms among `rooms`.
fn find_origin<F: Fn(Point, Point) -> Point>(
    area: &AreaCache,
    rooms: &Vec<RoomNumber>,
    least: &F,
) -> (origin: Option<Point>)
    requires
        forall|a: Point, b: Point| #[trigger] least.requires((a, b)),
    ensures
        is_origin(*least, room_points(*area, rooms@), origin),
{
    let ghost piece = |number: RoomNumber|
        match area.room(number) {
            Some(room) => seq![Point { x: room.x, y: room.y }],
            None => Seq::empty(),
        };
    let mut origin: Option<Point> = None;
    assert(rooms@.take(0) =~= Seq::empty());
    for i in 0..rooms.len()
        invariant
            forall|a: Point, b: Point| #[trigger] least.requires((a, b)),
            piece == (|number: RoomNumber|
                match area.room(number) {
                    Some(room) => seq![Point { x: room.x, y: room.y }],
                    None => Seq::empty(),
                }),
            is_origin(*least, list::collect(rooms@.take(i as int), piece), origin),
    {
        let ghost done = list::collect(rooms@.take(i as int), piece);
        let ghost next = list::collect(rooms@.take(i + 1), piece);
        proof {
            list::lemma_collect_step(rooms@, piece, i as int);
        }
        if let Some(room) = area.get_room(&rooms[i]) {
            let at = Point { x: room.x, y: room.y };
            assert(next =~= done.push(at));
            origin = match origin {
                None => {
                    assert(chain_of(*least, next, seq![at]));
                    Some(at)
                },
                Some(before) => {
                    let corner = least(before, at);
                    proof {
                        let chain = choose|chain: Seq<Point>| #[trigger]
                            chain_of(*least, done, chain) && chain.last() == before;
                        let longer = chain.push(corner);
                        assert forall|k: int| 0 < k < next.len() implies least.ensures(
                            (longer[k - 1], next[k]),
                            #[trigger] longer[k],
                        ) by {
                            if k < done.len() {
                                assert(longer[k] == chain[k]);
                            }
                        }
                        assert(chain_of(*least, next, longer));
                    }
                    Some(corner)
                },
            };
        } else {
            assert(next =~= done);
        }
    }
    assert(rooms@.take(rooms.len() as int) =~= rooms@);
    origin
}

/// A route seen from `origin` when there is one.
fn relative_route<F: Fn(Point, Point) -> Point>(
    points: &Vec<Point>,
    origin: Option<Point>,
    minus: &F,
) -> (route: Vec<Point>)
    requires
        forall|a: Point, b: Point| #[trigger] minus.requires((a, b)),
    ensures
        route_from(*minus, origin, points@, route@),
{
    match origin {
        None => super::model::clone_points(points),
        Some(origin) => {
            let mut route: Vec<Point> = Vec::new();
            for k in 0..points.len()
                invariant
                    forall|a: Point, b: Point| #[trigger] minus.requires((a, b)),
                    route@.len() == k,
                    forall|j: int|
                        0 <= j < k ==> minus.ensures((points@[j], origin), #[trigger] route@[j]),
            {
                let seen = minus(points[k], origin);
                route.push(seen);
            }
            route
        },
    }
}

/// What copies of whole connections hold of routes.
pub open spec fn wholes_from<F: Fn(Point, Point) -> Point>(
    minus: F,
    origin: Option<Point>,
    area: AreaCache,
    list: Seq<Connection>,
    clips: Seq<ConnectionClipView>,
    routes: Seq<Seq<Point>>,
) -> bool {
    &&& routes_from(minus, origin, list, routes)
    &&& clips == clipped_wholes(area, list, routes)
}

/// Copies the connections copied whole.
fn clip_wholes<F: Fn(Point, Point) -> Point>(
    area: &AreaCache,
    selected: &Vec<ConnectionId>,
    rooms: &Vec<RoomNumber>,
    origin: Option<Point>,
    minus: &F,
) -> (clips: Vec<ConnectionClip>)
    requires
        forall|a: Point, b: Point| #[trigger] minus.requires((a, b)),
    ensures
        exists|routes: Seq<Seq<Point>>| #[trigger]
            wholes_from(
                *minus,
                origin,
                *area,
                whole_connections(*area, selected@, rooms@),
                connection_clips(clips@),
                routes,
            ),
{
    let ghost piece = |connection: Connection|
        if copied_whole(connection, selected@, rooms@) {
            seq![connection]
        } else {
            Seq::empty()
        };
    let mut clips: Vec<ConnectionClip> = Vec::new();
    let ghost mut routes: Seq<Seq<Point>> = Seq::empty();
    proof {
        assert(area.connections@.take(0) =~= Seq::empty());
        assert(connection_clips(clips@) =~= clipped_wholes(
            *area,
            list::collect(area.connections@.take(0), piece),
            routes,
        ));
    }
    for i in 0..area.connections.len()
        invariant
            forall|a: Point, b: Point| #[trigger] minus.requires((a, b)),
            piece == (|connection: Connection|
                if copied_whole(connection, selected@, rooms@) {
                    seq![connection]
                } else {
                    Seq::empty()
                }),
            wholes_from(
                *minus,
                origin,
                *area,
                list::collect(area.connections@.take(i as int), piece),
                connection_clips(clips@),
                routes,
            ),
    {
        let connection = &area.connections[i];
        let ghost done = list::collect(area.connections@.take(i as int), piece);
        let ghost next = list::collect(area.connections@.take(i + 1), piece);
        proof {
            list::lemma_collect_step(area.connections@, piece, i as int);
        }
        if copies_whole(connection, selected, rooms) {
            let route = relative_route(&connection.route_points, origin, minus);
            let ghost held = routes;
            proof {
                assert(next =~= done.push(*connection));
                routes = routes.push(route@);
            }
            let mut body = connection_args_from_cache(connection);
            body.route_points = route;
            let members = clip_members(area, connection.id);
            push_connection(&mut clips, ConnectionClip { body, members });
            proof {
                assert forall|k: int| 0 <= k < next.len() implies route_from(
                    *minus,
                    origin,
                    next[k].route_points@,
                    #[trigger] routes[k],
                ) by {
                    if k < done.len() {
                        assert(routes[k] == held[k] && next[k] == done[k]);
                    }
                }
                assert(connection_clips(clips@) =~= clipped_wholes(*area, next, routes));
            }
        } else {
            assert(next =~= done);
        }
    }
    assert(area.connections@.take(area.connections.len() as int) =~= area.connections@);
    assert(wholes_from(
        *minus,
        origin,
        *area,
        whole_connections(*area, selected@, rooms@),
        connection_clips(clips@),
        routes,
    ));
    clips
}

/// The snapshot of a selection, given the corner of its rooms and the routes
/// seen from there. Rooms and connections are copied only when `allow_rooms`.
pub open spec fn snapshot(
    area_id: AreaId,
    area: AreaCache,
    selection: Seq<EntityId>,
    allow_rooms: bool,
    include_boundary_links: bool,
    origin: Option<Point>,
    routes: Seq<Seq<Point>>,
) -> ClipboardView {
    let rooms = cache::selected_rooms(selection);
    let selected = cache::selected_connections(selection);
    EntityClipboard {
        source_area_id: Some(area_id),
        rooms: if allow_rooms {
            clipped_rooms(area, rooms)
        } else {
            Seq::empty()
        },
        connections: if allow_rooms {
            clipped_wholes(area, whole_connections(area, selected, rooms), routes) + (
            if include_boundary_links {
                clipped_boundaries(area, selected, rooms)
            } else {
                Seq::empty()
            })
        } else {
            Seq::empty()
        },
        connection_origin: origin,
        labels: deletion::cached_labels(area, cache::selected_labels(selection)).map_values(
            |label: LabelCache| deletion::label_args(label, None),
        ),
        shapes: deletion::cached_shapes(area, cache::selected_shapes(selection)).map_values(
            |shape: ShapeCache| deletion::shape_args(shape, None),
        ),
    }
}

/// `clipboard` is a snapshot whose corner and routes were found by `least` and
/// `minus`.
pub open spec fn snapshot_by<F: Fn(Point, Point) -> Point, G: Fn(Point, Point) -> Point>(
    least: F,
    minus: G,
    area_id: AreaId,
    area: AreaCache,
    selection: Seq<EntityId>,
    allow_rooms: bool,
    include_boundary_links: bool,
    clipboard: ClipboardView,
    routes: Seq<Seq<Point>>,
) -> bool {
    let rooms = cache::selected_rooms(selection);
    let origin = clipboard.connection_origin;
    &&& is_origin(least, room_points(area, rooms), origin)
    &&& allow_rooms ==> routes_from(
        minus,
        origin,
        whole_connections(area, cache::selected_connections(selection), rooms),
        routes,
    )
    &&& clipboard == snapshot(
        area_id,
        area,
        selection,
        allow_rooms,
        include_boundary_links,
        origin,
        routes,
    )
}

/// Copies the selected labels.
fn clip_labels(area: &AreaCache, labels: &Vec<LabelId>) -> (bodies: Vec<LabelArgs>)
    ensures
        label_bodies(bodies@) == deletion::cached_labels(*area, labels@).map_values(
            |label: LabelCache| deletion::label_args(label, None),
        ),
{
    let ghost made = |label: LabelCache| deletion::label_args(label, None);
    let ghost piece = |id: LabelId|
        match area.label(id) {
            Some(label) => seq![label],
            None => Seq::empty(),
        };
    let mut bodies: Vec<LabelArgs> = Vec::new();
    proof {
        assert(labels@.take(0) =~= Seq::empty());
        assert(label_bodies(bodies@) =~= list::collect(labels@.take(0), piece).map_values(made));
    }
    for i in 0..labels.len()
        invariant
            made == (|label: LabelCache| deletion::label_args(label, None)),
            piece == (|id: LabelId|
                match area.label(id) {
                    Some(label) => seq![label],
                    None => Seq::empty(),
                }),
            label_bodies(bodies@) == list::collect(labels@.take(i as int), piece).map_values(made),
    {
        let ghost done = list::collect(labels@.take(i as int), piece);
        let ghost next = list::collect(labels@.take(i + 1), piece);
        let ghost before = bodies@;
        proof {
            list::lemma_collect_step(labels@, piece, i as int);
        }
        if let Some(label) = area.get_label(&labels[i]) {
            let body = label_args_from_cache(label, None);
            bodies.push(body);
            proof {
                assert(next =~= done.push(*label));
                assert(label_bodies(bodies@) =~= label_bodies(before).push(body@));
                assert(next.map_values(made) =~= done.map_values(made).push(made(*label)));
            }
        } else {
            assert(next =~= done);
        }
    }
    assert(labels@.take(labels.len() as int) =~= labels@);
    bodies
}

/// Copies the selected shapes.
fn clip_shapes(area: &AreaCache, shapes: &Vec<ShapeId>) -> (bodies: Vec<ShapeArgs>)
    ensures
        shape_bodies(bodies@) == deletion::cached_shapes(*area, shapes@).map_values(
            |shape: ShapeCache| deletion::shape_args(shape, None),
        ),
{
    let ghost made = |shape: ShapeCache| deletion::shape_args(shape, None);
    let ghost piece = |id: ShapeId|
        match area.shape(id) {
            Some(shape) => seq![shape],
            None => Seq::empty(),
        };
    let mut bodies: Vec<ShapeArgs> = Vec::new();
    proof {
        assert(shapes@.take(0) =~= Seq::empty());
        assert(shape_bodies(bodies@) =~= list::collect(shapes@.take(0), piece).map_values(made));
    }
    for i in 0..shapes.len()
        invariant
            made == (|shape: ShapeCache| deletion::shape_args(shape, None)),
            piece == (|id: ShapeId|
                match area.shape(id) {
                    Some(shape) => seq![shape],
                    None => Seq::empty(),
                }),
            shape_bodies(bodies@) == list::collect(shapes@.take(i as int), piece).map_values(made),
    {
        let ghost done = list::collect(shapes@.take(i as int), piece);
        let ghost next = list::collect(shapes@.take(i + 1), piece);
        let ghost before = bodies@;
        proof {
            list::lemma_collect_step(shapes@, piece, i as int);
        }
        if let Some(shape) = area.get_shape(&shapes[i]) {
            let body = shape_args_from_cache(shape, None);
            bodies.push(body);
            proof {
                assert(next =~= done.push(*shape));
                assert(shape_bodies(bodies@) =~= shape_bodies(before).push(body@));
                assert(next.map_values(made) =~= done.map_values(made).push(made(*shape)));
            }
        } else {
            assert(next =~= done);
        }
    }
    assert(shapes@.take(shapes.len() as int) =~= shapes@);
    bodies
}

/// Snapshots the selected entities for the clipboard. Rooms (and the links
/// between them) are copied only when `allow_rooms`. `least` is the corner of
/// two positions, `minus` the first position seen from the second. Empty when
/// the area is not cached.
pub fn snapshot_selection<F: Fn(Point, Point) -> Point, G: Fn(Point, Point) -> Point>(
    atlas: &AtlasCache,
    area_id: AreaId,
    selection: &Selection,
    allow_rooms: bool,
    include_boundary_links: bool,
    least: F,
    minus: G,
) -> (clipboard: EntityClipboard)
    requires
        forall|a: Point, b: Point| #[trigger] least.requires((a, b)),
        forall|a: Point, b: Point| #[trigger] minus.requires((a, b)),
    ensures
        atlas.area(area_id) is None ==> clipboard@ == empty_clipboard(),
        atlas.area(area_id) matches Some(area) ==> exists|routes: Seq<Seq<Point>>| #[trigger]
            snapshot_by(
                least,
                minus,
                area_id,
                area,
                selection@,
                allow_rooms,
                include_boundary_links,
                clipboard@,
                routes,
            ),
{
    let area = match atlas.get_area(&area_id) {
        Some(area) => area,
        None => return EntityClipboard::new(),
    };
    let rooms = selection.rooms();
    let selected = selection.connections();
    let origin = find_origin(area, &rooms, &least);
    let mut connections: Vec<ConnectionClip> = Vec::new();
    let mut room_list: Vec<RoomClip> = Vec::new();
    let ghost mut routes: Seq<Seq<Point>> = Seq::empty();
    proof {
        assert(room_clips(room_list@) =~= Seq::empty());
        assert(connection_clips(connections@) =~= Seq::empty());
    }
    if allow_rooms {
        connections = clip_wholes(area, &selected, &rooms, origin, &minus);
        proof {
            routes = choose|routes: Seq<Seq<Point>>| #[trigger]
                wholes_from(
                    minus,
                    origin,
                    *area,
                    whole_connections(*area, selected@, rooms@),
                    connection_clips(connections@),
                    routes,
                );
        }
        let ghost wholes = connection_clips(connections@);
        if include_boundary_links {
            push_boundaries(&mut connections, area, &selected, &rooms);
        } else {
            assert(wholes =~= wholes + Seq::empty());
        }
        room_list = clip_rooms(area, rooms);
    }
    let labels = selection.labels();
    let shapes = selection.shapes();
    let label_list = clip_labels(area, &labels);
    let shape_list = clip_shapes(area, &shapes);
    let clipboard: EntityClipboard = EntityClipboard {
        source_area_id: Some(area_id),
        rooms: room_list,
        connections,
        connection_origin: origin,
        labels: label_list,
        shapes: shape_list,
    };
    assert(snapshot_by(
        least,
        minus,
        area_id,
        atlas.area(area_id)->0,
        selection@,
        allow_rooms,
        include_boundary_links,
        clipboard@,
        routes,
    ));
    clipboard
}

/// Whether a connection leaves the selected rooms: not both its ends are
/// selected, and some exit of it leaves a selected room.
pub open spec fn is_boundary(area: AreaCache, connection: Connection, rooms: Seq<RoomNumber>) -> bool {
    !copied_whole(connection, Seq::empty(), rooms) && boundary_member(area, connection.id, rooms) is Some
}

/// The connections that leave the selected rooms.
pub open spec fn boundary_links(area: AreaCache, rooms: Seq<RoomNumber>) -> Seq<Connection> {
    list::collect(
        area.connections@,
        |connection: Connection|
            if is_boundary(area, connection, rooms) {
                seq![connection]
            } else {
                Seq::empty()
            },
    )
}

/// The number of links that leave the selected rooms and can be copied as
/// dangling one-way links. None when the area is not cached.
pub fn boundary_link_count(atlas: &AtlasCache, area_id: AreaId, selection: &Selection) -> (count: usize)
    ensures
        count == match atlas.area(area_id) {
            Some(area) => boundary_links(area, cache::selected_rooms(selection@)).len(),
            None => 0,
        },
{
    let area = match atlas.get_area(&area_id) {
        Some(area) => area,
        None => return 0,
    };
    let rooms = selection.rooms();
    let none: Vec<ConnectionId> = Vec::new();
    assert(none@ =~= Seq::empty());
    let ghost piece = |connection: Connection|
        if is_boundary(*area, connection, rooms@) {
            seq![connection]
        } else {
            Seq::empty()
        };
    let mut count: usize = 0;
    assert(area.connections@.take(0) =~= Seq::empty());
    for i in 0..area.connections.len()
        invariant
            none@ == Seq::<ConnectionId>::empty(),
            piece == (|connection: Connection|
                if is_boundary(*area, connection, rooms@) {
                    seq![connection]
                } else {
                    Seq::empty()
                }),
            count == list::collect(area.connections@.take(i as int), piece).len(),
            count <= i,
    {
        let connection = &area.connections[i];
        proof {
            list::lemma_collect_step(area.connections@, piece, i as int);
        }
        if !copies_whole(connection, &none, &rooms) && find_boundary_member(
            area,
            connection.id,
            &rooms,
        ).is_some() {
            count = count + 1;
        }
    }
    assert(area.connections@.take(area.connections.len() as int) =~= area.connections@);
    count
}

} // verus!
