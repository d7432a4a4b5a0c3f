//! Where connections meet walls.
//!
//! Distances and directions are measured by the caller; what is compared, which
//! stored elbow moves, and how a wall is shared out is decided here.

use vstd::prelude::*;

use super::super::links::{self, active_orthogonal, find_drawn_both};
use super::super::model::{
    clone_points, AreaCache, Connection, ConnectionEndpoint, ConnectionId, ConnectionUpdates, ExitCache,
    ExitDirection, Point, PortMode, RoomCache, RoomConnection, RoomNumber, RoomSide, Scalar,
};
use super::state;
use crate::list::{self, sort_by};
use crate::text::{self, text_before};

verus! {

/// How positions are measured.
pub struct PortGeometry {
    /// Where the stub of a port ends: the room's position, the wall, and how far
    /// along it the port is.
    pub tip: spec_fn(Point, RoomSide, Scalar) -> Point,
    /// Whether two positions are no further apart vertically than horizontally.
    pub nearer: spec_fn(Point, Point) -> bool,
    /// Whether two positions differ both horizontally and vertically.
    pub apart: spec_fn(Point, Point) -> bool,
}

/// The three functions measure as `geometry` says.
pub open spec fn measures<
    T: Fn(Point, RoomSide, Scalar) -> Point,
    N: Fn(Point, Point) -> bool,
    A: Fn(Point, Point) -> bool,
>(tip: T, nearer: N, apart: A, geometry: PortGeometry) -> bool {
    &&& forall|room: Point, side: RoomSide, offset: Scalar, r: Point|
        tip.ensures((room, side, offset), r) ==> r == (geometry.tip)(room, side, offset)
    &&& forall|a: Point, b: Point, r: bool|
        nearer.ensures((a, b), r) ==> r == (geometry.nearer)(a, b)
    &&& forall|a: Point, b: Point, r: bool|
        apart.ensures((a, b), r) ==> r == (geometry.apart)(a, b)
}

/// The three functions can be called on anything.
pub open spec fn measurable<
    T: Fn(Point, RoomSide, Scalar) -> Point,
    N: Fn(Point, Point) -> bool,
    A: Fn(Point, Point) -> bool,
>(tip: T, nearer: N, apart: A) -> bool {
    &&& forall|room: Point, side: RoomSide, offset: Scalar| #[trigger]
        tip.requires((room, side, offset))
    &&& forall|a: Point, b: Point| #[trigger] nearer.requires((a, b))
    &&& forall|a: Point, b: Point| #[trigger] apart.requires((a, b))
}

/// An elbow moved so that its leg to the stub stays straight: along with the new
/// tip vertically when it was level with the old one, horizontally otherwise.
pub open spec fn moved_elbow(
    elbow: Point,
    old_tip: Point,
    new_tip: Point,
    geometry: PortGeometry,
) -> Point {
    if (geometry.nearer)(elbow, old_tip) {
        Point { x: elbow.x, y: new_tip.y }
    } else {
        Point { x: new_tip.x, y: elbow.y }
    }
}

/// The stored points of a right-angled route after one of its ports moved: the
/// elbow next to the port moves with it, and a route without points gains one
/// when its ends are no longer level.
pub open spec fn elbowed(
    points: Seq<Point>,
    drawn: RoomConnection,
    new_tip: Point,
    endpoint_b: bool,
    geometry: PortGeometry,
) -> Seq<Point> {
    let other = drawn.stub_tip_b->0;
    if endpoint_b {
        if points.len() > 0 {
            points.update(
                points.len() - 1,
                moved_elbow(points.last(), other, new_tip, geometry),
            )
        } else if (geometry.apart)(drawn.stub_tip_a, new_tip) {
            seq![Point { x: drawn.stub_tip_a.x, y: new_tip.y }]
        } else {
            points
        }
    } else {
        if points.len() > 0 {
            points.update(0, moved_elbow(points[0], drawn.stub_tip_a, new_tip, geometry))
        } else if (geometry.apart)(new_tip, other) {
            seq![Point { x: new_tip.x, y: other.y }]
        } else {
            points
        }
    }
}

/// The update that moves a port.
pub open spec fn port_update(
    endpoint: ConnectionEndpoint,
    endpoint_b: bool,
    route_points: Option<Seq<Point>>,
) -> ConnectionUpdates<Seq<char>, Seq<Point>> {
    if endpoint_b {
        ConnectionUpdates { endpoint_b: Some(endpoint), route_points, ..ConnectionUpdates::none() }
    } else {
        ConnectionUpdates { endpoint_a: Some(endpoint), route_points, ..ConnectionUpdates::none() }
    }
}

/// The update of [`endpoint_updates`].
pub open spec fn endpoint_update(
    area: AreaCache,
    connection_id: ConnectionId,
    endpoint: ConnectionEndpoint,
    endpoint_b: bool,
    geometry: PortGeometry,
) -> Option<ConnectionUpdates<Seq<char>, Seq<Point>>> {
    match area.connection(connection_id) {
        None => None,
        Some(connection) => if links::is_active_orthogonal(connection) {
            match (links::drawn_both(area, connection_id), area.room(endpoint.room_number)) {
                (Some(drawn), Some(room)) => {
                    let new_tip = (geometry.tip)(
                        Point { x: room.x, y: room.y },
                        endpoint.side,
                        endpoint.port_offset,
                    );
                    Some(
                        port_update(
                            endpoint,
                            endpoint_b,
                            Some(
                                elbowed(
                                    connection.route_points@,
                                    drawn,
                                    new_tip,
                                    endpoint_b,
                                    geometry,
                                ),
                            ),
                        ),
                    )
                },
                _ => None,
            }
        } else {
            Some(port_update(endpoint, endpoint_b, None))
        },
    }
}

/// The view of an optional connection update.
pub open spec fn opt_updates(
    updates: Option<ConnectionUpdates>,
) -> Option<ConnectionUpdates<Seq<char>, Seq<Point>>> {
    match updates {
        Some(updates) => Some(updates@),
        None => None,
    }
}

/// Moves an elbow with its port.
fn move_elbow<N: Fn(Point, Point) -> bool>(
    elbow: Point,
    old_tip: Point,
    new_tip: Point,
    nearer: &N,
) -> (moved: Point)
    requires
        forall|a: Point, b: Point| #[trigger] nearer.requires((a, b)),
    ensures
        exists|near: bool| #[trigger]
            nearer.ensures((elbow, old_tip), near) && moved == if near {
                Point { x: elbow.x, y: new_tip.y }
            } else {
                Point { x: new_tip.x, y: elbow.y }
            },
{
    let near = nearer(elbow, old_tip);
    assert(nearer.ensures((elbow, old_tip), near));
    if near {
        Point { x: elbow.x, y: new_tip.y }
    } else {
        Point { x: new_tip.x, y: elbow.y }
    }
}

/// The stored points after a port moved.
fn elbow_points<
    T: Fn(Point, RoomSide, Scalar) -> Point,
    N: Fn(Point, Point) -> bool,
    A: Fn(Point, Point) -> bool,
>(
    given: &Vec<Point>,
    drawn: RoomConnection,
    new_tip: Point,
    endpoint_b: bool,
    tip: &T,
    nearer: &N,
    apart: &A,
) -> (points: Vec<Point>)
    requires
        measurable(*tip, *nearer, *apart),
        drawn.stub_tip_b is Some,
    ensures
        forall|geometry: PortGeometry| #[trigger]
            measures(*tip, *nearer, *apart, geometry) ==> points@ == elbowed(
                given@,
                drawn,
                new_tip,
                endpoint_b,
                geometry,
            ),
{
    let mut points = clone_points(given);
    let other = match drawn.stub_tip_b {
        Some(other) => other,
        None => drawn.stub_tip_a,
    };
    if endpoint_b {
        if points.len() > 0 {
            let last: usize = points.len() - 1;
            let moved = move_elbow(points[last], other, new_tip, nearer);
            points.set(last, moved);
        } else if apart(drawn.stub_tip_a, new_tip) {
            points.push(Point { x: drawn.stub_tip_a.x, y: new_tip.y });
            assert(points@ =~= seq![Point { x: drawn.stub_tip_a.x, y: new_tip.y }]);
        }
    } else {
        if points.len() > 0 {
            let moved = move_elbow(points[0], drawn.stub_tip_a, new_tip, nearer);
            points.set(0, moved);
        } else if apart(new_tip, other) {
            points.push(Point { x: new_tip.x, y: other.y });
            assert(points@ =~= seq![Point { x: new_tip.x, y: other.y }]);
        }
    }
    points
}

/// Builds a port edit and, for active right-angled routes, adjusts or inserts the
/// stored elbow next to the port in the same update. `None` when the connection,
/// its drawing or its room is not cached.
pub fn endpoint_updates<
    T: Fn(Point, RoomSide, Scalar) -> Point,
    N: Fn(Point, Point) -> bool,
    A: Fn(Point, Point) -> bool,
>(
    area: &AreaCache,
    connection_id: ConnectionId,
    endpoint: ConnectionEndpoint,
    endpoint_b: bool,
    tip: &T,
    nearer: &N,
    apart: &A,
) -> (updates: Option<ConnectionUpdates>)
    requires
        measurable(*tip, *nearer, *apart),
    ensures
        forall|geometry: PortGeometry| #[trigger]
            measures(*tip, *nearer, *apart, geometry) ==> opt_updates(updates) == endpoint_update(
                *area,
                connection_id,
                endpoint,
                endpoint_b,
                geometry,
            ),
{
    let connection = area.get_connection(&connection_id)?;
    let mut updates: ConnectionUpdates = ConnectionUpdates::default();
    if active_orthogonal(connection) {
        let drawn = find_drawn_both(area, connection_id)?;
        let room = area.get_room(&endpoint.room_number)?;
        let new_tip = tip(Point { x: room.x, y: room.y }, endpoint.side, endpoint.port_offset);
        let points = elbow_points(
            &connection.route_points,
            drawn,
            new_tip,
            endpoint_b,
            tip,
            nearer,
            apart,
        );
        updates.route_points = Some(points);
    }
    if endpoint_b {
        updates.endpoint_b = Some(endpoint);
    } else {
        updates.endpoint_a = Some(endpoint);
    }
    Some(updates)
}

// ===== Sharing out a wall =====

/// Whether a wall runs along the horizontal axis.
#[verifier::allow_in_spec]
pub fn wall_axis_is_x(side: RoomSide) -> bool
    returns
        side == RoomSide::North || side == RoomSide::South,
{
    match side {
        RoomSide::North | RoomSide::South => true,
        RoomSide::East | RoomSide::West => false,
    }
}

/// Which way a connection leaves a wall, along the wall: what the measure is
/// taken of.
#[derive(Clone, Copy, Debug, PartialEq, Eq, Structural)]
pub enum Bearing {
    /// Straight on.
    Level,
    /// The outward direction of another wall of the same room.
    Outward { side: RoomSide, axis_x: bool },
    /// From one coordinate to another.
    Between { from: Scalar, to: Scalar },
    /// A compass direction.
    Toward { direction: ExitDirection, axis_x: bool },
}

/// One end of a connection at a wall. Bearings are compared by their ranks.
#[derive(Clone, Copy, Debug, PartialEq, Eq, Structural)]
pub struct WallEndpoint {
    pub connection_id: ConnectionId,
    pub endpoint_b: bool,
    pub endpoint: ConnectionEndpoint,
    pub bearing: i64,
}

/// How a wall is measured.
pub struct WallMeasure {
    /// The name of a direction.
    pub name: spec_fn(ExitDirection) -> Seq<char>,
    /// The place of a bearing among all bearings.
    pub rank: spec_fn(Bearing) -> i64,
    /// How far along the wall a slot is, of so many.
    pub offset: spec_fn(usize, usize) -> Scalar,
    /// Whether two distances along a wall are the same.
    pub close: spec_fn(Scalar, Scalar) -> bool,
}

/// The four functions measure as `wall` says.
pub open spec fn walled<
    D: Fn(ExitDirection) -> String,
    K: Fn(Bearing) -> i64,
    O: Fn(usize, usize) -> Scalar,
    C: Fn(Scalar, Scalar) -> bool,
>(name: D, rank: K, offset: O, close: C, wall: WallMeasure) -> bool {
    &&& forall|direction: ExitDirection, r: String|
        name.ensures((direction,), r) ==> r@ == (wall.name)(direction)
    &&& forall|bearing: Bearing, r: i64|
        rank.ensures((bearing,), r) ==> r == (wall.rank)(bearing)
    &&& forall|slot: usize, slots: usize, r: Scalar|
        offset.ensures((slot, slots), r) ==> r == (wall.offset)(slot, slots)
    &&& forall|a: Scalar, b: Scalar, r: bool|
        close.ensures((a, b), r) ==> r == (wall.close)(a, b)
}

/// The four functions can be called on anything.
pub open spec fn wallable<
    D: Fn(ExitDirection) -> String,
    K: Fn(Bearing) -> i64,
    O: Fn(usize, usize) -> Scalar,
    C: Fn(Scalar, Scalar) -> bool,
>(name: D, rank: K, offset: O, close: C) -> bool {
    &&& forall|direction: ExitDirection| #[trigger] name.requires((direction,))
    &&& forall|bearing: Bearing| #[trigger] rank.requires((bearing,))
    &&& forall|slot: usize, slots: usize| #[trigger] offset.requires((slot, slots))
    &&& forall|a: Scalar, b: Scalar| #[trigger] close.requires((a, b))
}

/// The exits of a room on a connection.
pub open spec fn exits_on(room: RoomCache, id: ConnectionId) -> Seq<ExitDirection> {
    list::collect(
        room.exits@,
        |exit: ExitCache|
            if exit.connection_id == id {
                seq![exit.from_direction]
            } else {
                Seq::empty()
            },
    )
}

/// No direction of a list has a name before that of `direction`.
pub open spec fn leads(
    list: Seq<ExitDirection>,
    direction: ExitDirection,
    name: spec_fn(ExitDirection) -> Seq<char>,
) -> bool {
    forall|i: int|
        0 <= i < list.len() ==> !text::text_less(name(#[trigger] list[i]), name(direction))
}

/// The first of some directions by name.
pub open spec fn first_direction(
    list: Seq<ExitDirection>,
    name: spec_fn(ExitDirection) -> Seq<char>,
) -> Option<ExitDirection> {
    list::first(list, |direction: ExitDirection| leads(list, direction, name))
}

/// The coordinate of a room along an axis.
pub open spec fn along(room: RoomCache, axis_x: bool) -> Scalar {
    if axis_x {
        room.x
    } else {
        room.y
    }
}

/// Which way a connection leaves the wall of one of its ends: toward the other
/// end when it is known, else by its exit.
pub open spec fn endpoint_bearing(
    area: AreaCache,
    connection: Connection,
    endpoint_b: bool,
    name: spec_fn(ExitDirection) -> Seq<char>,
) -> Bearing {
    let own = if endpoint_b {
        connection.endpoint_b
    } else {
        Some(connection.endpoint_a)
    };
    let other = if endpoint_b {
        Some(connection.endpoint_a)
    } else {
        connection.endpoint_b
    };
    match own {
        None => Bearing::Level,
        Some(endpoint) => {
            let axis_x = wall_axis_is_x(endpoint.side);
            let by_exit = match area.room(endpoint.room_number) {
                None => Bearing::Level,
                Some(room) => match first_direction(exits_on(room, connection.id), name) {
                    Some(direction) => Bearing::Toward { direction, axis_x },
                    None => Bearing::Level,
                },
            };
            match other {
                None => by_exit,
                Some(other) => if other.room_number == endpoint.room_number {
                    Bearing::Outward { side: other.side, axis_x }
                } else {
                    match (area.room(endpoint.room_number), area.room(other.room_number)) {
                        (Some(room), Some(partner)) => Bearing::Between {
                            from: along(room, axis_x),
                            to: along(partner, axis_x),
                        },
                        _ => by_exit,
                    }
                },
            }
        },
    }
}

/// One end of a connection, when it is at the given wall.
pub open spec fn wall_end(
    area: AreaCache,
    connection: Connection,
    endpoint_b: bool,
    room_number: RoomNumber,
    side: RoomSide,
    wall: WallMeasure,
) -> Seq<WallEndpoint> {
    let own = if endpoint_b {
        connection.endpoint_b
    } else {
        Some(connection.endpoint_a)
    };
    match own {
        Some(endpoint) => if endpoint.room_number == room_number && endpoint.side == side {
            seq![
                WallEndpoint {
                    connection_id: connection.id,
                    endpoint_b,
                    endpoint,
                    bearing: (wall.rank)(endpoint_bearing(area, connection, endpoint_b, wall.name)),
                },
            ]
        } else {
            Seq::empty()
        },
        None => Seq::empty(),
    }
}

/// The ends at a wall of the connections that are drawn as secret ones, or of
/// those that are not.
pub open spec fn wall_group(
    area: AreaCache,
    room_number: RoomNumber,
    side: RoomSide,
    secret: bool,
    wall: WallMeasure,
) -> Seq<WallEndpoint> {
    list::collect(
        area.connections@,
        |connection: Connection| wall_ends(area, connection, room_number, side, secret, wall),
    )
}

/// The order of the ends at a wall: by bearing, then by connection, then the
/// first end before the second.
pub open spec fn wall_before(a: WallEndpoint, b: WallEndpoint) -> bool {
    a.bearing < b.bearing || (a.bearing == b.bearing && (a.connection_id.0 < b.connection_id.0 || (
    a.connection_id == b.connection_id && !a.endpoint_b && b.endpoint_b)))
}

/// Whether one end at a wall comes before another.
fn wall_first(a: &WallEndpoint, b: &WallEndpoint) -> (first: bool)
    ensures
        first == wall_before(*a, *b),
{
    a.bearing < b.bearing || (a.bearing == b.bearing && (a.connection_id.0 < b.connection_id.0 || (
    a.connection_id == b.connection_id && !a.endpoint_b && b.endpoint_b)))
}

/// The update of the end in a slot: none for one that was put in place by hand
/// or that is in its place already.
pub open spec fn slot_update(
    area: AreaCache,
    sorted: Seq<WallEndpoint>,
    slot: int,
    wall: WallMeasure,
    geometry: PortGeometry,
) -> Seq<(ConnectionId, ConnectionUpdates<Seq<char>, Seq<Point>>)> {
    let item = sorted[slot];
    let offset = (wall.offset)(slot as usize, sorted.len() as usize);
    if item.endpoint.port_mode != PortMode::AutoPinned || (wall.close)(
        item.endpoint.port_offset,
        offset,
    ) {
        Seq::empty()
    } else {
        match endpoint_update(
            area,
            item.connection_id,
            ConnectionEndpoint { port_offset: offset, ..item.endpoint },
            item.endpoint_b,
            geometry,
        ) {
            Some(updates) => seq![(item.connection_id, updates)],
            None => Seq::empty(),
        }
    }
}

/// The updates of the first `slots` ends at a wall.
pub open spec fn slot_updates(
    area: AreaCache,
    sorted: Seq<WallEndpoint>,
    slots: int,
    wall: WallMeasure,
    geometry: PortGeometry,
) -> Seq<(ConnectionId, ConnectionUpdates<Seq<char>, Seq<Point>>)>
    decreases slots,
{
    if slots <= 0 {
        Seq::empty()
    } else {
        slot_updates(area, sorted, slots - 1, wall, geometry) + slot_update(
            area,
            sorted,
            slots - 1,
            wall,
            geometry,
        )
    }
}

/// The updates of [`redistribute_port_updates`].
pub open spec fn redistributed(
    area: AreaCache,
    room_number: RoomNumber,
    side: RoomSide,
    secret: bool,
    wall: WallMeasure,
    geometry: PortGeometry,
) -> Seq<(ConnectionId, ConnectionUpdates<Seq<char>, Seq<Point>>)> {
    let sorted = list::in_order(
        wall_group(area, room_number, side, secret, wall),
        |a: WallEndpoint, b: WallEndpoint| wall_before(a, b),
    );
    slot_updates(area, sorted, sorted.len() as int, wall, geometry)
}

/// The exits of a room on a connection.
fn directions_on(room: &RoomCache, id: ConnectionId) -> (found: Vec<ExitDirection>)
    ensures
        found@ == exits_on(*room, id),
{
    let ghost piece = |exit: ExitCache|
        if exit.connection_id == id {
            seq![exit.from_direction]
        } else {
            Seq::empty()
        };
    let mut found: Vec<ExitDirection> = Vec::new();
    assert(room.exits@.take(0) =~= Seq::empty());
    for i in 0..room.exits.len()
        invariant
            piece == (|exit: ExitCache|
                if exit.connection_id == id {
                    seq![exit.from_direction]
                } else {
                    Seq::empty()
                }),
            found@ == list::collect(room.exits@.take(i as int), piece),
    {
        proof {
            list::lemma_collect_step(room.exits@, piece, i as int);
        }
        if room.exits[i].connection_id == id {
            found.push(room.exits[i].from_direction);
        }
    }
    assert(room.exits@.take(room.exits.len() as int) =~= room.exits@);
    found
}

/// Whether no name of a list comes before that at `place`.
fn name_leads(names: &Vec<String>, place: usize) -> (led: bool)
    requires
        place < names.len(),
    ensures
        led == forall|i: int|
            0 <= i < names.len() ==> !text::text_less(#[trigger] names@[i]@, names@[place as int]@),
{
    for i in 0..names.len()
        invariant
            place < names.len(),
            forall|k: int|
                0 <= k < i ==> !text::text_less(#[trigger] names@[k]@, names@[place as int]@),
    {
        if text_before(&names[i], &names[place]) {
            return false;
        }
    }
    true
}

/// The first of some directions by name.
fn find_first_direction<D: Fn(ExitDirection) -> String>(
    list: &Vec<ExitDirection>,
    name: &D,
) -> (found: Option<ExitDirection>)
    requires
        forall|direction: ExitDirection| #[trigger] name.requires((direction,)),
    ensures
        forall|spelled: spec_fn(ExitDirection) -> Seq<char>| #[trigger]
            named_by(*name, spelled) ==> found == first_direction(list@, spelled),
{
    let mut names: Vec<String> = Vec::new();
    for i in 0..list.len()
        invariant
            forall|direction: ExitDirection| #[trigger] name.requires((direction,)),
            names.len() == i,
            forall|k: int| 0 <= k < i ==> name.ensures((list@[k],), #[trigger] names@[k]),
    {
        let spelled = name(list[i]);
        names.push(spelled);
    }
    for i in 0..list.len()
        invariant
            names.len() == list.len(),
            forall|k: int| 0 <= k < list.len() ==> name.ensures((list@[k],), #[trigger] names@[k]),
            forall|k: int, spelled: spec_fn(ExitDirection) -> Seq<char>|
                0 <= k < i && #[trigger] named_by(*name, spelled) ==> !leads(
                    list@,
                    #[trigger] list@[k],
                    spelled,
                ),
    {
        let led = name_leads(&names, i);
        proof {
            assert forall|spelled: spec_fn(ExitDirection) -> Seq<char>| #[trigger]
                named_by(*name, spelled) implies led == leads(list@, list@[i as int], spelled) by {
                assert(forall|k: int|
                    0 <= k < list.len() ==> #[trigger] names@[k]@ == spelled(list@[k]));
                if led {
                    assert forall|k: int| 0 <= k < list@.len() implies !text::text_less(
                        spelled(#[trigger] list@[k]),
                        spelled(list@[i as int]),
                    ) by {
                        assert(names@[k]@ == spelled(list@[k]));
                    }
                } else {
                    let k = choose|k: int|
                        0 <= k < names.len() && text::text_less(
                            #[trigger] names@[k]@,
                            names@[i as int]@,
                        );
                    assert(text::text_less(spelled(list@[k]), spelled(list@[i as int])));
                }
            }
        }
        if led {
            proof {
                assert forall|spelled: spec_fn(ExitDirection) -> Seq<char>| #[trigger]
                    named_by(*name, spelled) implies Some(list@[i as int]) == first_direction(
                    list@,
                    spelled,
                ) by {
                    list::lemma_first(
                        list@,
                        |direction: ExitDirection| leads(list@, direction, spelled),
                        i as int,
                    );
                }
            }
            return Some(list[i]);
        }
    }
    None
}

/// A function names directions as `spelled` says.
pub open spec fn named_by<D: Fn(ExitDirection) -> String>(
    name: D,
    spelled: spec_fn(ExitDirection) -> Seq<char>,
) -> bool {
    forall|direction: ExitDirection, r: String|
        name.ensures((direction,), r) ==> r@ == spelled(direction)
}

/// Which way a connection leaves the wall of one of its ends.
fn bearing_of<D: Fn(ExitDirection) -> String>(
    area: &AreaCache,
    connection: &Connection,
    endpoint_b: bool,
    name: &D,
) -> (bearing: Bearing)
    requires
        forall|direction: ExitDirection| #[trigger] name.requires((direction,)),
    ensures
        forall|spelled: spec_fn(ExitDirection) -> Seq<char>| #[trigger]
            named_by(*name, spelled) ==> bearing == endpoint_bearing(
                *area,
                *connection,
                endpoint_b,
                spelled,
            ),
{
    let (own, other) = if endpoint_b {
        (connection.endpoint_b, Some(connection.endpoint_a))
    } else {
        (Some(connection.endpoint_a), connection.endpoint_b)
    };
    let endpoint = match own {
        Some(endpoint) => endpoint,
        None => {
            return Bearing::Level;
        },
    };
    let axis_x = wall_axis_is_x(endpoint.side);
    if let Some(other) = other {
        if other.room_number == endpoint.room_number {
            return Bearing::Outward { side: other.side, axis_x };
        }
        if let (Some(room), Some(partner)) = (
            area.get_room(&endpoint.room_number),
            area.get_room(&other.room_number),
        ) {
            return if axis_x {
                Bearing::Between { from: room.x, to: partner.x }
            } else {
                Bearing::Between { from: room.y, to: partner.y }
            };
        }
    }
    match area.get_room(&endpoint.room_number) {
        Some(room) => {
            let exits = directions_on(room, connection.id);
            match find_first_direction(&exits, name) {
                Some(direction) => Bearing::Toward { direction, axis_x },
                None => Bearing::Level,
            }
        },
        None => Bearing::Level,
    }
}

/// Adds one end of a connection when it is at the given wall.
fn push_wall_end<D: Fn(ExitDirection) -> String, K: Fn(Bearing) -> i64>(
    group: &mut Vec<WallEndpoint>,
    area: &AreaCache,
    connection: &Connection,
    endpoint_b: bool,
    room_number: RoomNumber,
    side: RoomSide,
    name: &D,
    rank: &K,
)
    requires
        forall|direction: ExitDirection| #[trigger] name.requires((direction,)),
        forall|bearing: Bearing| #[trigger] rank.requires((bearing,)),
    ensures
        forall|wall: WallMeasure| #[trigger]
            ranked(*name, *rank, wall) ==> final(group)@ == old(group)@ + wall_end(
                *area,
                *connection,
                endpoint_b,
                room_number,
                side,
                wall,
            ),
{
    let ghost before = group@;
    let own = if endpoint_b {
        connection.endpoint_b
    } else {
        Some(connection.endpoint_a)
    };
    if let Some(endpoint) = own {
        if endpoint.room_number == room_number && endpoint.side == side {
            let way = bearing_of(area, connection, endpoint_b, name);
            let bearing: i64 = rank(way);
            let item = WallEndpoint {
                connection_id: connection.id,
                endpoint_b,
                endpoint,
                bearing,
            };
            group.push(item);
            assert forall|wall: WallMeasure| #[trigger]
                ranked(*name, *rank, wall) implies group@ == before + wall_end(
                *area,
                *connection,
                endpoint_b,
                room_number,
                side,
                wall,
            ) by {
                assert(named_by(*name, wall.name));
                assert(group@ =~= before + seq![item]);
            }
            return ;
        }
    }
    assert(group@ =~= before + Seq::empty());
}

/// Two functions name and rank as `wall` says.
pub open spec fn ranked<D: Fn(ExitDirection) -> String, K: Fn(Bearing) -> i64>(
    name: D,
    rank: K,
    wall: WallMeasure,
) -> bool {
    &&& named_by(name, wall.name)
    &&& forall|bearing: Bearing, r: i64| rank.ensures((bearing,), r) ==> r == (wall.rank)(bearing)
}

/// The ends at a wall of one connection.
pub open spec fn wall_ends(
    area: AreaCache,
    connection: Connection,
    room_number: RoomNumber,
    side: RoomSide,
    secret: bool,
    wall: WallMeasure,
) -> Seq<WallEndpoint> {
    if state::drawn_secret(area, connection.id) == secret {
        wall_end(area, connection, false, room_number, side, wall) + wall_end(
            area,
            connection,
            true,
            room_number,
            side,
            wall,
        )
    } else {
        Seq::empty()
    }
}

/// The ends at a wall of the connections of one secrecy.
fn gather_wall<D: Fn(ExitDirection) -> String, K: Fn(Bearing) -> i64>(
    area: &AreaCache,
    room_number: RoomNumber,
    side: RoomSide,
    secret: bool,
    name: &D,
    rank: &K,
) -> (group: Vec<WallEndpoint>)
    requires
        forall|direction: ExitDirection| #[trigger] name.requires((direction,)),
        forall|bearing: Bearing| #[trigger] rank.requires((bearing,)),
    ensures
        forall|wall: WallMeasure| #[trigger]
            ranked(*name, *rank, wall) ==> group@ == wall_group(
                *area,
                room_number,
                side,
                secret,
                wall,
            ),
{
    let mut group: Vec<WallEndpoint> = Vec::new();
    assert(area.connections@.take(0) =~= Seq::empty());
    for i in 0..area.connections.len()
        invariant
            forall|direction: ExitDirection| #[trigger] name.requires((direction,)),
            forall|bearing: Bearing| #[trigger] rank.requires((bearing,)),
            forall|wall: WallMeasure| #[trigger]
                ranked(*name, *rank, wall) ==> group@ == list::collect(
                    area.connections@.take(i as int),
                    |connection: Connection|
                        wall_ends(*area, connection, room_number, side, secret, wall),
                ),
    {
        let ghost before = group@;
        let connection = &area.connections[i];
        let drawn = match area.get_drawn(&connection.id) {
            Some(drawn) => drawn.is_secret,
            None => false,
        };
        if drawn == secret {
            push_wall_end(&mut group, area, connection, false, room_number, side, name, rank);
            push_wall_end(&mut group, area, connection, true, room_number, side, name, rank);
        }
        proof {
            assert forall|wall: WallMeasure| #[trigger]
                ranked(*name, *rank, wall) implies group@ == list::collect(
                area.connections@.take(i + 1),
                |connection: Connection|
                    wall_ends(*area, connection, room_number, side, secret, wall),
            ) by {
                let piece = |connection: Connection|
                    wall_ends(*area, connection, room_number, side, secret, wall);
                list::lemma_collect_step(area.connections@, piece, i as int);
                assert(group@ =~= before + piece(*connection));
            }
        }
    }
    assert(area.connections@.take(area.connections.len() as int) =~= area.connections@);
    group
}

/// The view of connections with their updates.
pub open spec fn updates_view(
    list: Seq<(ConnectionId, ConnectionUpdates)>,
) -> Seq<(ConnectionId, ConnectionUpdates<Seq<char>, Seq<Point>>)> {
    list.map_values(|item: (ConnectionId, ConnectionUpdates)| (item.0, item.1@))
}

/// The updates that share a wall out evenly among its connections. Ports put in
/// place by hand stay; the others take the place of their rank in the whole
/// group, by bearing. Connections drawn as secret ones are laid out apart from
/// the others.
pub fn redistribute_port_updates<
    D: Fn(ExitDirection) -> String,
    K: Fn(Bearing) -> i64,
    O: Fn(usize, usize) -> Scalar,
    C: Fn(Scalar, Scalar) -> bool,
    T: Fn(Point, RoomSide, Scalar) -> Point,
    N: Fn(Point, Point) -> bool,
    A: Fn(Point, Point) -> bool,
>(
    area: &AreaCache,
    room_number: RoomNumber,
    side: RoomSide,
    secret: bool,
    name: &D,
    rank: &K,
    offset: &O,
    close: &C,
    tip: &T,
    nearer: &N,
    apart: &A,
) -> (updates: Vec<(ConnectionId, ConnectionUpdates)>)
    requires
        wallable(*name, *rank, *offset, *close),
        measurable(*tip, *nearer, *apart),
    ensures
        forall|wall: WallMeasure, geometry: PortGeometry|
            #[trigger] walled(*name, *rank, *offset, *close, wall) && #[trigger] measures(
                *tip,
                *nearer,
                *apart,
                geometry,
            ) ==> updates_view(updates@) == redistributed(
                *area,
                room_number,
                side,
                secret,
                wall,
                geometry,
            ),
{
    let group = gather_wall(area, room_number, side, secret, name, rank);
    let ghost gathered = group@;
    let less = |a: &WallEndpoint, b: &WallEndpoint| -> (r: bool)
        ensures
            r == wall_before(*a, *b),
    {
        wall_first(a, b)
    };
    let sorted = sort_by(
        group,
        less,
        Ghost(|a: WallEndpoint, b: WallEndpoint| wall_before(a, b)),
    );
    let mut updates: Vec<(ConnectionId, ConnectionUpdates)> = Vec::new();
    let slots: usize = sorted.len();
    assert(updates_view(updates@) =~= Seq::empty());
    for slot in 0..slots
        invariant
            slots == sorted.len(),
            wallable(*name, *rank, *offset, *close),
            measurable(*tip, *nearer, *apart),
            forall|wall: WallMeasure, geometry: PortGeometry|
                #[trigger] walled(*name, *rank, *offset, *close, wall) && #[trigger] measures(
                    *tip,
                    *nearer,
                    *apart,
                    geometry,
                ) ==> updates_view(updates@) == slot_updates(
                    *area,
                    sorted@,
                    slot as int,
                    wall,
                    geometry,
                ),
    {
        let ghost before = updates@;
        let item = sorted[slot];
        if item.endpoint.port_mode == PortMode::AutoPinned {
            let place = offset(slot, slots);
            if !close(item.endpoint.port_offset, place) {
                let endpoint = ConnectionEndpoint { port_offset: place, ..item.endpoint };
                if let Some(update) = endpoint_updates(
                    area,
                    item.connection_id,
                    endpoint,
                    item.endpoint_b,
                    tip,
                    nearer,
                    apart,
                ) {
                    let made = (item.connection_id, update);
                    updates.push(made);
                    assert(updates_view(updates@) =~= updates_view(before) + seq![
                        (item.connection_id, made.1@),
                    ]);
                }
            }
        }
        proof {
            assert forall|wall: WallMeasure, geometry: PortGeometry|
                #[trigger] walled(*name, *rank, *offset, *close, wall) && #[trigger] measures(
                    *tip,
                    *nearer,
                    *apart,
                    geometry,
                ) implies updates_view(updates@) == slot_updates(
                *area,
                sorted@,
                slot + 1,
                wall,
                geometry,
            ) by {
                assert(updates_view(updates@) =~= updates_view(before) + slot_update(
                    *area,
                    sorted@,
                    slot as int,
                    wall,
                    geometry,
                ));
            }
        }
    }
    proof {
        assert forall|wall: WallMeasure, geometry: PortGeometry|
            #[trigger] walled(*name, *rank, *offset, *close, wall) && #[trigger] measures(
                *tip,
                *nearer,
                *apart,
                geometry,
            ) implies updates_view(updates@) == redistributed(
            *area,
            room_number,
            side,
            secret,
            wall,
            geometry,
        ) by {
            assert(ranked(*name, *rank, wall));
            assert(gathered == wall_group(*area, room_number, side, secret, wall));
        }
    }
    updates
}

} // verus!
