//! What an automatic route is computed from.
//!
//! The solver sees the public rooms only, also when the author sees secret ones:
//! otherwise the route, which is public, would give away where they are.

use vstd::prelude::*;

use super::model::{
    AreaCache, AreaId, Connection, ConnectionEndpoint, ConnectionId, ConnectionKind, CornerStyle, Point, RoomCache,
    RoomNumber, RoomSide, Scalar,
};
use crate::list::{self, sort_by};

verus! {

/// A coordinate of an obstacle, by the bits of its double.
#[derive(Clone, Copy, Debug, PartialEq, Eq, Structural)]
pub struct WideScalar(pub u64);

/// The bounds of an obstacle.
#[derive(Clone, Copy, Debug, PartialEq, Eq, Structural)]
pub struct RouteRect {
    pub min_x: WideScalar,
    pub min_y: WideScalar,
    pub max_x: WideScalar,
    pub max_y: WideScalar,
}

/// A room that a route goes around.
#[derive(Clone, Copy, Debug, PartialEq, Eq, Structural)]
pub struct RouteObstacle {
    pub room_number: RoomNumber,
    pub bounds: RouteRect,
}

/// An end of a route.
#[derive(Clone, Copy, Debug, PartialEq, Eq, Structural)]
pub struct RouteEndpoint {
    pub room_number: RoomNumber,
    pub room_center: Point,
    pub side: RoomSide,
    pub port_offset: Scalar,
}

/// What the solver is given.
pub struct AutoRouteRequest {
    pub endpoint_a: RouteEndpoint,
    pub endpoint_b: RouteEndpoint,
    pub obstacles: Vec<RouteObstacle>,
    pub thickness: Scalar,
    pub corner: CornerStyle,
}

/// Everything whose change makes a result useless.
#[derive(Clone, Copy, Debug, PartialEq, Eq, Structural)]
pub struct Snapshot {
    pub area_id: AreaId,
    pub area_rev: i64,
    pub connection_id: ConnectionId,
    pub endpoint_a: RouteEndpoint,
    pub endpoint_b: RouteEndpoint,
    pub obstacle_hash: u64,
    pub thickness: Scalar,
    pub corner: CornerStyle,
}

// ===== The signature of obstacles =====

/// The start of the hash.
pub const FNV_OFFSET: u64 = 0xcbf2_9ce4_8422_2325;

/// The factor of the hash.
pub const FNV_PRIME: u64 = 0x0000_0100_0000_01b3;

/// The hash after one more byte.
pub open spec fn fnv_step(hash: u64, byte: u8) -> u64 {
    (hash ^ (byte as u64)).wrapping_mul(FNV_PRIME)
}

/// The FNV-1a hash of bytes.
pub open spec fn fnv(bytes: Seq<u8>) -> u64
    decreases bytes.len(),
{
    if bytes.len() == 0 {
        FNV_OFFSET
    } else {
        fnv_step(fnv(bytes.drop_last()), bytes.last())
    }
}

/// One byte of a number; the lowest is at place zero.
pub open spec fn byte_at(value: u64, place: u64) -> u8 {
    ((value >> (8 * place) as u64) & 0xff) as u8
}

/// The lowest `count` bytes of a number, the lowest first.
pub open spec fn little_endian(value: u64, count: nat) -> Seq<u8> {
    Seq::new(count, |k: int| byte_at(value, k as u64))
}

/// The bytes of an obstacle: its room number and the bits of its bounds.
pub open spec fn obstacle_bytes(obstacle: RouteObstacle) -> Seq<u8> {
    little_endian((obstacle.room_number.0 as u32) as u64, 4) + little_endian(
        obstacle.bounds.min_x.0,
        8,
    ) + little_endian(obstacle.bounds.min_y.0, 8) + little_endian(obstacle.bounds.max_x.0, 8)
        + little_endian(obstacle.bounds.max_y.0, 8)
}

/// The order of obstacles by room.
pub open spec fn obstacle_before(a: RouteObstacle, b: RouteObstacle) -> bool {
    a.room_number.0 < b.room_number.0
}

/// Obstacles by room.
pub open spec fn by_room(obstacles: Seq<RouteObstacle>) -> Seq<RouteObstacle> {
    list::in_order(obstacles, |a: RouteObstacle, b: RouteObstacle| obstacle_before(a, b))
}

/// The signature of obstacles.
pub open spec fn signature(obstacles: Seq<RouteObstacle>) -> u64 {
    fnv(
        list::collect(
            by_room(obstacles),
            |obstacle: RouteObstacle| obstacle_bytes(obstacle),
        ),
    )
}

/// Hashes the lowest `count` bytes of a number.
fn hash_number(hash: u64, value: u64, count: u64, Ghost(before): Ghost<Seq<u8>>) -> (hashed: u64)
    requires
        hash == fnv(before),
        count <= 8,
    ensures
        hashed == fnv(before + little_endian(value, count as nat)),
{
    let mut hashed: u64 = hash;
    assert(before + little_endian(value, 0) =~= before);
    for k in 0..count
        invariant
            count <= 8,
            hashed == fnv(before + little_endian(value, k as nat)),
    {
        let shift: u64 = 8 * k;
        let byte: u64 = (value >> shift) & 0xff;
        assert(byte <= 255) by (bit_vector)
            requires
                byte == (value >> shift) & 0xff,
        ;
        proof {
            let some = before + little_endian(value, k as nat);
            let more = before + little_endian(value, (k + 1) as nat);
            assert(more =~= some.push(byte_at(value, k)));
            assert(more.drop_last() =~= some);
            assert(byte_at(value, k) as u64 == byte);
        }
        hashed = (hashed ^ byte).wrapping_mul(FNV_PRIME);
    }
    hashed
}

/// Sorts obstacles by room.
fn sort_obstacles(obstacles: Vec<RouteObstacle>) -> (sorted: Vec<RouteObstacle>)
    ensures
        sorted@ == by_room(obstacles@),
{
    let less = |a: &RouteObstacle, b: &RouteObstacle| -> (r: bool)
        ensures
            r == obstacle_before(*a, *b),
    {
        a.room_number.0 < b.room_number.0
    };
    sort_by(obstacles, less, Ghost(|a: RouteObstacle, b: RouteObstacle| obstacle_before(a, b)))
}

fn copy_obstacles(obstacles: &Vec<RouteObstacle>) -> (copied: Vec<RouteObstacle>)
    ensures
        copied@ == obstacles@,
{
    let mut copied: Vec<RouteObstacle> = Vec::new();
    for i in 0..obstacles.len()
        invariant
            copied@ == obstacles@.take(i as int),
    {
        copied.push(obstacles[i]);
        assert(copied@ =~= obstacles@.take(i + 1));
    }
    assert(copied@ =~= obstacles@);
    copied
}

/// The signature of obstacles, in whatever order they are given.
pub fn obstacle_hash(obstacles: &Vec<RouteObstacle>) -> (hash: u64)
    ensures
        hash == signature(obstacles@),
{
    let ordered = sort_obstacles(copy_obstacles(obstacles));
    let ghost piece = |obstacle: RouteObstacle| obstacle_bytes(obstacle);
    let mut hash: u64 = FNV_OFFSET;
    assert(ordered@.take(0) =~= Seq::empty());
    for i in 0..ordered.len()
        invariant
            piece == (|obstacle: RouteObstacle| obstacle_bytes(obstacle)),
            hash == fnv(list::collect(ordered@.take(i as int), piece)),
    {
        let ghost before = list::collect(ordered@.take(i as int), piece);
        let obstacle = ordered[i];
        let room: u64 = (obstacle.room_number.0 as u32) as u64;
        let ghost first = before + little_endian(room, 4);
        let ghost second = first + little_endian(obstacle.bounds.min_x.0, 8);
        let ghost third = second + little_endian(obstacle.bounds.min_y.0, 8);
        let ghost fourth = third + little_endian(obstacle.bounds.max_x.0, 8);
        hash = hash_number(hash, room, 4, Ghost(before));
        hash = hash_number(hash, obstacle.bounds.min_x.0, 8, Ghost(first));
        hash = hash_number(hash, obstacle.bounds.min_y.0, 8, Ghost(second));
        hash = hash_number(hash, obstacle.bounds.max_x.0, 8, Ghost(third));
        hash = hash_number(hash, obstacle.bounds.max_y.0, 8, Ghost(fourth));
        proof {
            list::lemma_collect_step(ordered@, piece, i as int);
            assert(before + obstacle_bytes(obstacle) =~= fourth + little_endian(
                obstacle.bounds.max_y.0,
                8,
            ));
        }
    }
    assert(ordered@.take(ordered.len() as int) =~= ordered@);
    hash
}

/// The signature does not depend on the order in which obstacles are given, as
/// long as no room is among them twice.
pub proof fn law_signature_does_not_depend_on_order(a: Seq<RouteObstacle>, b: Seq<RouteObstacle>)
    requires
        a.to_multiset() =~= b.to_multiset(),
        forall|i: int, j: int|
            0 <= i < a.len() && 0 <= j < a.len() && i != j ==> (#[trigger] a[i]).room_number != (
            #[trigger] a[j]).room_number,
    ensures
        signature(a) == signature(b),
{
    let less = |x: RouteObstacle, y: RouteObstacle| obstacle_before(x, y);
    list::lemma_in_order(a, less);
    list::lemma_in_order(b, less);
    let sorted = list::in_order(a, less);
    assert forall|x: RouteObstacle, y: RouteObstacle|
        #[trigger] sorted.contains(x) && #[trigger] sorted.contains(y) && !less(x, y) && !less(
            y,
            x,
        ) implies x == y by {
        broadcast use vstd::seq_lib::group_to_multiset_ensures;

        assert(a.to_multiset().count(x) > 0) by {
            assert(sorted.to_multiset().count(x) > 0);
        }
        assert(a.to_multiset().count(y) > 0) by {
            assert(sorted.to_multiset().count(y) > 0);
        }
        assert(a.contains(x) && a.contains(y));
        let i = choose|i: int| 0 <= i < a.len() && a[i] == x;
        let j = choose|j: int| 0 <= j < a.len() && a[j] == y;
        assert(a[i].room_number.0 == a[j].room_number.0);
        assert(i == j);
    }
    list::lemma_same_order(sorted, list::in_order(b, less), less);
}

/// Multiplying by the factor of the hash loses nothing.
proof fn lemma_factor_keeps(x: u64, y: u64)
    requires
        x.wrapping_mul(FNV_PRIME) == y.wrapping_mul(FNV_PRIME),
    ensures
        x == y,
{
    lemma_factor_inverse(x);
    lemma_factor_inverse(y);
}

/// The factor of the hash has an inverse.
proof fn lemma_factor_inverse(x: u64)
    ensures
        (x.wrapping_mul(FNV_PRIME) as int * 0xce96_5057_aff6_957bint) % 0x1_0000_0000_0000_0000int == x,
{
    let m = 0x1_0000_0000_0000_0000int;
    let q = 0xce96_5057_aff6_957bint;
    let factor = 0x0000_0100_0000_01b3int;
    let product = x as int * factor;
    assert(x.wrapping_mul(FNV_PRIME) as int == product % m);
    vstd::arithmetic::div_mod::lemma_mul_mod_noop_left(product, q, m);
    assert(factor * q == 887_285_111_055int * m + 1);
    assert(product * q == (x as int * 887_285_111_055int) * m + x as int) by (nonlinear_arith)
        requires
            product == x as int * factor,
            factor * q == 887_285_111_055int * m + 1,
    ;
    vstd::arithmetic::div_mod::lemma_mod_multiples_vanish(x as int * 887_285_111_055int, x as int, m);
    assert(m * (x as int * 887_285_111_055int) == (x as int * 887_285_111_055int) * m) by (nonlinear_arith);
    vstd::arithmetic::div_mod::lemma_small_mod(x as nat, m as nat);
}

/// The hash tells apart bytes that differ in one place, however many there are.
pub proof fn law_one_changed_byte_changes_the_hash(a: Seq<u8>, b: Seq<u8>, k: int)
    requires
        a.len() == b.len(),
        0 <= k < a.len(),
        a[k] != b[k],
        forall|i: int| 0 <= i < a.len() && i != k ==> a[i] == b[i],
    ensures
        fnv(a) != fnv(b),
    decreases a.len(),
{
    let x = fnv(a.drop_last());
    let y = fnv(b.drop_last());
    let p = a.last();
    let q = b.last();
    if fnv(a) == fnv(b) {
        lemma_factor_keeps(x ^ (p as u64), y ^ (q as u64));
        if k == a.len() - 1 {
            assert(a.drop_last() =~= b.drop_last());
            assert(p == q) by (bit_vector)
                requires
                    x ^ (p as u64) == x ^ (q as u64),
            ;
        } else {
            law_one_changed_byte_changes_the_hash(a.drop_last(), b.drop_last(), k);
            assert(x == y) by (bit_vector)
                requires
                    x ^ (p as u64) == y ^ (p as u64),
            ;
        }
    }
}

/// Whether two lists of bytes differ in one place alone.
pub open spec fn differ_at(a: Seq<u8>, b: Seq<u8>, k: int) -> bool {
    &&& a.len() == b.len()
    &&& 0 <= k < a.len()
    &&& a[k] != b[k]
    &&& forall|i: int| 0 <= i < a.len() && i != k ==> a[i] == b[i]
}

/// Lists of obstacles of which one differs in one byte have bytes that differ in one
/// place.
proof fn lemma_bytes_differ(a: Seq<RouteObstacle>, b: Seq<RouteObstacle>, place: int, k: int) -> (at: int)
    requires
        a.len() == b.len(),
        0 <= place < a.len(),
        forall|i: int| 0 <= i < a.len() && i != place ==> a[i] == b[i],
        differ_at(obstacle_bytes(a[place]), obstacle_bytes(b[place]), k),
    ensures
        differ_at(
            list::collect(a, |obstacle: RouteObstacle| obstacle_bytes(obstacle)),
            list::collect(b, |obstacle: RouteObstacle| obstacle_bytes(obstacle)),
            at,
        ),
    decreases a.len(),
{
    let f = |obstacle: RouteObstacle| obstacle_bytes(obstacle);
    let rest_a = a.drop_last();
    let rest_b = b.drop_last();
    let early_a = list::collect(rest_a, f);
    let early_b = list::collect(rest_b, f);
    let all_a = list::collect(a, f);
    let all_b = list::collect(b, f);
    assert(all_a == early_a + obstacle_bytes(a.last()));
    assert(all_b == early_b + obstacle_bytes(b.last()));
    if place == a.len() - 1 {
        assert(rest_a =~= rest_b);
        let at = early_a.len() + k;
        assert forall|i: int| 0 <= i < all_a.len() && i != at implies all_a[i] == all_b[i] by {
            if i < early_a.len() {
                assert(all_a[i] == early_a[i] && all_b[i] == early_b[i]);
            } else {
                let j = i - early_a.len();
                assert(obstacle_bytes(a.last())[j] == obstacle_bytes(b.last())[j]);
            }
        }
        at
    } else {
        let at = lemma_bytes_differ(rest_a, rest_b, place, k);
        assert(a.last() == b.last());
        assert forall|i: int| 0 <= i < all_a.len() && i != at implies all_a[i] == all_b[i] by {
            if i < early_a.len() {
                assert(all_a[i] == early_a[i] && all_b[i] == early_b[i]);
            }
        }
        at
    }
}

/// The signature follows the geometry: it changes when the bounds of one obstacle change
/// by one byte, whatever the other obstacles and whatever the order they are given in.
pub proof fn law_one_changed_bound_changes_the_signature(
    obstacles: Seq<RouteObstacle>,
    place: int,
    moved: RouteObstacle,
    k: int,
)
    requires
        0 <= place < obstacles.len(),
        forall|i: int, j: int|
            0 <= i < obstacles.len() && 0 <= j < obstacles.len() && i != j ==> (
            #[trigger] obstacles[i]).room_number != (#[trigger] obstacles[j]).room_number,
        moved.room_number == obstacles[place].room_number,
        differ_at(obstacle_bytes(obstacles[place]), obstacle_bytes(moved), k),
    ensures
        signature(obstacles) != signature(obstacles.update(place, moved)),
{
    let still = obstacles[place];
    let after = obstacles.update(place, moved);
    let less = |x: RouteObstacle, y: RouteObstacle| obstacle_before(x, y);
    let f = |x: RouteObstacle|
        if x == still {
            moved
        } else {
            x
        };
    assert(obstacles.map_values(f) =~= after) by {
        assert forall|i: int| 0 <= i < obstacles.len() implies f(obstacles[i]) == after[i] by {
            if i != place {
                assert(obstacles[i].room_number != obstacles[place].room_number);
            }
        }
    }
    list::lemma_in_order_map(obstacles, f, less, less);
    let sorted = by_room(obstacles);
    let sorted_after = by_room(after);
    assert(sorted_after == sorted.map_values(f));
    list::lemma_in_order_holds(obstacles, less, still);
    assert(obstacles.contains(still));
    let at = choose|at: int| 0 <= at < sorted.len() && sorted[at] == still;
    lemma_once(obstacles, still, at);
    let changed = lemma_bytes_differ(sorted, sorted_after, at, k);
    let bytes = |obstacle: RouteObstacle| obstacle_bytes(obstacle);
    law_one_changed_byte_changes_the_hash(
        list::collect(sorted, bytes),
        list::collect(sorted_after, bytes),
        changed,
    );
}

/// An obstacle that is given once is once among the obstacles by room.
proof fn lemma_once(obstacles: Seq<RouteObstacle>, still: RouteObstacle, at: int)
    requires
        forall|i: int, j: int|
            0 <= i < obstacles.len() && 0 <= j < obstacles.len() && i != j ==> (
            #[trigger] obstacles[i]).room_number != (#[trigger] obstacles[j]).room_number,
        0 <= at < by_room(obstacles).len(),
        by_room(obstacles)[at] == still,
    ensures
        forall|i: int|
            0 <= i < by_room(obstacles).len() && i != at ==> #[trigger] by_room(obstacles)[i] != still,
{
    broadcast use vstd::seq_lib::group_to_multiset_ensures;

    let less = |x: RouteObstacle, y: RouteObstacle| obstacle_before(x, y);
    let sorted = by_room(obstacles);
    list::lemma_in_order(obstacles, less);
    assert(obstacles.no_duplicates()) by {
        assert forall|i: int, j: int| 0 <= i < obstacles.len() && 0 <= j < obstacles.len() && i
            != j implies obstacles[i] != obstacles[j] by {
            assert(obstacles[i].room_number != obstacles[j].room_number);
        }
    }
    obstacles.lemma_multiset_has_no_duplicates();
    assert(sorted.to_multiset() == obstacles.to_multiset());
    sorted.lemma_multiset_has_no_duplicates_conv();
}

// ===== Capturing =====

/// Whether a room is one that a route goes around: it is on the route's level,
/// and it is no secret, or an end of the route.
pub fn include_public_obstacle(
    room_level: i32,
    room_is_secret: bool,
    room_number: RoomNumber,
    route_level: i32,
    endpoint_rooms: [RoomNumber; 2],
) -> (included: bool)
    ensures
        included == is_obstacle(
            room_level,
            room_is_secret,
            room_number,
            route_level,
            endpoint_rooms@[0],
            endpoint_rooms@[1],
        ),
{
    room_level == route_level && (!room_is_secret || endpoint_rooms[0] == room_number
        || endpoint_rooms[1] == room_number)
}

/// Whether a room is one that a route between two rooms goes around.
pub open spec fn is_obstacle(
    room_level: i32,
    room_is_secret: bool,
    room_number: RoomNumber,
    route_level: i32,
    room_a: RoomNumber,
    room_b: RoomNumber,
) -> bool {
    room_level == route_level && (!room_is_secret || room_number == room_a || room_number == room_b)
}

/// An end of a route.
pub open spec fn route_end(endpoint: ConnectionEndpoint, room: RoomCache) -> RouteEndpoint {
    RouteEndpoint {
        room_number: endpoint.room_number,
        room_center: Point { x: room.x, y: room.y },
        side: endpoint.side,
        port_offset: endpoint.port_offset,
    }
}

/// The obstacles of a route; `bounds` are those of a room by its position.
pub open spec fn obstacles_of(
    area: AreaCache,
    route_level: i32,
    room_a: RoomNumber,
    room_b: RoomNumber,
    bounds: spec_fn(Point) -> RouteRect,
) -> Seq<RouteObstacle> {
    by_room(
        list::collect(
            area.rooms@,
            |room: RoomCache| obstacle_of(room, route_level, room_a, room_b, bounds),
        ),
    )
}

/// A room as an obstacle, when it is one.
pub open spec fn obstacle_of(
    room: RoomCache,
    route_level: i32,
    room_a: RoomNumber,
    room_b: RoomNumber,
    bounds: spec_fn(Point) -> RouteRect,
) -> Seq<RouteObstacle> {
    if is_obstacle(room.level, room.is_secret, room.room_number, route_level, room_a, room_b) {
        seq![
            RouteObstacle {
                room_number: room.room_number,
                bounds: bounds(Point { x: room.x, y: room.y }),
            },
        ]
    } else {
        Seq::empty()
    }
}

/// Why a connection cannot be routed automatically.
pub open spec fn capture_error(area: AreaCache, connection_id: ConnectionId) -> Option<Seq<char>> {
    match area.connection(connection_id) {
        None => Some("Connection no longer exists"@),
        Some(connection) => if connection.kind != ConnectionKind::Internal {
            Some("Automatic routing is available only for internal same-level links"@)
        } else {
            match connection.endpoint_b {
                None => Some("Automatic routing requires two endpoints"@),
                Some(endpoint_b) => match (
                    area.room(connection.endpoint_a.room_number),
                    area.room(endpoint_b.room_number),
                ) {
                    (Some(room_a), Some(room_b)) => if room_a.level != room_b.level {
                        Some("Automatic routing requires endpoints on the same level"@)
                    } else {
                        None
                    },
                    _ => Some("Connection endpoint room is missing"@),
                },
            }
        },
    }
}

/// A request with its snapshot.
pub struct Capture {
    pub snapshot: Snapshot,
    pub request: AutoRouteRequest,
}

/// What is captured of a connection that can be routed.
pub open spec fn is_capture(
    captured: Capture,
    area: AreaCache,
    connection_id: ConnectionId,
    bounds: spec_fn(Point) -> RouteRect,
) -> bool {
    let connection = area.connection(connection_id)->0;
    let end_a = connection.endpoint_a;
    let end_b = connection.endpoint_b->0;
    let room_a = area.room(end_a.room_number)->0;
    let room_b = area.room(end_b.room_number)->0;
    let request = captured.request;
    &&& request.endpoint_a == route_end(end_a, room_a)
    &&& request.endpoint_b == route_end(end_b, room_b)
    &&& request.obstacles@ == obstacles_of(
        area,
        room_a.level,
        end_a.room_number,
        end_b.room_number,
        bounds,
    )
    &&& request.thickness == connection.thickness
    &&& request.corner == connection.corner
    &&& captured.snapshot == (Snapshot {
        area_id: area.id,
        area_rev: area.rev,
        connection_id,
        endpoint_a: request.endpoint_a,
        endpoint_b: request.endpoint_b,
        obstacle_hash: signature(request.obstacles@),
        thickness: connection.thickness,
        corner: connection.corner,
    })
}

/// Whether a room is secret and no end of a connection.
pub open spec fn is_unrelated_secret(connection: Option<Connection>, room: RoomCache) -> bool {
    room.is_secret && match connection {
        Some(connection) => room.room_number != connection.endpoint_a.room_number && (
        connection.endpoint_b matches Some(end) ==> room.room_number != end.room_number),
        None => true,
    }
}

/// The rooms of an area without those that are secret and no end of a connection.
pub open spec fn related_rooms(area: AreaCache, connection_id: ConnectionId) -> Seq<RoomCache> {
    list::kept(
        area.rooms@,
        |room: RoomCache| !is_unrelated_secret(area.connection(connection_id), room),
    )
}

/// Secret rooms that are no end of a connection show in nothing that is captured of it:
/// areas that differ in nothing else but such rooms, in where they are or in whether they
/// are there, give the same reason not to route, or the same snapshot and request. The
/// obstacles of a request are in the order of their room numbers.
pub proof fn law_unrelated_secret_rooms_do_not_show(
    a: AreaCache,
    b: AreaCache,
    connection_id: ConnectionId,
    bounds: spec_fn(Point) -> RouteRect,
    x: Capture,
    y: Capture,
)
    requires
        a.id == b.id,
        a.rev == b.rev,
        a.connection(connection_id) == b.connection(connection_id),
        related_rooms(a, connection_id) == related_rooms(b, connection_id),
    ensures
        capture_error(a, connection_id) == capture_error(b, connection_id),
        capture_error(a, connection_id) is None && is_capture(x, a, connection_id, bounds) && is_capture(
            y,
            b,
            connection_id,
            bounds,
        ) ==> {
            &&& x.snapshot == y.snapshot
            &&& x.request.endpoint_a == y.request.endpoint_a
            &&& x.request.endpoint_b == y.request.endpoint_b
            &&& x.request.obstacles@ == y.request.obstacles@
            &&& x.request.thickness == y.request.thickness
            &&& x.request.corner == y.request.corner
            &&& forall|i: int, j: int|
                0 <= i < j < x.request.obstacles@.len() ==> (#[trigger] x.request.obstacles@[i]).room_number.0
                    <= (#[trigger] x.request.obstacles@[j]).room_number.0
        },
{
    if let Some(connection) = a.connection(connection_id) {
        let keep = |room: RoomCache| !is_unrelated_secret(Some(connection), room);
        let number_a = connection.endpoint_a.room_number;
        let at_a = |item: RoomCache| item.room_number == number_a;
        list::lemma_first_kept(a.rooms@, keep, at_a);
        list::lemma_first_kept(b.rooms@, keep, at_a);
        assert(related_rooms(a, connection_id) == list::kept(a.rooms@, keep));
        assert(related_rooms(b, connection_id) == list::kept(b.rooms@, keep));
        assert(a.room(number_a) == b.room(number_a));
        if let Some(end) = connection.endpoint_b {
            let number_b = end.room_number;
            let at_b = |item: RoomCache| item.room_number == number_b;
            list::lemma_first_kept(a.rooms@, keep, at_b);
            list::lemma_first_kept(b.rooms@, keep, at_b);
            assert(a.room(number_b) == b.room(number_b));
            if let Some(room) = a.room(number_a) {
                let f = |item: RoomCache| obstacle_of(item, room.level, number_a, number_b, bounds);
                list::lemma_collect_kept(a.rooms@, keep, f);
                list::lemma_collect_kept(b.rooms@, keep, f);
                assert(obstacles_of(a, room.level, number_a, number_b, bounds) == obstacles_of(
                    b,
                    room.level,
                    number_a,
                    number_b,
                    bounds,
                ));
                let less = |p: RouteObstacle, q: RouteObstacle| obstacle_before(p, q);
                list::lemma_in_order(list::collect(a.rooms@, f), less);
            }
        }
    }
}

/// A function gives the bounds of rooms.
pub open spec fn bounded<B: Fn(Point) -> RouteRect>(bound: B, bounds: spec_fn(Point) -> RouteRect) -> bool {
    forall|at: Point, r: RouteRect| bound.ensures((at,), r) ==> r == bounds(at)
}

/// The obstacles of a route.
fn collect_obstacles<B: Fn(Point) -> RouteRect>(
    area: &AreaCache,
    route_level: i32,
    room_a: RoomNumber,
    room_b: RoomNumber,
    bound: &B,
) -> (obstacles: Vec<RouteObstacle>)
    requires
        forall|at: Point| #[trigger] bound.requires((at,)),
    ensures
        forall|bounds: spec_fn(Point) -> RouteRect| #[trigger]
            bounded(*bound, bounds) ==> obstacles@ == obstacles_of(
                *area,
                route_level,
                room_a,
                room_b,
                bounds,
            ),
{
    let mut found: Vec<RouteObstacle> = Vec::new();
    assert(area.rooms@.take(0) =~= Seq::empty());
    for i in 0..area.rooms.len()
        invariant
            forall|at: Point| #[trigger] bound.requires((at,)),
            forall|bounds: spec_fn(Point) -> RouteRect| #[trigger]
                bounded(*bound, bounds) ==> found@ == list::collect(
                    area.rooms@.take(i as int),
                    |room: RoomCache| obstacle_of(room, route_level, room_a, room_b, bounds),
                ),
    {
        let ghost before = found@;
        let room = &area.rooms[i];
        if include_public_obstacle(
            room.level,
            room.is_secret,
            room.room_number,
            route_level,
            [room_a, room_b],
        ) {
            let bounds = bound(Point { x: room.x, y: room.y });
            found.push(RouteObstacle { room_number: room.room_number, bounds });
        }
        proof {
            assert forall|bounds: spec_fn(Point) -> RouteRect| #[trigger]
                bounded(*bound, bounds) implies found@ == list::collect(
                area.rooms@.take(i + 1),
                |room: RoomCache| obstacle_of(room, route_level, room_a, room_b, bounds),
            ) by {
                let piece = |room: RoomCache|
                    obstacle_of(room, route_level, room_a, room_b, bounds);
                list::lemma_collect_step(area.rooms@, piece, i as int);
                assert(found@ =~= before + piece(*room));
            }
        }
    }
    assert(area.rooms@.take(area.rooms.len() as int) =~= area.rooms@);
    sort_obstacles(found)
}

/// An end of a route.
fn end_of_route(endpoint: ConnectionEndpoint, room: &RoomCache) -> (end: RouteEndpoint)
    ensures
        end == route_end(endpoint, *room),
{
    RouteEndpoint {
        room_number: endpoint.room_number,
        room_center: Point { x: room.x, y: room.y },
        side: endpoint.side,
        port_offset: endpoint.port_offset,
    }
}

/// Captures what the route of a connection is computed from, or says why there is
/// none to compute.
pub fn capture<B: Fn(Point) -> RouteRect>(
    area: &AreaCache,
    connection_id: ConnectionId,
    bound: &B,
) -> (captured: Result<Capture, &'static str>)
    requires
        forall|at: Point| #[trigger] bound.requires((at,)),
    ensures
        match captured {
            Ok(captured) => {
                &&& capture_error(*area, connection_id) is None
                &&& forall|bounds: spec_fn(Point) -> RouteRect| #[trigger]
                    bounded(*bound, bounds) ==> is_capture(captured, *area, connection_id, bounds)
            },
            Err(error) => capture_error(*area, connection_id) == Some(error@),
        },
{
    let connection = match area.get_connection(&connection_id) {
        Some(connection) => connection,
        None => {
            return Err("Connection no longer exists");
        },
    };
    if connection.kind != ConnectionKind::Internal {
        return Err("Automatic routing is available only for internal same-level links");
    }
    let end_a = connection.endpoint_a;
    let end_b = match connection.endpoint_b {
        Some(end_b) => end_b,
        None => {
            return Err("Automatic routing requires two endpoints");
        },
    };
    let room_a = match area.get_room(&end_a.room_number) {
        Some(room) => room,
        None => {
            return Err("Connection endpoint room is missing");
        },
    };
    let room_b = match area.get_room(&end_b.room_number) {
        Some(room) => room,
        None => {
            return Err("Connection endpoint room is missing");
        },
    };
    if room_a.level != room_b.level {
        return Err("Automatic routing requires endpoints on the same level");
    }
    let obstacles = collect_obstacles(
        area,
        room_a.level,
        end_a.room_number,
        end_b.room_number,
        bound,
    );
    let snapshot = Snapshot {
        area_id: area.id,
        area_rev: area.rev,
        connection_id,
        endpoint_a: end_of_route(end_a, room_a),
        endpoint_b: end_of_route(end_b, room_b),
        obstacle_hash: obstacle_hash(&obstacles),
        thickness: connection.thickness,
        corner: connection.corner,
    };
    let request = AutoRouteRequest {
        endpoint_a: snapshot.endpoint_a,
        endpoint_b: snapshot.endpoint_b,
        obstacles,
        thickness: connection.thickness,
        corner: connection.corner,
    };
    Ok(Capture { snapshot, request })
}

} // verus!
