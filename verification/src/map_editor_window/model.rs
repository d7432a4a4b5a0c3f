//! The map as the editor sees it: identities, the cached entities of an area,
//! and the bodies of the writes the editor asks for.
//!
//! Coordinates, sizes and weights are single-precision floats. The editor only
//! carries them from the cache into a write, so they are held by bit pattern
//! and arithmetic on them is supplied by the caller.
//!
//! Records that hold text or route points are generic in how they hold it: the
//! executable record holds a `String` and a `Vec`, its view holds sequences.

use vstd::prelude::*;

use crate::text::{self, clone_opt, clone_opt_opt};

verus! {


/// A single-precision float, by its bit pattern.
#[derive(Clone, Copy, Debug, PartialEq, Eq, PartialOrd, Ord, Hash, Structural)]
pub struct Scalar(pub u32);

/// A position on the map plane.
#[derive(Clone, Copy, Debug, PartialEq, Eq, Structural)]
pub struct Point {
    pub x: Scalar,
    pub y: Scalar,
}

impl Scalar {
    /// `0.0`.
    #[verifier::allow_in_spec]
    pub fn zero() -> Scalar
        returns
            Scalar(0),
    {
        Scalar(0)
    }

    /// `1.0`.
    #[verifier::allow_in_spec]
    pub fn one() -> Scalar
        returns
            Scalar(0x3f80_0000),
    {
        Scalar(0x3f80_0000)
    }
}

/// The points of an optional route.
pub open spec fn opt_points(points: Option<Vec<Point>>) -> Option<Seq<Point>> {
    match points {
        Some(points) => Some(points@),
        None => None,
    }
}

/// A copy of a route.
pub fn clone_points(points: &Vec<Point>) -> (r: Vec<Point>)
    ensures
        r@ == points@,
{
    let mut r: Vec<Point> = Vec::new();
    for i in 0..points.len()
        invariant
            r@ == points@.take(i as int),
    {
        r.push(points[i]);
        assert(points@.take(i + 1) =~= points@.take(i as int).push(points@[i as int]));
    }
    assert(points@.take(points.len() as int) =~= points@);
    r
}

/// A copy of an optional route.
pub fn clone_opt_points(points: &Option<Vec<Point>>) -> (r: Option<Vec<Point>>)
    ensures
        opt_points(r) == opt_points(*points),
{
    match points {
        Some(points) => Some(clone_points(points)),
        None => None,
    }
}

/// An area.
#[derive(Clone, Copy, Debug, PartialEq, Eq, PartialOrd, Ord, Hash, Structural)]
pub struct AreaId(pub u128);

/// An exit, one way out of a room.
#[derive(Clone, Copy, Debug, PartialEq, Eq, PartialOrd, Ord, Hash, Structural)]
pub struct ExitId(pub u128);

/// A connection, the drawn link that one or two exits share.
#[derive(Clone, Copy, Debug, PartialEq, Eq, PartialOrd, Ord, Hash, Structural)]
pub struct ConnectionId(pub u128);

/// A text label.
#[derive(Clone, Copy, Debug, PartialEq, Eq, PartialOrd, Ord, Hash, Structural)]
pub struct LabelId(pub u128);

/// A drawn shape.
#[derive(Clone, Copy, Debug, PartialEq, Eq, PartialOrd, Ord, Hash, Structural)]
pub struct ShapeId(pub u128);

/// A durably enqueued operation.
#[derive(Clone, Copy, Debug, PartialEq, Eq, PartialOrd, Ord, Hash, Structural)]
pub struct OperationId(pub u128);

/// A folder of areas.
#[derive(Clone, Copy, Debug, PartialEq, Eq, PartialOrd, Ord, Hash, Structural)]
pub struct AtlasId(pub u128);

/// A person who owns or shares maps.
#[derive(Clone, Copy, Debug, PartialEq, Eq, PartialOrd, Ord, Hash, Structural)]
pub struct UserId(pub u128);

/// A room within its area.
#[derive(Clone, Copy, Debug, PartialEq, Eq, PartialOrd, Ord, Hash, Structural)]
pub struct RoomNumber(pub i32);

/// A room together with its area.
#[derive(Clone, Copy, Debug, PartialEq, Eq, Structural)]
pub struct RoomKey {
    pub area_id: AreaId,
    pub room_number: RoomNumber,
}

impl RoomKey {
    pub fn new(area_id: AreaId, room_number: RoomNumber) -> (key: Self)
        ensures
            key == (RoomKey { area_id, room_number }),
    {
        RoomKey { area_id, room_number }
    }
}

/// The direction an exit leaves by.
#[derive(Clone, Copy, Debug, PartialEq, Eq, Structural)]
pub enum ExitDirection {
    North,
    East,
    South,
    West,
    Northeast,
    Southeast,
    Southwest,
    Northwest,
    /// Reached by a command of its own.
    Special,
    /// A vertical or inward direction, by its place in the list of directions.
    Other(u8),
}

/// A wall of a room.
#[derive(Clone, Copy, Debug, PartialEq, Eq, Structural)]
pub enum RoomSide {
    North,
    East,
    South,
    West,
}

/// How an endpoint keeps its place on a wall.
#[derive(Clone, Copy, Debug, PartialEq, Eq, Structural)]
pub enum PortMode {
    /// Placed automatically; redistribution may move it.
    AutoPinned,
    /// Placed by hand; stays put.
    Manual,
}

/// How a connection is drawn.
#[derive(Clone, Copy, Debug, PartialEq, Eq, Structural)]
pub enum ConnectionRouting {
    Stub,
    Simple,
    Manual,
    Automatic,
}

/// The shape of the segments of a stored route.
#[derive(Clone, Copy, Debug, PartialEq, Eq, Structural)]
pub enum SegmentShape {
    Direct,
    Orthogonal,
    /// Any other shape, by its place in the list.
    Other(u8),
}

/// How a route turns.
#[derive(Clone, Copy, Debug, PartialEq, Eq, Structural)]
pub enum CornerStyle {
    Sharp,
    /// Any other style, by its place in the list.
    Other(u8),
}

/// How a connection is stroked.
#[derive(Clone, Copy, Debug, PartialEq, Eq, Structural)]
pub enum ConnectionDash {
    Solid,
    /// Any other pattern, by its place in the list.
    Other(u8),
}

/// What a connection joins.
#[derive(Clone, Copy, Debug, PartialEq, Eq, Structural)]
pub enum ConnectionKind {
    Internal,
    SelfLoop,
    /// A link that leaves the area or leads nowhere.
    Other(u8),
}

/// The alignment of a label along one axis.
#[derive(Clone, Copy, Debug, PartialEq, Eq, Structural)]
pub enum Alignment {
    /// The alignment of a new label.
    Standard,
    /// Any other alignment, by its place in the list.
    Other(u8),
}

/// The outline of a shape.
#[derive(Clone, Copy, Debug, PartialEq, Eq, Structural)]
pub enum ShapeType {
    /// The outline of a new shape.
    Standard,
    /// Any other outline, by its place in the list.
    Other(u8),
}

/// Where a connection meets a room: a wall, how far along it, and how the place
/// was chosen.
#[derive(Clone, Copy, Debug, PartialEq, Eq, Structural)]
pub struct ConnectionEndpoint {
    pub room_number: RoomNumber,
    pub side: RoomSide,
    pub port_offset: Scalar,
    pub port_mode: PortMode,
}

/// The body of an exit creation.
pub struct ExitArgs<T = String> {
    pub id: Option<ExitId>,
    pub connection_id: Option<ConnectionId>,
    pub new_connection_id: Option<ConnectionId>,
    pub is_secret: Option<bool>,
    pub from_direction: ExitDirection,
    pub to_area_id: Option<AreaId>,
    pub to_room_number: Option<RoomNumber>,
    pub to_direction: Option<ExitDirection>,
    pub path: Option<T>,
    pub is_hidden: bool,
    pub is_closed: bool,
    pub is_locked: bool,
    pub weight: Scalar,
    pub command: Option<T>,
}

impl View for ExitArgs<String> {
    type V = ExitArgs<Seq<char>>;

    open spec fn view(&self) -> ExitArgs<Seq<char>> {
        ExitArgs {
            id: self.id,
            connection_id: self.connection_id,
            new_connection_id: self.new_connection_id,
            is_secret: self.is_secret,
            from_direction: self.from_direction,
            to_area_id: self.to_area_id,
            to_room_number: self.to_room_number,
            to_direction: self.to_direction,
            path: text::opt_text(self.path),
            is_hidden: self.is_hidden,
            is_closed: self.is_closed,
            is_locked: self.is_locked,
            weight: self.weight,
            command: text::opt_text(self.command),
        }
    }
}

impl Clone for ExitArgs<String> {
    fn clone(&self) -> (r: Self)
        ensures
            r@ == self@,
    {
        ExitArgs {
            id: self.id,
            connection_id: self.connection_id,
            new_connection_id: self.new_connection_id,
            is_secret: self.is_secret,
            from_direction: self.from_direction,
            to_area_id: self.to_area_id,
            to_room_number: self.to_room_number,
            to_direction: self.to_direction,
            path: clone_opt(&self.path),
            is_hidden: self.is_hidden,
            is_closed: self.is_closed,
            is_locked: self.is_locked,
            weight: self.weight,
            command: clone_opt(&self.command),
        }
    }
}

/// The body of an exit update. Destination fields left out keep their value;
/// only `clear_to` removes a destination.
pub struct ExitUpdates<T = String> {
    pub is_secret: Option<bool>,
    pub clear_to: Option<bool>,
    pub from_direction: Option<ExitDirection>,
    pub to_area_id: Option<AreaId>,
    pub to_room_number: Option<RoomNumber>,
    pub to_direction: Option<ExitDirection>,
    pub path: Option<T>,
    pub is_hidden: Option<bool>,
    pub is_closed: Option<bool>,
    pub is_locked: Option<bool>,
    pub weight: Option<Scalar>,
    pub command: Option<T>,
}

impl View for ExitUpdates<String> {
    type V = ExitUpdates<Seq<char>>;

    open spec fn view(&self) -> ExitUpdates<Seq<char>> {
        ExitUpdates {
            is_secret: self.is_secret,
            clear_to: self.clear_to,
            from_direction: self.from_direction,
            to_area_id: self.to_area_id,
            to_room_number: self.to_room_number,
            to_direction: self.to_direction,
            path: text::opt_text(self.path),
            is_hidden: self.is_hidden,
            is_closed: self.is_closed,
            is_locked: self.is_locked,
            weight: self.weight,
            command: text::opt_text(self.command),
        }
    }
}

impl Clone for ExitUpdates<String> {
    fn clone(&self) -> (r: Self)
        ensures
            r@ == self@,
    {
        ExitUpdates {
            is_secret: self.is_secret,
            clear_to: self.clear_to,
            from_direction: self.from_direction,
            to_area_id: self.to_area_id,
            to_room_number: self.to_room_number,
            to_direction: self.to_direction,
            path: clone_opt(&self.path),
            is_hidden: self.is_hidden,
            is_closed: self.is_closed,
            is_locked: self.is_locked,
            weight: self.weight,
            command: clone_opt(&self.command),
        }
    }
}

impl ExitUpdates<Seq<char>> {
    /// Nothing to change.
    pub open spec fn none() -> Self {
        ExitUpdates {
            is_secret: None,
            clear_to: None,
            from_direction: None,
            to_area_id: None,
            to_room_number: None,
            to_direction: None,
            path: None,
            is_hidden: None,
            is_closed: None,
            is_locked: None,
            weight: None,
            command: None,
        }
    }
}

impl Default for ExitUpdates<String> {
    fn default() -> (r: Self)
        ensures
            r@ == ExitUpdates::<Seq<char>>::none(),
    {
        ExitUpdates {
            is_secret: None,
            clear_to: None,
            from_direction: None,
            to_area_id: None,
            to_room_number: None,
            to_direction: None,
            path: None,
            is_hidden: None,
            is_closed: None,
            is_locked: None,
            weight: None,
            command: None,
        }
    }
}

/// The body of a room creation or update; fields left out keep their value.
pub struct RoomUpdates<T = String> {
    pub is_secret: Option<bool>,
    pub title: Option<T>,
    pub description: Option<T>,
    pub level: Option<i32>,
    pub x: Option<Scalar>,
    pub y: Option<Scalar>,
    pub color: Option<T>,
    pub external_id: Option<Option<T>>,
}

impl View for RoomUpdates<String> {
    type V = RoomUpdates<Seq<char>>;

    open spec fn view(&self) -> RoomUpdates<Seq<char>> {
        RoomUpdates {
            is_secret: self.is_secret,
            title: text::opt_text(self.title),
            description: text::opt_text(self.description),
            level: self.level,
            x: self.x,
            y: self.y,
            color: text::opt_text(self.color),
            external_id: text::opt_opt_text(self.external_id),
        }
    }
}

impl Clone for RoomUpdates<String> {
    fn clone(&self) -> (r: Self)
        ensures
            r@ == self@,
    {
        RoomUpdates {
            is_secret: self.is_secret,
            title: clone_opt(&self.title),
            description: clone_opt(&self.description),
            level: self.level,
            x: self.x,
            y: self.y,
            color: clone_opt(&self.color),
            external_id: clone_opt_opt(&self.external_id),
        }
    }
}

impl RoomUpdates<Seq<char>> {
    /// Nothing to change.
    pub open spec fn none() -> Self {
        RoomUpdates {
            is_secret: None,
            title: None,
            description: None,
            level: None,
            x: None,
            y: None,
            color: None,
            external_id: None,
        }
    }
}

impl Default for RoomUpdates<String> {
    fn default() -> (r: Self)
        ensures
            r@ == RoomUpdates::<Seq<char>>::none(),
    {
        RoomUpdates {
            is_secret: None,
            title: None,
            description: None,
            level: None,
            x: None,
            y: None,
            color: None,
            external_id: None,
        }
    }
}

/// The body of a label creation.
pub struct LabelArgs<T = String> {
    pub id: Option<LabelId>,
    pub is_secret: Option<bool>,
    pub level: i32,
    pub x: Scalar,
    pub y: Scalar,
    pub width: Scalar,
    pub height: Scalar,
    pub horizontal_alignment: Alignment,
    pub vertical_alignment: Alignment,
    pub text: T,
    pub color: T,
    pub background_color: Option<T>,
    pub font_size: i32,
    pub font_weight: i32,
}

impl View for LabelArgs<String> {
    type V = LabelArgs<Seq<char>>;

    open spec fn view(&self) -> LabelArgs<Seq<char>> {
        LabelArgs {
            id: self.id,
            is_secret: self.is_secret,
            level: self.level,
            x: self.x,
            y: self.y,
            width: self.width,
            height: self.height,
            horizontal_alignment: self.horizontal_alignment,
            vertical_alignment: self.vertical_alignment,
            text: self.text@,
            color: self.color@,
            background_color: text::opt_text(self.background_color),
            font_size: self.font_size,
            font_weight: self.font_weight,
        }
    }
}

impl Clone for LabelArgs<String> {
    fn clone(&self) -> (r: Self)
        ensures
            r@ == self@,
    {
        LabelArgs {
            id: self.id,
            is_secret: self.is_secret,
            level: self.level,
            x: self.x,
            y: self.y,
            width: self.width,
            height: self.height,
            horizontal_alignment: self.horizontal_alignment,
            vertical_alignment: self.vertical_alignment,
            text: self.text.clone(),
            color: self.color.clone(),
            background_color: clone_opt(&self.background_color),
            font_size: self.font_size,
            font_weight: self.font_weight,
        }
    }
}

/// The body of a label update; fields left out keep their value.
pub struct LabelUpdates<T = String> {
    pub is_secret: Option<bool>,
    pub level: Option<i32>,
    pub x: Option<Scalar>,
    pub y: Option<Scalar>,
    pub width: Option<Scalar>,
    pub height: Option<Scalar>,
    pub horizontal_alignment: Option<Alignment>,
    pub vertical_alignment: Option<Alignment>,
    pub text: Option<T>,
    pub color: Option<T>,
    pub background_color: Option<T>,
    pub font_size: Option<i32>,
    pub font_weight: Option<i32>,
}

impl View for LabelUpdates<String> {
    type V = LabelUpdates<Seq<char>>;

    open spec fn view(&self) -> LabelUpdates<Seq<char>> {
        LabelUpdates {
            is_secret: self.is_secret,
            level: self.level,
            x: self.x,
            y: self.y,
            width: self.width,
            height: self.height,
            horizontal_alignment: self.horizontal_alignment,
            vertical_alignment: self.vertical_alignment,
            text: text::opt_text(self.text),
            color: text::opt_text(self.color),
            background_color: text::opt_text(self.background_color),
            font_size: self.font_size,
            font_weight: self.font_weight,
        }
    }
}

impl Clone for LabelUpdates<String> {
    fn clone(&self) -> (r: Self)
        ensures
            r@ == self@,
    {
        LabelUpdates {
            is_secret: self.is_secret,
            level: self.level,
            x: self.x,
            y: self.y,
            width: self.width,
            height: self.height,
            horizontal_alignment: self.horizontal_alignment,
            vertical_alignment: self.vertical_alignment,
            text: clone_opt(&self.text),
            color: clone_opt(&self.color),
            background_color: clone_opt(&self.background_color),
            font_size: self.font_size,
            font_weight: self.font_weight,
        }
    }
}

impl LabelUpdates<Seq<char>> {
    /// Nothing to change.
    pub open spec fn none() -> Self {
        LabelUpdates {
            is_secret: None,
            level: None,
            x: None,
            y: None,
            width: None,
            height: None,
            horizontal_alignment: None,
            vertical_alignment: None,
            text: None,
            color: None,
            background_color: None,
            font_size: None,
            font_weight: None,
        }
    }
}

impl Default for LabelUpdates<String> {
    fn default() -> (r: Self)
        ensures
            r@ == LabelUpdates::<Seq<char>>::none(),
    {
        LabelUpdates {
            is_secret: None,
            level: None,
            x: None,
            y: None,
            width: None,
            height: None,
            horizontal_alignment: None,
            vertical_alignment: None,
            text: None,
            color: None,
            background_color: None,
            font_size: None,
            font_weight: None,
        }
    }
}

/// The body of a shape creation.
pub struct ShapeArgs<T = String> {
    pub id: Option<ShapeId>,
    pub is_secret: Option<bool>,
    pub level: i32,
    pub x: Scalar,
    pub y: Scalar,
    pub width: Scalar,
    pub height: Scalar,
    pub background_color: Option<T>,
    pub stroke_color: Option<T>,
    pub shape_type: ShapeType,
    pub border_radius: Scalar,
    pub stroke_width: Option<Scalar>,
}

impl View for ShapeArgs<String> {
    type V = ShapeArgs<Seq<char>>;

    open spec fn view(&self) -> ShapeArgs<Seq<char>> {
        ShapeArgs {
            id: self.id,
            is_secret: self.is_secret,
            level: self.level,
            x: self.x,
            y: self.y,
            width: self.width,
            height: self.height,
            background_color: text::opt_text(self.background_color),
            stroke_color: text::opt_text(self.stroke_color),
            shape_type: self.shape_type,
            border_radius: self.border_radius,
            stroke_width: self.stroke_width,
        }
    }
}

impl Clone for ShapeArgs<String> {
    fn clone(&self) -> (r: Self)
        ensures
            r@ == self@,
    {
        ShapeArgs {
            id: self.id,
            is_secret: self.is_secret,
            level: self.level,
            x: self.x,
            y: self.y,
            width: self.width,
            height: self.height,
            background_color: clone_opt(&self.background_color),
            stroke_color: clone_opt(&self.stroke_color),
            shape_type: self.shape_type,
            border_radius: self.border_radius,
            stroke_width: self.stroke_width,
        }
    }
}

/// The body of a shape update; fields left out keep their value.
pub struct ShapeUpdates<T = String> {
    pub is_secret: Option<bool>,
    pub level: Option<i32>,
    pub x: Option<Scalar>,
    pub y: Option<Scalar>,
    pub width: Option<Scalar>,
    pub height: Option<Scalar>,
    pub background_color: Option<T>,
    pub stroke_color: Option<T>,
    pub shape_type: Option<ShapeType>,
    pub border_radius: Option<Scalar>,
    pub stroke_width: Option<Scalar>,
}

impl View for ShapeUpdates<String> {
    type V = ShapeUpdates<Seq<char>>;

    open spec fn view(&self) -> ShapeUpdates<Seq<char>> {
        ShapeUpdates {
            is_secret: self.is_secret,
            level: self.level,
            x: self.x,
            y: self.y,
            width: self.width,
            height: self.height,
            background_color: text::opt_text(self.background_color),
            stroke_color: text::opt_text(self.stroke_color),
            shape_type: self.shape_type,
            border_radius: self.border_radius,
            stroke_width: self.stroke_width,
        }
    }
}

impl Clone for ShapeUpdates<String> {
    fn clone(&self) -> (r: Self)
        ensures
            r@ == self@,
    {
        ShapeUpdates {
            is_secret: self.is_secret,
            level: self.level,
            x: self.x,
            y: self.y,
            width: self.width,
            height: self.height,
            background_color: clone_opt(&self.background_color),
            stroke_color: clone_opt(&self.stroke_color),
            shape_type: self.shape_type,
            border_radius: self.border_radius,
            stroke_width: self.stroke_width,
        }
    }
}

impl ShapeUpdates<Seq<char>> {
    /// Nothing to change.
    pub open spec fn none() -> Self {
        ShapeUpdates {
            is_secret: None,
            level: None,
            x: None,
            y: None,
            width: None,
            height: None,
            background_color: None,
            stroke_color: None,
            shape_type: None,
            border_radius: None,
            stroke_width: None,
        }
    }
}

impl Default for ShapeUpdates<String> {
    fn default() -> (r: Self)
        ensures
            r@ == ShapeUpdates::<Seq<char>>::none(),
    {
        ShapeUpdates {
            is_secret: None,
            level: None,
            x: None,
            y: None,
            width: None,
            height: None,
            background_color: None,
            stroke_color: None,
            shape_type: None,
            border_radius: None,
            stroke_width: None,
        }
    }
}

/// The body of a connection creation.
pub struct ConnectionArgs<T = String, R = Vec<Point>> {
    pub id: ConnectionId,
    pub endpoint_a: ConnectionEndpoint,
    pub endpoint_b: Option<ConnectionEndpoint>,
    pub routing: ConnectionRouting,
    pub segment_shape: SegmentShape,
    pub corner: CornerStyle,
    pub route_points: R,
    pub dash: ConnectionDash,
    pub color: T,
    pub thickness: Scalar,
}

impl View for ConnectionArgs<String, Vec<Point>> {
    type V = ConnectionArgs<Seq<char>, Seq<Point>>;

    open spec fn view(&self) -> ConnectionArgs<Seq<char>, Seq<Point>> {
        ConnectionArgs {
            id: self.id,
            endpoint_a: self.endpoint_a,
            endpoint_b: self.endpoint_b,
            routing: self.routing,
            segment_shape: self.segment_shape,
            corner: self.corner,
            route_points: self.route_points@,
            dash: self.dash,
            color: self.color@,
            thickness: self.thickness,
        }
    }
}

impl Clone for ConnectionArgs<String, Vec<Point>> {
    fn clone(&self) -> (r: Self)
        ensures
            r@ == self@,
    {
        ConnectionArgs {
            id: self.id,
            endpoint_a: self.endpoint_a,
            endpoint_b: self.endpoint_b,
            routing: self.routing,
            segment_shape: self.segment_shape,
            corner: self.corner,
            route_points: clone_points(&self.route_points),
            dash: self.dash,
            color: self.color.clone(),
            thickness: self.thickness,
        }
    }
}

/// The body of a connection update; fields left out keep their value. Endpoint B
/// can be moved but not removed.
pub struct ConnectionUpdates<T = String, R = Vec<Point>> {
    pub endpoint_a: Option<ConnectionEndpoint>,
    pub endpoint_b: Option<ConnectionEndpoint>,
    pub routing: Option<ConnectionRouting>,
    pub segment_shape: Option<SegmentShape>,
    pub corner: Option<CornerStyle>,
    pub route_points: Option<R>,
    pub dash: Option<ConnectionDash>,
    pub color: Option<T>,
    pub thickness: Option<Scalar>,
}

impl View for ConnectionUpdates<String, Vec<Point>> {
    type V = ConnectionUpdates<Seq<char>, Seq<Point>>;

    open spec fn view(&self) -> ConnectionUpdates<Seq<char>, Seq<Point>> {
        ConnectionUpdates {
            endpoint_a: self.endpoint_a,
            endpoint_b: self.endpoint_b,
            routing: self.routing,
            segment_shape: self.segment_shape,
            corner: self.corner,
            route_points: opt_points(self.route_points),
            dash: self.dash,
            color: text::opt_text(self.color),
            thickness: self.thickness,
        }
    }
}

impl Clone for ConnectionUpdates<String, Vec<Point>> {
    fn clone(&self) -> (r: Self)
        ensures
            r@ == self@,
    {
        ConnectionUpdates {
            endpoint_a: self.endpoint_a,
            endpoint_b: self.endpoint_b,
            routing: self.routing,
            segment_shape: self.segment_shape,
            corner: self.corner,
            route_points: clone_opt_points(&self.route_points),
            dash: self.dash,
            color: clone_opt(&self.color),
            thickness: self.thickness,
        }
    }
}

impl ConnectionUpdates<Seq<char>, Seq<Point>> {
    /// Nothing to change.
    pub open spec fn none() -> Self {
        ConnectionUpdates {
            endpoint_a: None,
            endpoint_b: None,
            routing: None,
            segment_shape: None,
            corner: None,
            route_points: None,
            dash: None,
            color: None,
            thickness: None,
        }
    }
}

impl Default for ConnectionUpdates<String, Vec<Point>> {
    fn default() -> (r: Self)
        ensures
            r@ == ConnectionUpdates::<Seq<char>, Seq<Point>>::none(),
    {
        ConnectionUpdates {
            endpoint_a: None,
            endpoint_b: None,
            routing: None,
            segment_shape: None,
            corner: None,
            route_points: None,
            dash: None,
            color: None,
            thickness: None,
        }
    }
}

/// A cached connection.
pub struct Connection<T = String, R = Vec<Point>> {
    pub id: ConnectionId,
    pub kind: ConnectionKind,
    pub endpoint_a: ConnectionEndpoint,
    pub endpoint_b: Option<ConnectionEndpoint>,
    pub routing: ConnectionRouting,
    pub segment_shape: SegmentShape,
    pub corner: CornerStyle,
    pub route_points: R,
    pub dash: ConnectionDash,
    pub color: T,
    pub thickness: Scalar,
}

impl View for Connection<String, Vec<Point>> {
    type V = Connection<Seq<char>, Seq<Point>>;

    open spec fn view(&self) -> Connection<Seq<char>, Seq<Point>> {
        Connection {
            id: self.id,
            kind: self.kind,
            endpoint_a: self.endpoint_a,
            endpoint_b: self.endpoint_b,
            routing: self.routing,
            segment_shape: self.segment_shape,
            corner: self.corner,
            route_points: self.route_points@,
            dash: self.dash,
            color: self.color@,
            thickness: self.thickness,
        }
    }
}

impl Clone for Connection<String, Vec<Point>> {
    fn clone(&self) -> (r: Self)
        ensures
            r@ == self@,
    {
        Connection {
            id: self.id,
            kind: self.kind,
            endpoint_a: self.endpoint_a,
            endpoint_b: self.endpoint_b,
            routing: self.routing,
            segment_shape: self.segment_shape,
            corner: self.corner,
            route_points: clone_points(&self.route_points),
            dash: self.dash,
            color: self.color.clone(),
            thickness: self.thickness,
        }
    }
}

/// A cached exit.
pub struct ExitCache<T = String> {
    pub id: ExitId,
    pub connection_id: ConnectionId,
    pub from_direction: ExitDirection,
    pub to_area_id: Option<AreaId>,
    pub to_room_number: Option<RoomNumber>,
    pub to_direction: Option<ExitDirection>,
    pub path: Option<T>,
    pub is_hidden: bool,
    pub is_closed: bool,
    pub is_locked: bool,
    pub weight: Scalar,
    pub command: Option<T>,
    pub is_secret: bool,
    /// The destination exists but was withheld from this viewer.
    pub to_unknown: bool,
}

impl View for ExitCache<String> {
    type V = ExitCache<Seq<char>>;

    open spec fn view(&self) -> ExitCache<Seq<char>> {
        ExitCache {
            id: self.id,
            connection_id: self.connection_id,
            from_direction: self.from_direction,
            to_area_id: self.to_area_id,
            to_room_number: self.to_room_number,
            to_direction: self.to_direction,
            path: text::opt_text(self.path),
            is_hidden: self.is_hidden,
            is_closed: self.is_closed,
            is_locked: self.is_locked,
            weight: self.weight,
            command: text::opt_text(self.command),
            is_secret: self.is_secret,
            to_unknown: self.to_unknown,
        }
    }
}

impl Clone for ExitCache<String> {
    fn clone(&self) -> (r: Self)
        ensures
            r@ == self@,
    {
        ExitCache {
            id: self.id,
            connection_id: self.connection_id,
            from_direction: self.from_direction,
            to_area_id: self.to_area_id,
            to_room_number: self.to_room_number,
            to_direction: self.to_direction,
            path: clone_opt(&self.path),
            is_hidden: self.is_hidden,
            is_closed: self.is_closed,
            is_locked: self.is_locked,
            weight: self.weight,
            command: clone_opt(&self.command),
            is_secret: self.is_secret,
            to_unknown: self.to_unknown,
        }
    }
}

/// A cached label.
pub struct LabelCache<T = String> {
    pub id: LabelId,
    pub level: i32,
    pub x: Scalar,
    pub y: Scalar,
    pub width: Scalar,
    pub height: Scalar,
    pub horizontal_alignment: Alignment,
    pub vertical_alignment: Alignment,
    pub text: T,
    pub color: T,
    /// Empty when transparent.
    pub background_color: T,
    pub font_size: i32,
    pub font_weight: i32,
    pub is_secret: bool,
}

impl View for LabelCache<String> {
    type V = LabelCache<Seq<char>>;

    open spec fn view(&self) -> LabelCache<Seq<char>> {
        LabelCache {
            id: self.id,
            level: self.level,
            x: self.x,
            y: self.y,
            width: self.width,
            height: self.height,
            horizontal_alignment: self.horizontal_alignment,
            vertical_alignment: self.vertical_alignment,
            text: self.text@,
            color: self.color@,
            background_color: self.background_color@,
            font_size: self.font_size,
            font_weight: self.font_weight,
            is_secret: self.is_secret,
        }
    }
}

impl Clone for LabelCache<String> {
    fn clone(&self) -> (r: Self)
        ensures
            r@ == self@,
    {
        LabelCache {
            id: self.id,
            level: self.level,
            x: self.x,
            y: self.y,
            width: self.width,
            height: self.height,
            horizontal_alignment: self.horizontal_alignment,
            vertical_alignment: self.vertical_alignment,
            text: self.text.clone(),
            color: self.color.clone(),
            background_color: self.background_color.clone(),
            font_size: self.font_size,
            font_weight: self.font_weight,
            is_secret: self.is_secret,
        }
    }
}

/// A cached shape.
pub struct ShapeCache<T = String> {
    pub id: ShapeId,
    pub level: i32,
    pub x: Scalar,
    pub y: Scalar,
    pub width: Scalar,
    pub height: Scalar,
    pub background_color: Option<T>,
    pub stroke_color: Option<T>,
    pub shape_type: ShapeType,
    pub border_radius: Scalar,
    pub stroke_width: Scalar,
    pub is_secret: bool,
}

impl View for ShapeCache<String> {
    type V = ShapeCache<Seq<char>>;

    open spec fn view(&self) -> ShapeCache<Seq<char>> {
        ShapeCache {
            id: self.id,
            level: self.level,
            x: self.x,
            y: self.y,
            width: self.width,
            height: self.height,
            background_color: text::opt_text(self.background_color),
            stroke_color: text::opt_text(self.stroke_color),
            shape_type: self.shape_type,
            border_radius: self.border_radius,
            stroke_width: self.stroke_width,
            is_secret: self.is_secret,
        }
    }
}

impl Clone for ShapeCache<String> {
    fn clone(&self) -> (r: Self)
        ensures
            r@ == self@,
    {
        ShapeCache {
            id: self.id,
            level: self.level,
            x: self.x,
            y: self.y,
            width: self.width,
            height: self.height,
            background_color: clone_opt(&self.background_color),
            stroke_color: clone_opt(&self.stroke_color),
            shape_type: self.shape_type,
            border_radius: self.border_radius,
            stroke_width: self.stroke_width,
            is_secret: self.is_secret,
        }
    }
}

/// A named value on a room or an area.
pub struct PropertyEntry<T = String> {
    pub name: T,
    pub value: T,
    pub is_secret: bool,
}

impl View for PropertyEntry<String> {
    type V = PropertyEntry<Seq<char>>;

    open spec fn view(&self) -> PropertyEntry<Seq<char>> {
        PropertyEntry {
            name: self.name@,
            value: self.value@,
            is_secret: self.is_secret,
        }
    }
}

impl Clone for PropertyEntry<String> {
    fn clone(&self) -> (r: Self)
        ensures
            r@ == self@,
    {
        PropertyEntry {
            name: self.name.clone(),
            value: self.value.clone(),
            is_secret: self.is_secret,
        }
    }
}

/// A cached room, with the exits it owns in cache order.
pub struct RoomCache {
    pub room_number: RoomNumber,
    pub title: String,
    pub description: String,
    pub level: i32,
    pub x: Scalar,
    pub y: Scalar,
    pub color: String,
    pub is_secret: bool,
    /// The room's identity on the game server, when it is known.
    pub external_id: Option<String>,
    pub properties: Vec<PropertyEntry>,
    pub tags: Vec<String>,
    pub exits: Vec<ExitCache>,
}

/// How a connection is currently drawn.
#[derive(Clone, Copy, Debug, PartialEq, Eq, Structural)]
pub struct RoomConnection {
    pub connection_id: ConnectionId,
    pub is_secret: bool,
    pub is_bidirectional: bool,
    pub stub_tip_a: Point,
    /// Absent when the connection ends in a single stub.
    pub stub_tip_b: Option<Point>,
}

/// What the viewer may do with an area.
#[derive(Clone, Copy, Debug, PartialEq, Eq, Structural)]
pub struct AreaAccess {
    pub is_owned: bool,
    pub can_edit: bool,
    pub can_copy: bool,
    pub can_share: bool,
    pub is_cleared_for_secrets: bool,
}

/// A cached area.
pub struct AreaCache {
    pub id: AreaId,
    pub name: String,
    pub rev: i64,
    pub access: AreaAccess,
    pub rooms: Vec<RoomCache>,
    pub connections: Vec<Connection>,
    pub room_connections: Vec<RoomConnection>,
    pub labels: Vec<LabelCache>,
    pub shapes: Vec<ShapeCache>,
    pub properties: Vec<PropertyEntry>,
    /// The number the cache would give the next new room.
    pub next_room_number: RoomNumber,
}

/// The cached areas.
pub struct AtlasCache {
    pub areas: Vec<AreaCache>,
}

/// A selectable entity of the edited area.
#[derive(Clone, Copy, Debug, PartialEq, Eq, Structural)]
pub enum EntityId {
    Room(RoomNumber),
    Connection(ConnectionId),
    Label(LabelId),
    Shape(ShapeId),
}

} // verus!
