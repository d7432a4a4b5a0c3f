//! Marking entities as secret.
//!
//! Secrecy is a sharing flag and no geometry, so it bypasses the undo stack: a
//! request goes to the server, the flags are mirrored into the cache at once,
//! and a failure sets them back.

use vstd::prelude::*;

use super::super::cache::{self, find_property};
use super::super::model::{AreaCache, AreaId, AtlasCache, ExitCache, ExitId, LabelId, RoomCache, RoomNumber, ShapeId};
use crate::list::{self, keep};
use crate::text::{self, decimal_text, is_empty_text, join3};

verus! {

/// A property of a room.
pub struct RoomPropertyRef<T = String> {
    pub room_number: RoomNumber,
    pub name: T,
}

impl View for RoomPropertyRef<String> {
    type V = RoomPropertyRef<Seq<char>>;

    open spec fn view(&self) -> RoomPropertyRef<Seq<char>> {
        RoomPropertyRef { room_number: self.room_number, name: self.name@ }
    }
}

/// What to mark as secret, or as no longer secret.
pub struct SecretMarksRequest {
    pub secret: bool,
    pub rooms: Vec<RoomNumber>,
    pub exits: Vec<ExitId>,
    pub labels: Vec<LabelId>,
    pub shapes: Vec<ShapeId>,
    pub room_properties: Vec<RoomPropertyRef>,
    pub area_properties: Vec<String>,
}

/// A request over sequences.
pub struct RequestView {
    pub secret: bool,
    pub rooms: Seq<RoomNumber>,
    pub exits: Seq<ExitId>,
    pub labels: Seq<LabelId>,
    pub shapes: Seq<ShapeId>,
    pub room_properties: Seq<RoomPropertyRef<Seq<char>>>,
    pub area_properties: Seq<Seq<char>>,
}

impl View for SecretMarksRequest {
    type V = RequestView;

    open spec fn view(&self) -> RequestView {
        RequestView {
            secret: self.secret,
            rooms: self.rooms@,
            exits: self.exits@,
            labels: self.labels@,
            shapes: self.shapes@,
            room_properties: self.room_properties@.map_values(|property: RoomPropertyRef| property@),
            area_properties: text::texts(self.area_properties@),
        }
    }
}

/// A request for nothing.
pub open spec fn no_marks(secret: bool) -> RequestView {
    RequestView {
        secret,
        rooms: Seq::empty(),
        exits: Seq::empty(),
        labels: Seq::empty(),
        shapes: Seq::empty(),
        room_properties: Seq::empty(),
        area_properties: Seq::empty(),
    }
}

/// Whether a request is for nothing.
pub open spec fn is_no_marks(request: RequestView) -> bool {
    &&& request.rooms.len() == 0
    &&& request.exits.len() == 0
    &&& request.labels.len() == 0
    &&& request.shapes.len() == 0
    &&& request.room_properties.len() == 0
    &&& request.area_properties.len() == 0
}

/// A request for nothing.
pub fn empty_secret_marks_request(secret: bool) -> (request: SecretMarksRequest)
    ensures
        request@ == no_marks(secret),
{
    let request = SecretMarksRequest {
        secret,
        rooms: Vec::new(),
        exits: Vec::new(),
        labels: Vec::new(),
        shapes: Vec::new(),
        room_properties: Vec::new(),
        area_properties: Vec::new(),
    };
    assert(request@.room_properties =~= Seq::empty());
    assert(request@.area_properties =~= Seq::empty());
    request
}

/// Whether a request is for nothing.
pub fn secret_marks_request_is_empty(request: &SecretMarksRequest) -> (empty: bool)
    ensures
        empty == is_no_marks(request@),
{
    request.rooms.len() == 0 && request.exits.len() == 0 && request.labels.len() == 0
        && request.shapes.len() == 0 && request.room_properties.len() == 0
        && request.area_properties.len() == 0
}

// ===== What changes =====

/// An exit of an area.
pub open spec fn area_exit(area: AreaCache, id: ExitId) -> Option<ExitCache> {
    match list::first(area.rooms@, |room: RoomCache| room.exit(id) is Some) {
        Some(room) => room.exit(id),
        None => None,
    }
}

/// Whether marking a room changes it. What is not cached is taken to change.
pub open spec fn room_changes(area: AreaCache, number: RoomNumber, target: bool) -> bool {
    match area.room(number) {
        Some(room) => room.is_secret != target,
        None => true,
    }
}

/// Whether marking an exit changes it.
pub open spec fn exit_changes(area: AreaCache, id: ExitId, target: bool) -> bool {
    match area_exit(area, id) {
        Some(exit) => exit.is_secret != target,
        None => true,
    }
}

/// Whether marking a label changes it.
pub open spec fn label_changes(area: AreaCache, id: LabelId, target: bool) -> bool {
    match area.label(id) {
        Some(label) => label.is_secret != target,
        None => true,
    }
}

/// Whether marking a shape changes it.
pub open spec fn shape_changes(area: AreaCache, id: ShapeId, target: bool) -> bool {
    match area.shape(id) {
        Some(shape) => shape.is_secret != target,
        None => true,
    }
}

/// Whether marking a property of a room changes it.
pub open spec fn room_property_changes(
    area: AreaCache,
    property: RoomPropertyRef<Seq<char>>,
    target: bool,
) -> bool {
    match area.room(property.room_number) {
        Some(room) => match cache::property_named(room.properties@, property.name) {
            Some(entry) => entry.is_secret != target,
            None => true,
        },
        None => true,
    }
}

/// Whether marking a property of an area changes it.
pub open spec fn area_property_changes(area: AreaCache, name: Seq<char>, target: bool) -> bool {
    match cache::property_named(area.properties@, name) {
        Some(entry) => entry.is_secret != target,
        None => true,
    }
}

/// A request without what it would not change.
pub open spec fn changing(atlas: AtlasCache, area_id: AreaId, request: RequestView) -> RequestView {
    match atlas.area(area_id) {
        None => request,
        Some(area) => {
            let target = request.secret;
            RequestView {
                secret: target,
                rooms: list::kept(
                    request.rooms,
                    |number: RoomNumber| room_changes(area, number, target),
                ),
                exits: list::kept(request.exits, |id: ExitId| exit_changes(area, id, target)),
                labels: list::kept(request.labels, |id: LabelId| label_changes(area, id, target)),
                shapes: list::kept(request.shapes, |id: ShapeId| shape_changes(area, id, target)),
                room_properties: list::kept(
                    request.room_properties,
                    |property: RoomPropertyRef<Seq<char>>|
                        room_property_changes(area, property, target),
                ),
                area_properties: list::kept(
                    request.area_properties,
                    |name: Seq<char>| area_property_changes(area, name, target),
                ),
            }
        },
    }
}

fn exit_differs(area: &AreaCache, id: ExitId, target: bool) -> (differs: bool)
    ensures
        differs == exit_changes(*area, id, target),
{
    let ghost holds = |room: RoomCache| room.exit(id) is Some;
    for i in 0..area.rooms.len()
        invariant
            holds == (|room: RoomCache| room.exit(id) is Some),
            forall|k: int| 0 <= k < i ==> !holds(#[trigger] area.rooms@[k]),
    {
        if let Some(exit) = area.rooms[i].get_exit(&id) {
            proof {
                list::lemma_first(area.rooms@, holds, i as int);
            }
            return exit.is_secret != target;
        }
        assert(!holds(area.rooms@[i as int]));
    }
    true
}

fn room_differs(area: &AreaCache, number: RoomNumber, target: bool) -> (differs: bool)
    ensures
        differs == room_changes(*area, number, target),
{
    match area.get_room(&number) {
        Some(room) => room.is_secret != target,
        None => true,
    }
}

fn label_differs(area: &AreaCache, id: LabelId, target: bool) -> (differs: bool)
    ensures
        differs == label_changes(*area, id, target),
{
    match area.get_label(&id) {
        Some(label) => label.is_secret != target,
        None => true,
    }
}

fn shape_differs(area: &AreaCache, id: ShapeId, target: bool) -> (differs: bool)
    ensures
        differs == shape_changes(*area, id, target),
{
    match area.get_shape(&id) {
        Some(shape) => shape.is_secret != target,
        None => true,
    }
}

fn room_property_differs(
    area: &AreaCache,
    property: &RoomPropertyRef,
    target: bool,
) -> (differs: bool)
    ensures
        differs == room_property_changes(*area, property@, target),
{
    match area.get_room(&property.room_number) {
        Some(room) => match find_property(&room.properties, &property.name) {
            Some(entry) => entry.is_secret != target,
            None => true,
        },
        None => true,
    }
}

fn area_property_differs(area: &AreaCache, name: &str, target: bool) -> (differs: bool)
    ensures
        differs == area_property_changes(*area, name@, target),
{
    match find_property(&area.properties, name) {
        Some(entry) => entry.is_secret != target,
        None => true,
    }
}

/// Drops what a request would not change, so that setting the flags back after
/// a failure undoes exactly what the request did. What is not cached is kept:
/// nothing shows that it would not change.
pub fn retain_changing_marks(
    atlas: &AtlasCache,
    area_id: AreaId,
    request: SecretMarksRequest,
) -> (left: SecretMarksRequest)
    ensures
        left@ == changing(*atlas, area_id, request@),
{
    let area = match atlas.get_area(&area_id) {
        Some(area) => area,
        None => {
            return request;
        },
    };
    let target = request.secret;
    let ghost given = request@;
    let rooms_test = |number: &RoomNumber| -> (r: bool)
        ensures
            r == room_changes(*area, *number, target),
    {
        room_differs(area, *number, target)
    };
    let exits_test = |id: &ExitId| -> (r: bool)
        ensures
            r == exit_changes(*area, *id, target),
    {
        exit_differs(area, *id, target)
    };
    let labels_test = |id: &LabelId| -> (r: bool)
        ensures
            r == label_changes(*area, *id, target),
    {
        label_differs(area, *id, target)
    };
    let shapes_test = |id: &ShapeId| -> (r: bool)
        ensures
            r == shape_changes(*area, *id, target),
    {
        shape_differs(area, *id, target)
    };
    let room_properties_test = |property: &RoomPropertyRef| -> (r: bool)
        ensures
            r == room_property_changes(*area, property@, target),
    {
        room_property_differs(area, property, target)
    };
    let area_properties_test = |name: &String| -> (r: bool)
        ensures
            r == area_property_changes(*area, name@, target),
    {
        area_property_differs(area, name, target)
    };
    proof {
        list::lemma_kept_map(
            request.room_properties@,
            |property: RoomPropertyRef| property@,
            |property: RoomPropertyRef| room_property_changes(*area, property@, target),
            |property: RoomPropertyRef<Seq<char>>| room_property_changes(*area, property, target),
        );
        list::lemma_kept_map(
            request.area_properties@,
            |name: String| name@,
            |name: String| area_property_changes(*area, name@, target),
            |name: Seq<char>| area_property_changes(*area, name, target),
        );
    }
    SecretMarksRequest {
        secret: target,
        rooms: keep(
            request.rooms,
            rooms_test,
            Ghost(|number: RoomNumber| room_changes(*area, number, target)),
        ),
        exits: keep(
            request.exits,
            exits_test,
            Ghost(|id: ExitId| exit_changes(*area, id, target)),
        ),
        labels: keep(
            request.labels,
            labels_test,
            Ghost(|id: LabelId| label_changes(*area, id, target)),
        ),
        shapes: keep(
            request.shapes,
            shapes_test,
            Ghost(|id: ShapeId| shape_changes(*area, id, target)),
        ),
        room_properties: keep(
            request.room_properties,
            room_properties_test,
            Ghost(|property: RoomPropertyRef| room_property_changes(*area, property@, target)),
        ),
        area_properties: keep(
            request.area_properties,
            area_properties_test,
            Ghost(|name: String| area_property_changes(*area, name@, target)),
        ),
    }
}

/// What is left of a request has the opposite flag in the cache, so setting the
/// flags and then setting them back leaves the cache as it was.
pub proof fn law_marks_that_are_sent_change(
    atlas: AtlasCache,
    area_id: AreaId,
    request: RequestView,
)
    requires
        atlas.area(area_id) is Some,
    ensures
        ({
            let area = atlas.area(area_id)->0;
            let left = changing(atlas, area_id, request);
            &&& forall|number: RoomNumber| #[trigger]
                left.rooms.contains(number) && area.room(number) is Some
                    ==> area.room(number)->0.is_secret == !request.secret
            &&& forall|id: ExitId| #[trigger]
                left.exits.contains(id) && area_exit(area, id) is Some ==> area_exit(
                    area,
                    id,
                )->0.is_secret == !request.secret
            &&& forall|id: LabelId| #[trigger]
                left.labels.contains(id) && area.label(id) is Some
                    ==> area.label(id)->0.is_secret == !request.secret
            &&& forall|id: ShapeId| #[trigger]
                left.shapes.contains(id) && area.shape(id) is Some
                    ==> area.shape(id)->0.is_secret == !request.secret
            &&& forall|property: RoomPropertyRef<Seq<char>>| #[trigger]
                left.room_properties.contains(property) ==> room_property_changes(
                    area,
                    property,
                    request.secret,
                )
            &&& forall|name: Seq<char>| #[trigger]
                left.area_properties.contains(name) ==> area_property_changes(
                    area,
                    name,
                    request.secret,
                )
        }),
{
    let area = atlas.area(area_id)->0;
    let target = request.secret;
    let left = changing(atlas, area_id, request);
    assert forall|number: RoomNumber| #[trigger] left.rooms.contains(number) implies room_changes(
        area,
        number,
        target,
    ) by {
        list::lemma_kept(
            request.rooms,
            |number: RoomNumber| room_changes(area, number, target),
            number,
        );
    }
    assert forall|id: ExitId| #[trigger] left.exits.contains(id) implies exit_changes(
        area,
        id,
        target,
    ) by {
        list::lemma_kept(request.exits, |id: ExitId| exit_changes(area, id, target), id);
    }
    assert forall|id: LabelId| #[trigger] left.labels.contains(id) implies label_changes(
        area,
        id,
        target,
    ) by {
        list::lemma_kept(request.labels, |id: LabelId| label_changes(area, id, target), id);
    }
    assert forall|id: ShapeId| #[trigger] left.shapes.contains(id) implies shape_changes(
        area,
        id,
        target,
    ) by {
        list::lemma_kept(request.shapes, |id: ShapeId| shape_changes(area, id, target), id);
    }
    assert forall|property: RoomPropertyRef<Seq<char>>| #[trigger]
        left.room_properties.contains(property) implies room_property_changes(
        area,
        property,
        target,
    ) by {
        list::lemma_kept(
            request.room_properties,
            |property: RoomPropertyRef<Seq<char>>| room_property_changes(area, property, target),
            property,
        );
    }
    assert forall|name: Seq<char>| #[trigger]
        left.area_properties.contains(name) implies area_property_changes(area, name, target) by {
        list::lemma_kept(
            request.area_properties,
            |name: Seq<char>| area_property_changes(area, name, target),
            name,
        );
    }
}

// ===== What is said of it =====

/// How many rows of each kind the server changed.
#[derive(Clone, Copy, Debug, PartialEq, Eq, Structural)]
pub struct SecretMarksResult {
    pub rooms: u64,
    pub exits: u64,
    pub labels: u64,
    pub shapes: u64,
    pub room_properties: u64,
    pub area_properties: u64,
}

/// Adds "`count` `noun`" to a list that commas part, when there is something to
/// count.
pub open spec fn with_count(
    line: Seq<char>,
    count: u64,
    singular: Seq<char>,
    plural: Seq<char>,
) -> Seq<char> {
    let noun = if count == 1 {
        singular
    } else {
        plural
    };
    let part = text::decimal(count as nat) + " "@ + noun;
    if count == 0 {
        line
    } else if line.len() == 0 {
        part
    } else {
        line + ", "@ + part
    }
}

/// The counts of a result.
pub open spec fn counted(counts: SecretMarksResult) -> Seq<char> {
    let rooms = with_count(Seq::empty(), counts.rooms, "room"@, "rooms"@);
    let exits = with_count(rooms, counts.exits, "exit"@, "exits"@);
    let labels = with_count(exits, counts.labels, "label"@, "labels"@);
    let shapes = with_count(labels, counts.shapes, "shape"@, "shapes"@);
    let room_properties = with_count(
        shapes,
        counts.room_properties,
        "room property"@,
        "room properties"@,
    );
    with_count(room_properties, counts.area_properties, "area property"@, "area properties"@)
}

/// The line of [`format_marks_notice`].
pub open spec fn marks_notice(counts: SecretMarksResult, secret: bool) -> Seq<char> {
    let line = counted(counts);
    if line.len() == 0 {
        "Nothing changed"@
    } else {
        line + " "@ + (if secret {
            "marked secret"@
        } else {
            "unmarked"@
        })
    }
}

fn push_count(line: String, count: u64, singular: &str, plural: &str) -> (longer: String)
    ensures
        longer@ == with_count(line@, count, singular@, plural@),
{
    if count == 0 {
        return line;
    }
    let number = decimal_text(count);
    let part = join3(
        &number,
        " ",
        if count == 1 {
            singular
        } else {
            plural
        },
    );
    if is_empty_text(&line) {
        part
    } else {
        join3(&line, ", ", &part)
    }
}

/// "3 rooms, 1 label marked secret": how many rows of each kind the server
/// changed.
pub fn format_marks_notice(counts: SecretMarksResult, secret: bool) -> (notice: String)
    ensures
        notice@ == marks_notice(counts, secret),
{
    let line = push_count(String::new(), counts.rooms, "room", "rooms");
    let line = push_count(line, counts.exits, "exit", "exits");
    let line = push_count(line, counts.labels, "label", "labels");
    let line = push_count(line, counts.shapes, "shape", "shapes");
    let line = push_count(line, counts.room_properties, "room property", "room properties");
    let line = push_count(line, counts.area_properties, "area property", "area properties");
    if is_empty_text(&line) {
        return "Nothing changed".to_owned();
    }
    join3(
        &line,
        " ",
        if secret {
            "marked secret"
        } else {
            "unmarked"
        },
    )
}

} // verus!
