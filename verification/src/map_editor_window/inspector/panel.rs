//! What the inspector shows.

use vstd::prelude::*;

use super::super::cache;
use super::super::links::{self, members_of};
use super::super::model::{
    AreaCache, AreaId, AtlasCache, Connection, ConnectionId, ConnectionKind, ConnectionRouting, EntityId, ExitCache,
    RoomNumber,
};
use super::action::Scene;
use super::rooms;
use super::state::{self, ExitRow, State};
use crate::list::{self, sort_by};
use crate::text::{self, join2, join3, read_i32, signed_decimal_text, text_before, to_lowercase};

verus! {

/// What is shown for a selection.
#[derive(Clone, Copy, Debug, PartialEq, Eq, Structural)]
pub enum Panel {
    NoArea,
    ReadOnly,
    Connection(ConnectionId),
    Room(RoomNumber),
    Label,
    Shape,
    Area,
    Several,
}

/// The panel of [`panel`].
pub open spec fn panel_of(scene: Scene) -> Panel {
    match scene.area_id {
        None => Panel::NoArea,
        Some(area_id) => match scene.atlas.area(area_id) {
            None => Panel::NoArea,
            Some(area) => if !area.access.can_edit {
                Panel::ReadOnly
            } else {
                match cache::single_entity(scene.selection@) {
                    Some(EntityId::Connection(id)) => Panel::Connection(id),
                    Some(EntityId::Room(number)) => Panel::Room(number),
                    Some(EntityId::Label(_)) => Panel::Label,
                    Some(EntityId::Shape(_)) => Panel::Shape,
                    None => if scene.selection@.len() == 0 {
                        Panel::Area
                    } else {
                        Panel::Several
                    },
                }
            },
        },
    }
}

/// Which panel a selection is shown in. An area that may only be viewed gets a
/// summary in place of forms.
pub fn panel(scene: &Scene) -> (panel: Panel)
    ensures
        panel == panel_of(*scene),
{
    let area_id = match scene.area_id {
        Some(area_id) => area_id,
        None => {
            return Panel::NoArea;
        },
    };
    match scene.atlas.get_area(&area_id) {
        None => Panel::NoArea,
        Some(area) => {
            if !area.access.can_edit {
                return Panel::ReadOnly;
            }
            match scene.selection.single() {
                Some(EntityId::Connection(id)) => Panel::Connection(id),
                Some(EntityId::Room(number)) => Panel::Room(number),
                Some(EntityId::Label(_)) => Panel::Label,
                Some(EntityId::Shape(_)) => Panel::Shape,
                None => if scene.selection.is_empty() {
                    Panel::Area
                } else {
                    Panel::Several
                },
            }
        },
    }
}

impl State {
    /// The line about secrecy: why the last change failed, else what the last
    /// bulk change did.
    pub fn secrecy_status(&self) -> (line: Option<&String>)
        ensures
            match line {
                Some(line) => Some(line@) == match self@.secret_error {
                    Some(error) => Some(error),
                    None => self@.secret_notice,
                },
                None => self@.secret_error is None && self@.secret_notice is None,
            },
    {
        match &self.secret_error {
            Some(error) => Some(error),
            None => match &self.secret_notice {
                Some(notice) => Some(notice),
                None => None,
            },
        }
    }

    /// The tags of the area that the room does not have.
    pub fn suggested_tags(&self) -> (tags: Vec<&String>)
        ensures
            tags@.map_values(|tag: &String| tag@) == list::kept(
                self@.known_tags,
                |tag: Seq<char>| !self@.tags.contains(tag),
            ),
    {
        let ghost known = self@.known_tags;
        let ghost wanted = |tag: Seq<char>| !self@.tags.contains(tag);
        let ghost piece = |tag: Seq<char>|
            if wanted(tag) {
                seq![tag]
            } else {
                Seq::empty()
            };
        let mut tags: Vec<&String> = Vec::new();
        assert(known.take(0) =~= Seq::empty());
        assert(tags@.map_values(|tag: &String| tag@) =~= Seq::empty());
        for i in 0..self.known_tags.len()
            invariant
                known == self@.known_tags,
                wanted == (|tag: Seq<char>| !self@.tags.contains(tag)),
                piece == (|tag: Seq<char>|
                    if wanted(tag) {
                        seq![tag]
                    } else {
                        Seq::empty()
                    }),
                tags@.map_values(|tag: &String| tag@) == list::collect(known.take(i as int), piece),
        {
            proof {
                list::lemma_collect_step(known, piece, i as int);
            }
            let ghost before = tags@;
            let tag = &self.known_tags[i];
            let held = cache::list_holds(&self.tags, tag);
            proof {
                let all = self.tags@;
                if held {
                    let k = choose|k: int| 0 <= k < all.len() && (#[trigger] all[k])@ == tag@;
                    assert(text::texts(all)[k] == tag@);
                } else if text::texts(all).contains(tag@) {
                    let k = choose|k: int|
                        0 <= k < all.len() && #[trigger] text::texts(all)[k] == tag@;
                    assert(all[k]@ == tag@);
                }
            }
            if !held {
                tags.push(tag);
            }
            assert(tags@.map_values(|tag: &String| tag@) =~= before.map_values(
                |tag: &String| tag@,
            ) + piece(known[i as int]));
        }
        assert(known.take(known.len() as int) =~= known);
        tags
    }
}

// ===== Exits =====

/// An area that an exit can lead to.
pub struct AreaChoice<T = String> {
    pub id: AreaId,
    pub name: T,
}

impl View for AreaChoice<String> {
    type V = AreaChoice<Seq<char>>;

    open spec fn view(&self) -> AreaChoice<Seq<char>> {
        AreaChoice { id: self.id, name: self.name@ }
    }
}

/// The views of choices.
pub open spec fn choices_view(choices: Seq<AreaChoice>) -> Seq<AreaChoice<Seq<char>>> {
    choices.map_values(|choice: AreaChoice| choice@)
}

/// A choice with its name in lower case.
pub type KeyedChoice = (Seq<char>, AreaChoice<Seq<char>>);

/// The order of choices by their names in lower case.
pub open spec fn keyed_before(a: KeyedChoice, b: KeyedChoice) -> bool {
    text::text_less(a.0, b.0)
}

/// The view of a choice with its name in lower case.
pub open spec fn keyed_view(keyed: (String, AreaChoice)) -> KeyedChoice {
    (keyed.0@, keyed.1@)
}

/// The views of choices with their names in lower case.
pub open spec fn keyed_views(keyed: Seq<(String, AreaChoice)>) -> Seq<KeyedChoice> {
    keyed.map_values(|one: (String, AreaChoice)| keyed_view(one))
}

/// The order of choices by name, without regard to case.
pub open spec fn choice_before(a: AreaChoice<Seq<char>>, b: AreaChoice<Seq<char>>) -> bool {
    keyed_before((text::lowercase(a.name), a), (text::lowercase(b.name), b))
}

/// The areas that an exit can lead to: all but those that go with the session.
pub open spec fn offered(atlas: AtlasCache, ephemeral: Seq<AreaId>) -> Seq<AreaChoice<Seq<char>>> {
    list::collect(
        atlas.areas@,
        |area: AreaCache|
            if ephemeral.contains(area.id) {
                Seq::empty()
            } else {
                seq![AreaChoice { id: area.id, name: area.name@ }]
            },
    )
}

/// The choices of [`area_choices`].
pub open spec fn sorted_choices(
    atlas: AtlasCache,
    ephemeral: Seq<AreaId>,
) -> Seq<AreaChoice<Seq<char>>> {
    list::in_order(
        offered(atlas, ephemeral),
        |a: AreaChoice<Seq<char>>, b: AreaChoice<Seq<char>>| choice_before(a, b),
    )
}

fn keyed_first(a: &(String, AreaChoice), b: &(String, AreaChoice)) -> (first: bool)
    ensures
        first == keyed_before(keyed_view(*a), keyed_view(*b)),
{
    text_before(&a.0, &b.0)
}

/// Choices by their names in lower case, which come with them.
pub fn order_choices(keyed: Vec<(String, AreaChoice)>) -> (choices: Vec<AreaChoice>)
    ensures
        choices_view(choices@) == list::in_order(
            keyed_views(keyed@),
            |a: KeyedChoice, b: KeyedChoice| keyed_before(a, b),
        ).map_values(|one: KeyedChoice| one.1),
{
    let less = |a: &(String, AreaChoice), b: &(String, AreaChoice)| -> (r: bool)
        ensures
            r == keyed_before(keyed_view(*a), keyed_view(*b)),
    {
        keyed_first(a, b)
    };
    let ghost ordered = list::in_order(
        keyed_views(keyed@),
        |a: KeyedChoice, b: KeyedChoice| keyed_before(a, b),
    );
    proof {
        list::lemma_in_order_map(
            keyed@,
            |one: (String, AreaChoice)| keyed_view(one),
            |a: (String, AreaChoice), b: (String, AreaChoice)|
                keyed_before(keyed_view(a), keyed_view(b)),
            |a: KeyedChoice, b: KeyedChoice| keyed_before(a, b),
        );
    }
    let sorted = sort_by(
        keyed,
        less,
        Ghost(
            |a: (String, AreaChoice), b: (String, AreaChoice)|
                keyed_before(keyed_view(a), keyed_view(b)),
        ),
    );
    assert(keyed_views(sorted@) == ordered);
    let ghost given = sorted@;
    let mut choices: Vec<AreaChoice> = Vec::new();
    for one in iter: sorted
        invariant
            given == iter.seq(),
            choices@.len() == iter.index(),
            forall|k: int| 0 <= k < choices@.len() ==> choices@[k] == (#[trigger] given[k]).1,
    {
        choices.push(one.1);
    }
    assert(choices_view(choices@) =~= ordered.map_values(|one: KeyedChoice| one.1)) by {
        assert forall|k: int| 0 <= k < choices@.len() implies choices_view(choices@)[k]
            == ordered.map_values(|one: KeyedChoice| one.1)[k] by {
            assert(ordered[k] == keyed_view(given[k]));
        }
    }
    choices
}

/// Whether a list of areas holds one.
pub(crate) fn holds_area(list: &Vec<AreaId>, id: AreaId) -> (held: bool)
    ensures
        held == list@.contains(id),
{
    for i in 0..list.len()
        invariant
            forall|k: int| 0 <= k < i ==> list@[k] != id,
    {
        if list[i] == id {
            assert(list@[i as int] == id);
            return true;
        }
    }
    false
}

/// The areas that an exit can lead to, by name. One that goes with the session
/// would leave the exit without a destination.
pub fn area_choices(atlas: &AtlasCache, ephemeral: &Vec<AreaId>) -> (choices: Vec<AreaChoice>)
    ensures
        choices_view(choices@) == sorted_choices(*atlas, ephemeral@),
{
    let ghost piece = |area: AreaCache|
        if ephemeral@.contains(area.id) {
            Seq::empty()
        } else {
            seq![AreaChoice { id: area.id, name: area.name@ }]
        };
    let ghost key = |choice: AreaChoice<Seq<char>>| (text::lowercase(choice.name), choice);
    let mut keyed: Vec<(String, AreaChoice)> = Vec::new();
    assert(atlas.areas@.take(0) =~= Seq::empty());
    assert(keyed_views(keyed@) =~= Seq::<AreaChoice<Seq<char>>>::empty().map_values(key));
    for i in 0..atlas.areas.len()
        invariant
            piece == (|area: AreaCache|
                if ephemeral@.contains(area.id) {
                    Seq::empty()
                } else {
                    seq![AreaChoice { id: area.id, name: area.name@ }]
                }),
            key == (|choice: AreaChoice<Seq<char>>| (text::lowercase(choice.name), choice)),
            keyed_views(keyed@) == list::collect(atlas.areas@.take(i as int), piece).map_values(key),
    {
        proof {
            list::lemma_collect_step(atlas.areas@, piece, i as int);
        }
        let ghost before = keyed@;
        let ghost so_far = list::collect(atlas.areas@.take(i as int), piece);
        let area = &atlas.areas[i];
        if !holds_area(ephemeral, area.id) {
            keyed.push((to_lowercase(&area.name), AreaChoice { id: area.id, name: area.name.clone() }));
        }
        let ghost added = piece(atlas.areas@[i as int]);
        assert(keyed_views(keyed@) =~= keyed_views(before) + added.map_values(key));
        assert((so_far + added).map_values(key) =~= so_far.map_values(key) + added.map_values(key));
    }
    assert(atlas.areas@.take(atlas.areas.len() as int) =~= atlas.areas@);
    let ghost all = offered(*atlas, ephemeral@);
    assert(all == list::collect(atlas.areas@, piece));
    proof {
        list::lemma_in_order_map(
            all,
            key,
            |a: AreaChoice<Seq<char>>, b: AreaChoice<Seq<char>>| choice_before(a, b),
            |a: KeyedChoice, b: KeyedChoice| keyed_before(a, b),
        );
    }
    let choices = order_choices(keyed);
    assert(choices_view(choices@) =~= sorted_choices(*atlas, ephemeral@)) by {
        let sorted = sorted_choices(*atlas, ephemeral@);
        assert(sorted.map_values(key).map_values(|one: KeyedChoice| one.1) =~= sorted);
    }
    choices
}

/// What is shown of one exit.
#[derive(Clone, Copy, Debug, PartialEq, Eq, Structural)]
pub struct ExitControls {
    /// The room it leaves, when that is not the selected one.
    pub from_room: Option<RoomNumber>,
    /// Which choice its destination is.
    pub to_choice: Option<usize>,
    /// Its destination can be changed and it can be deleted: not so when the
    /// destination is withheld.
    pub destination_known: bool,
    pub shows_secret: bool,
    pub can_unlink: bool,
}

/// Whether the selection is a connection.
pub open spec fn connection_selected(scene: Scene) -> bool {
    cache::single_entity(scene.selection@) matches Some(EntityId::Connection(_))
}

/// Which choice an area is.
pub open spec fn choice_of(
    choices: Seq<AreaChoice<Seq<char>>>,
    to_area: Option<AreaId>,
) -> Option<int> {
    match to_area {
        Some(id) => list::place(choices, |choice: AreaChoice<Seq<char>>| choice.id == id),
        None => None,
    }
}

/// An optional place.
pub open spec fn opt_place(place: Option<usize>) -> Option<int> {
    match place {
        Some(place) => Some(place as int),
        None => None,
    }
}

/// The controls of an exit.
pub open spec fn are_controls(
    controls: ExitControls,
    scene: Scene,
    rows: Seq<ExitRow<Seq<char>>>,
    choices: Seq<AreaChoice<Seq<char>>>,
    index: int,
) -> bool {
    &&& controls.from_room == if connection_selected(scene) {
        Some(rows[index].from_room)
    } else {
        None
    }
    &&& opt_place(controls.to_choice) == choice_of(choices, rows[index].to_area)
    &&& controls.destination_known == !rows[index].to_unknown
    &&& controls.shows_secret == scene.cleared
    &&& controls.can_unlink == (connection_selected(scene) && rows.len() == 2)
}

/// What is shown of the exits.
pub struct ExitsPanel {
    /// They are those of a connection, not of a room.
    pub traversal: bool,
    pub choices: Vec<AreaChoice>,
    pub exits: Vec<ExitControls>,
    pub can_add: bool,
}

fn find_choice(choices: &Vec<AreaChoice>, id: AreaId) -> (place: Option<usize>)
    ensures
        opt_place(place) == choice_of(choices_view(choices@), Some(id)),
{
    let ghost views = choices_view(choices@);
    let ghost chosen = |choice: AreaChoice<Seq<char>>| choice.id == id;
    for i in 0..choices.len()
        invariant
            views == choices_view(choices@),
            chosen == (|choice: AreaChoice<Seq<char>>| choice.id == id),
            forall|k: int| 0 <= k < i ==> !chosen(#[trigger] views[k]),
    {
        if choices[i].id == id {
            assert(chosen(views[i as int]));
            proof {
                list::lemma_place(views, chosen, i as int);
            }
            return Some(i);
        }
        assert(!chosen(views[i as int]));
    }
    None
}

impl State {
    /// What is shown of the exits of the selected room or connection.
    pub fn exits_section(&self, scene: &Scene, ephemeral: &Vec<AreaId>) -> (panel: ExitsPanel)
        ensures
            panel.traversal == connection_selected(*scene),
            panel.can_add == !connection_selected(*scene),
            choices_view(panel.choices@) == sorted_choices(scene.atlas, ephemeral@),
            panel.exits.len() == self@.exits.len(),
            forall|i: int|
                0 <= i < panel.exits.len() ==> are_controls(
                    #[trigger] panel.exits@[i],
                    *scene,
                    self@.exits,
                    choices_view(panel.choices@),
                    i,
                ),
    {
        let choices = area_choices(&scene.atlas, ephemeral);
        let traversal = match scene.selection.single() {
            Some(EntityId::Connection(_)) => true,
            _ => false,
        };
        let mut exits: Vec<ExitControls> = Vec::new();
        for i in 0..self.exits.len()
            invariant
                traversal == connection_selected(*scene),
                exits.len() == i,
                forall|k: int|
                    0 <= k < i ==> are_controls(
                        #[trigger] exits@[k],
                        *scene,
                        self@.exits,
                        choices_view(choices@),
                        k,
                    ),
        {
            let row = &self.exits[i];
            assert(self@.exits[i as int] == row@);
            let controls = ExitControls {
                from_room: if traversal {
                    Some(row.from_room)
                } else {
                    None
                },
                to_choice: match row.to_area {
                    Some(id) => find_choice(&choices, id),
                    None => None,
                },
                destination_known: !row.to_unknown,
                shows_secret: scene.cleared,
                can_unlink: traversal && self.exits.len() == 2,
            };
            exits.push(controls);
        }
        ExitsPanel { traversal, choices, exits, can_add: !traversal }
    }
}

// ===== Connections =====

/// Whether two one-way exits are each other's way back.
pub open spec fn are_reciprocal(
    area_id: AreaId,
    row: ExitRow<Seq<char>>,
    from_room: RoomNumber,
    exit: ExitCache,
) -> bool {
    &&& row.to_area == Some(area_id)
    &&& exit.to_area_id == Some(area_id)
    &&& rooms::number_in(row.to_room) == Some(from_room.0)
    &&& exit.to_room_number == Some(row.from_room)
    &&& row.to_direction matches Some(direction) ==> direction == exit.from_direction
    &&& exit.to_direction matches Some(direction) ==> direction == row.from_direction
}

/// Whether a connection can be paired with the selected one, whose only exit is
/// in `row`: it is another one, and its only exit leads back.
pub open spec fn can_pair(
    area: AreaCache,
    area_id: AreaId,
    id: ConnectionId,
    row: ExitRow<Seq<char>>,
    candidate: ConnectionId,
) -> bool {
    let members = links::members(area, candidate);
    candidate != id && members.len() == 1 && are_reciprocal(
        area_id,
        row,
        members[0].0,
        members[0].1,
    )
}

/// The connections that can be paired with the selected one.
pub open spec fn pairable(
    area: AreaCache,
    area_id: AreaId,
    id: ConnectionId,
    rows: Seq<ExitRow<Seq<char>>>,
) -> Seq<ConnectionId> {
    if rows.len() == 1 {
        list::collect(
            area.connections@,
            |connection: Connection|
                if can_pair(area, area_id, id, rows[0], connection.id) {
                    seq![connection.id]
                } else {
                    Seq::empty()
                },
        )
    } else {
        Seq::empty()
    }
}

fn reciprocal(area_id: AreaId, row: &ExitRow, from_room: RoomNumber, exit: &ExitCache) -> (back: bool)
    ensures
        back == are_reciprocal(area_id, row@, from_room, *exit),
{
    let row_leads = match row.to_area {
        Some(to_area) => to_area == area_id,
        None => false,
    };
    let exit_leads = match exit.to_area_id {
        Some(to_area) => to_area == area_id,
        None => false,
    };
    let row_arrives = match read_i32(&row.to_room) {
        Some(number) => number == from_room.0,
        None => false,
    };
    let exit_arrives = match exit.to_room_number {
        Some(number) => number == row.from_room,
        None => false,
    };
    let row_fits = match row.to_direction {
        Some(direction) => direction == exit.from_direction,
        None => true,
    };
    let exit_fits = match exit.to_direction {
        Some(direction) => direction == row.from_direction,
        None => true,
    };
    row_leads && exit_leads && row_arrives && exit_arrives && row_fits && exit_fits
}

/// The connections that can be paired with the selected one.
fn find_pairable(area: &AreaCache, area_id: AreaId, id: ConnectionId, rows: &Vec<ExitRow>) -> (found:
    Vec<ConnectionId>)
    ensures
        found@ == pairable(*area, area_id, id, state::exit_rows(rows@)),
{
    let mut found: Vec<ConnectionId> = Vec::new();
    if rows.len() != 1 {
        return found;
    }
    let row = &rows[0];
    assert(state::exit_rows(rows@)[0] == row@);
    let ghost piece = |connection: Connection|
        if can_pair(*area, area_id, id, row@, connection.id) {
            seq![connection.id]
        } else {
            Seq::empty()
        };
    assert(area.connections@.take(0) =~= Seq::empty());
    for i in 0..area.connections.len()
        invariant
            piece == (|connection: Connection|
                if can_pair(*area, area_id, id, row@, connection.id) {
                    seq![connection.id]
                } else {
                    Seq::empty()
                }),
            found@ == list::collect(area.connections@.take(i as int), piece),
    {
        proof {
            list::lemma_collect_step(area.connections@, piece, i as int);
        }
        let candidate = area.connections[i].id;
        let members = members_of(area, candidate);
        assert(links::members_view(members@).len() == members.len());
        if candidate != id && members.len() == 1 {
            let (from_room, exit) = members[0];
            assert(links::members_view(members@)[0] == (from_room, *exit));
            if reciprocal(area_id, row, from_room, exit) {
                found.push(candidate);
            }
        }
    }
    assert(area.connections@.take(area.connections.len() as int) =~= area.connections@);
    found
}

/// What was found of a stored automatic route.
#[derive(Clone, Copy, Debug, PartialEq, Eq, Structural)]
pub enum RouteValidation {
    Valid,
    Collision,
    Invalid,
}

/// The control for the shape of segments.
#[derive(Clone, Copy, Debug, PartialEq, Eq, Structural)]
pub enum ShapeControl {
    Hidden,
    Pick,
    /// Automatic routes are always at right angles.
    Orthogonal,
}

/// What is shown of a connection.
pub struct ConnectionPanel {
    /// Its kind and its ends.
    pub line: String,
    pub is_secret: bool,
    pub has_endpoint_b: bool,
    pub pair_with: Vec<ConnectionId>,
    /// Every routing is offered, not only those of links that leave the area.
    pub all_routings: bool,
    pub shape: ShapeControl,
    pub shows_reroute: bool,
    pub can_reroute: bool,
    /// The route may be out of date.
    pub warns_stale: bool,
    pub warns_collision: bool,
    pub warns_invalid: bool,
    /// There is a stored route that is not followed.
    pub route_inactive: bool,
    pub can_clear: bool,
    /// Deleting deletes both directions.
    pub deletes_both: bool,
}

/// How the ends of a connection are named.
pub struct ConnectionNames {
    pub kind: String,
    pub side_a: String,
    pub side_b: String,
}

/// The ends of a connection.
pub open spec fn ends_line(connection: Connection, names: ConnectionNames) -> Seq<char> {
    let a = text::signed_decimal(connection.endpoint_a.room_number.0 as int);
    match connection.endpoint_b {
        None => "Room "@ + a + " outward"@,
        Some(b) => "Room "@ + a + " "@ + names.side_a@ + " to room "@ + text::signed_decimal(
            b.room_number.0 as int,
        ) + " "@ + names.side_b@,
    }
}

/// The panel of [`State::connection_view`].
pub open spec fn is_connection_panel(
    panel: ConnectionPanel,
    state: state::StateView,
    scene: Scene,
    area: AreaCache,
    connection: Connection,
    names: ConnectionNames,
    stale: bool,
    validation: Option<RouteValidation>,
) -> bool {
    let routing = connection.routing;
    let internal = connection.kind == ConnectionKind::Internal;
    let followed = routing == ConnectionRouting::Manual || routing == ConnectionRouting::Automatic;
    let stored = connection.route_points@.len() > 0;
    &&& panel.line@ == names.kind@ + " \u{b7} "@ + ends_line(connection, names)
    &&& panel.is_secret == state.connection.is_secret
    &&& panel.has_endpoint_b == state.connection.has_endpoint_b
    &&& panel.pair_with@ == pairable(area, scene.area_id->0, connection.id, state.exits)
    &&& panel.all_routings == internal
    &&& panel.shape == match state.connection.routing {
        ConnectionRouting::Manual => ShapeControl::Pick,
        ConnectionRouting::Automatic => ShapeControl::Orthogonal,
        _ => ShapeControl::Hidden,
    }
    &&& panel.shows_reroute == internal
    &&& panel.can_reroute == area.access.can_edit
    &&& panel.warns_stale == (routing == ConnectionRouting::Automatic && stale)
    &&& panel.warns_collision == (routing == ConnectionRouting::Automatic && validation == Some(
        RouteValidation::Collision,
    ))
    &&& panel.warns_invalid == (routing == ConnectionRouting::Automatic && validation == Some(
        RouteValidation::Invalid,
    ))
    &&& panel.route_inactive == (stored && (routing == ConnectionRouting::Stub || routing
        == ConnectionRouting::Simple))
    &&& panel.can_clear == (area.access.can_edit && (stored || followed))
    &&& panel.deletes_both == (state.exits.len() == 2)
}

/// The ends of a connection.
fn ends_text(connection: &Connection, names: &ConnectionNames) -> (line: String)
    ensures
        line@ == ends_line(*connection, *names),
{
    let a = signed_decimal_text(connection.endpoint_a.room_number.0 as i64);
    let start = join2("Room ", &a);
    match connection.endpoint_b {
        None => join2(&start, " outward"),
        Some(b) => {
            let number = signed_decimal_text(b.room_number.0 as i64);
            let first = join3(&start, " ", &names.side_a);
            let second = join3(&first, " to room ", &number);
            join3(&second, " ", &names.side_b)
        },
    }
}

/// A connection to show: it may be gone.
pub enum ConnectionShown {
    NoArea,
    Gone,
    Panel(ConnectionPanel),
}

impl State {
    /// What is shown of a connection; `stale` and `validation` are what is known
    /// of its stored route.
    pub fn connection_view(
        &self,
        scene: &Scene,
        connection_id: ConnectionId,
        names: &ConnectionNames,
        stale: bool,
        validation: Option<RouteValidation>,
    ) -> (shown: ConnectionShown)
        ensures
            match scene.area_id {
                None => shown is NoArea,
                Some(area_id) => match scene.atlas.area(area_id) {
                    None => shown is NoArea,
                    Some(area) => match area.connection(connection_id) {
                        None => shown is Gone,
                        Some(connection) => shown matches ConnectionShown::Panel(panel)
                            && is_connection_panel(
                            panel,
                            self@,
                            *scene,
                            area,
                            connection,
                            *names,
                            stale,
                            validation,
                        ),
                    },
                },
            },
    {
        let area_id = match scene.area_id {
            Some(area_id) => area_id,
            None => {
                return ConnectionShown::NoArea;
            },
        };
        let area = match scene.atlas.get_area(&area_id) {
            Some(area) => area,
            None => {
                return ConnectionShown::NoArea;
            },
        };
        let connection = match area.get_connection(&connection_id) {
            Some(connection) => connection,
            None => {
                return ConnectionShown::Gone;
            },
        };
        let ends = ends_text(connection, names);
        let internal = connection.kind == ConnectionKind::Internal;
        let automatic = connection.routing == ConnectionRouting::Automatic;
        let followed = automatic || connection.routing == ConnectionRouting::Manual;
        let straight = connection.routing == ConnectionRouting::Stub || connection.routing
            == ConnectionRouting::Simple;
        let stored = connection.route_points.len() > 0;
        let (collides, invalid) = match validation {
            Some(RouteValidation::Collision) => (true, false),
            Some(RouteValidation::Invalid) => (false, true),
            _ => (false, false),
        };
        let panel = ConnectionPanel {
            line: join3(&names.kind, " \u{b7} ", &ends),
            is_secret: self.connection.is_secret,
            has_endpoint_b: self.connection.has_endpoint_b,
            pair_with: find_pairable(area, area_id, connection.id, &self.exits),
            all_routings: internal,
            shape: match self.connection.routing {
                ConnectionRouting::Manual => ShapeControl::Pick,
                ConnectionRouting::Automatic => ShapeControl::Orthogonal,
                _ => ShapeControl::Hidden,
            },
            shows_reroute: internal,
            can_reroute: area.access.can_edit,
            warns_stale: automatic && stale,
            warns_collision: automatic && collides,
            warns_invalid: automatic && invalid,
            route_inactive: stored && straight,
            can_clear: area.access.can_edit && (stored || followed),
            deletes_both: self.exits.len() == 2,
        };
        ConnectionShown::Panel(panel)
    }
}

} // verus!
