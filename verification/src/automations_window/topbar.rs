//! The bar above the window: where one is, and where one can go.

use vstd::prelude::*;

use super::phrases::{self, phrase, Phrase, PhraseView};
use super::state_values::{AutomationsWindow, Pane};
use crate::text;
use crate::words::{self, split_at, strip_prefix};

verus! {

/// What is selected in the list.
pub enum Selection {
    Nothing,
    Dashboard,
    /// A script, in a folder or in none.
    Script { folder_name: Option<String>, script_name: String },
    Folder(String),
    Module(String),
    OwnedPackage(String),
    InstalledPackage(String),
    Dependency { parent: String, spec: String },
    CreatorAutomation { creator_id: String, name: String },
    Discover,
    Shared,
    StoreInspector,
}

/// A step of the way to where one is.
pub enum Crumb<T = String, P = Phrase> {
    /// A name.
    Name(T),
    /// A text of the catalog.
    Text(P),
}

/// A step over sequences.
pub type CrumbView = Crumb<Seq<char>, PhraseView>;

impl View for Crumb<String, Phrase> {
    type V = CrumbView;

    open spec fn view(&self) -> CrumbView {
        match *self {
            Crumb::Name(name) => Crumb::Name(name@),
            Crumb::Text(phrase) => Crumb::Text(phrase@),
        }
    }
}

/// The views of steps.
pub open spec fn crumbs_view(crumbs: Seq<Crumb>) -> Seq<CrumbView> {
    crumbs.map_values(|crumb: Crumb| crumb@)
}

/// The names on a path of folders.
pub open spec fn folder_crumbs(path: Seq<char>) -> Seq<CrumbView> {
    words::split(path, '/').map_values(|name: Seq<char>| Crumb::<Seq<char>, PhraseView>::Name(name))
}

/// Whether `shown` is how a package with the given specifier is named.
pub open spec fn names<F: Fn(&str) -> String>(display: F, spec: Seq<char>, shown: Seq<char>) -> bool {
    exists|given: &str, result: String|
        given@ == spec && #[trigger] call_ensures(display, (given,), result) && result@ == shown
}

/// Whether `shown` is how the creator of an automation is named: a module by its
/// name, a package as packages are, another by its id.
pub open spec fn names_creator<F: Fn(&str) -> String>(display: F, id: Seq<char>, shown: Seq<char>) -> bool {
    match words::after_prefix(id, "module:"@) {
        Some(module) => shown == module,
        None => match words::after_prefix(id, "package:"@) {
            Some(spec) => names(display, spec, shown),
            None => shown == id,
        },
    }
}

/// Whether a trail leads to what is selected.
pub open spec fn is_trail<F: Fn(&str) -> String>(
    display: F,
    selection: Selection,
    trail: Seq<CrumbView>,
) -> bool {
    match selection {
        Selection::Nothing => trail.len() == 0,
        Selection::Dashboard => trail.len() == 0,
        Selection::Script { folder_name, script_name } => trail == (match folder_name {
            Some(folder) => folder_crumbs(folder@),
            None => Seq::empty(),
        }).push(Crumb::Name(script_name@)),
        Selection::Folder(path) => trail == folder_crumbs(path@),
        Selection::Module(subpath) => trail == seq![
            Crumb::Text(phrases::plain("automations-modules"@)),
            Crumb::Name(subpath@),
        ],
        Selection::OwnedPackage(name) => trail == seq![Crumb::<Seq<char>, PhraseView>::Name(name@)],
        Selection::InstalledPackage(spec) => trail.len() == 1 && trail[0] is Name && names(
            display,
            spec@,
            trail[0]->Name_0,
        ),
        Selection::Dependency { parent, spec } => trail.len() == 2 && trail[0] is Name && trail[1] is Name
            && names(display, parent@, trail[0]->Name_0) && names(
            display,
            spec@,
            trail[1]->Name_0,
        ),
        Selection::CreatorAutomation { creator_id, name } => trail.len() == 2 && trail[0] is Name
            && names_creator(display, creator_id@, trail[0]->Name_0) && trail[1] == Crumb::<
            Seq<char>,
            PhraseView,
        >::Name(name@),
        Selection::Discover => trail == seq![
            Crumb::<Seq<char>, PhraseView>::Text(phrases::plain("automations-discover"@)),
        ],
        Selection::Shared => trail == seq![
            Crumb::<Seq<char>, PhraseView>::Text(phrases::plain("automations-private-shared"@)),
        ],
        Selection::StoreInspector => trail == seq![
            Crumb::<Seq<char>, PhraseView>::Text(phrases::plain("automations-session-store"@)),
        ],
    }
}

/// The names on a path of folders.
fn folder_trail(path: &str) -> (trail: Vec<Crumb>)
    ensures
        crumbs_view(trail@) == folder_crumbs(path@),
{
    let pieces = split_at(path, '/');
    let ghost given = words::split(path@, '/');
    let mut trail: Vec<Crumb> = Vec::new();
    assert(crumbs_view(trail@) =~= Seq::empty());
    for i in 0..pieces.len()
        invariant
            given == text::texts(pieces@),
            crumbs_view(trail@) == given.take(i as int).map_values(
                |name: Seq<char>| Crumb::<Seq<char>, PhraseView>::Name(name),
            ),
    {
        assert(given[i as int] == pieces@[i as int]@);
        let ghost before = crumbs_view(trail@);
        trail.push(Crumb::Name(pieces[i].clone()));
        assert(crumbs_view(trail@) =~= before.push(Crumb::Name(given[i as int])));
        assert(crumbs_view(trail@) =~= given.take(i + 1).map_values(
            |name: Seq<char>| Crumb::<Seq<char>, PhraseView>::Name(name),
        ));
    }
    assert(given.take(given.len() as int) =~= given);
    trail
}

/// A trail of one step.
fn single(crumb: Crumb) -> (trail: Vec<Crumb>)
    ensures
        crumbs_view(trail@) == seq![crumb@],
{
    let mut trail: Vec<Crumb> = Vec::new();
    trail.push(crumb);
    assert(crumbs_view(trail@) =~= seq![crumb@]);
    trail
}

/// A trail of two steps.
fn double(first: Crumb, second: Crumb) -> (trail: Vec<Crumb>)
    ensures
        crumbs_view(trail@) == seq![first@, second@],
{
    let mut trail: Vec<Crumb> = Vec::new();
    trail.push(first);
    trail.push(second);
    assert(crumbs_view(trail@) =~= seq![first@, second@]);
    trail
}

/// How the creator of an automation is named.
fn creator_name<F: Fn(&str) -> String>(display: &F, id: &str) -> (shown: String)
    requires
        forall|spec: &str| #[trigger] call_requires(*display, (spec,)),
    ensures
        names_creator(*display, id@, shown@),
{
    match strip_prefix(id, "module:") {
        Some(module) => module,
        None => match strip_prefix(id, "package:") {
            Some(spec) => display(spec.as_str()),
            None => id.to_owned(),
        },
    }
}

/// An action of the bar.
#[derive(Clone, Copy, Debug, PartialEq, Eq, Structural)]
pub enum BarAction {
    Discover,
    Shared,
    Store,
    Reload,
    Inspect,
}

/// An action, and whether what it opens is on screen.
#[derive(Clone, Copy, Debug, PartialEq, Eq, Structural)]
pub struct BarButton {
    pub action: BarAction,
    pub active: bool,
}

/// The actions of the bar. The inspector is one of the advanced.
pub open spec fn bar_actions(pane: Pane, advanced: bool) -> Seq<BarButton> {
    let always = seq![
        BarButton { action: BarAction::Discover, active: pane is Discover },
        BarButton { action: BarAction::Shared, active: pane is Shared },
        BarButton { action: BarAction::Store, active: pane is StoreInspector },
        BarButton { action: BarAction::Reload, active: false },
    ];
    if advanced {
        always.push(BarButton { action: BarAction::Inspect, active: false })
    } else {
        always
    }
}

impl AutomationsWindow {
    /// The way to what is selected. `display` gives the name of a package with a
    /// specifier.
    pub fn breadcrumb_trail<F: Fn(&str) -> String>(&self, display: F) -> (trail: Vec<Crumb>)
        requires
            forall|spec: &str| #[trigger] call_requires(display, (spec,)),
        ensures
            is_trail(display, self@.selection, crumbs_view(trail@)),
    {
        match &self.selection {
            Selection::Nothing => Vec::new(),
            Selection::Dashboard => Vec::new(),
            Selection::Script { folder_name, script_name } => {
                let mut trail = match folder_name {
                    Some(folder) => folder_trail(folder),
                    None => Vec::new(),
                };
                let ghost before = crumbs_view(trail@);
                assert(folder_name is None ==> before =~= Seq::empty());
                trail.push(Crumb::Name(script_name.clone()));
                assert(crumbs_view(trail@) =~= before.push(Crumb::Name(script_name@)));
                trail
            },
            Selection::Folder(path) => folder_trail(path),
            Selection::Module(subpath) => double(
                Crumb::Text(phrase("automations-modules")),
                Crumb::Name(subpath.clone()),
            ),
            Selection::OwnedPackage(name) => single(Crumb::Name(name.clone())),
            Selection::InstalledPackage(spec) => single(Crumb::Name(display(spec.as_str()))),
            Selection::Dependency { parent, spec } => double(
                Crumb::Name(display(parent.as_str())),
                Crumb::Name(display(spec.as_str())),
            ),
            Selection::CreatorAutomation { creator_id, name } => double(
                Crumb::Name(creator_name(&display, creator_id)),
                Crumb::Name(name.clone()),
            ),
            Selection::Discover => single(Crumb::Text(phrase("automations-discover"))),
            Selection::Shared => single(Crumb::Text(phrase("automations-private-shared"))),
            Selection::StoreInspector => single(Crumb::Text(phrase("automations-session-store"))),
        }
    }

    /// The actions of the bar.
    pub fn topbar_actions(&self, advanced: bool) -> (actions: Vec<BarButton>)
        ensures
            actions@ == bar_actions(self@.pane, advanced),
    {
        let discover: bool = match &self.pane {
            Pane::Discover => true,
            _ => false,
        };
        let shared: bool = match &self.pane {
            Pane::Shared => true,
            _ => false,
        };
        let store: bool = match &self.pane {
            Pane::StoreInspector => true,
            _ => false,
        };
        let mut actions: Vec<BarButton> = Vec::new();
        actions.push(BarButton { action: BarAction::Discover, active: discover });
        actions.push(BarButton { action: BarAction::Shared, active: shared });
        actions.push(BarButton { action: BarAction::Store, active: store });
        actions.push(BarButton { action: BarAction::Reload, active: false });
        if advanced {
            actions.push(BarButton { action: BarAction::Inspect, active: false });
        }
        assert(actions@ =~= bar_actions(self@.pane, advanced));
        actions
    }
}

} // verus!
