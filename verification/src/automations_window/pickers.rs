//! The lists from which a producer and a handle are picked.

use vstd::prelude::*;

use super::addresses::{self, producer_display, producers_equal, takes_handle, ProducerKey};
use super::catalogue::{self, CatalogueEntryView, CatalogueKind, CatalogueSnapshot, Node, ProducerView};
use super::references;
use super::state_values::{AutomationsWindow, StateAddDraft, WindowView};
use super::notes::holds_name;
use crate::list;
use crate::text::{self, is_empty_text, trim};
use crate::words::{self, before_mark, same_folded};

verus! {

/// A producer to pick.
pub struct ProducerChoice<T = String> {
    /// Its address.
    pub key: T,
    /// What is shown of it.
    pub label: T,
    /// Its address, where that is not shown.
    pub detail: Option<T>,
    /// Whether its state is found under handles.
    pub takes_handle: bool,
}

/// A choice over sequences.
pub type ChoiceView = ProducerChoice<Seq<char>>;

impl View for ProducerChoice<String> {
    type V = ChoiceView;

    open spec fn view(&self) -> ChoiceView {
        ProducerChoice {
            key: self.key@,
            label: self.label@,
            detail: text::opt_text(self.detail),
            takes_handle: self.takes_handle,
        }
    }
}

/// The views of choices.
pub open spec fn choices_view(choices: Seq<ProducerChoice>) -> Seq<ChoiceView> {
    choices.map_values(|choice: ProducerChoice| choice@)
}

/// The choice of a producer.
pub open spec fn choice_of(key: Seq<char>) -> ChoiceView {
    ProducerChoice {
        key,
        label: addresses::display_of(key).0,
        detail: addresses::display_of(key).1,
        takes_handle: addresses::has_handles(key),
    }
}

/// The addresses with those of packages, each once.
pub open spec fn with_packages(keys: Seq<Seq<char>>, found: Seq<Seq<char>>) -> Seq<Seq<char>>
    decreases found.len(),
{
    if found.len() == 0 {
        keys
    } else {
        let before = with_packages(keys, found.drop_last());
        match addresses::producer_at(found.last()) {
            Some(key) => if key is Package && !before.contains(addresses::address_of(key)) {
                before.push(addresses::address_of(key))
            } else {
                before
            },
            None => before,
        }
    }
}

/// The producers that are always there.
pub open spec fn standing_producers() -> Seq<Seq<char>> {
    seq!["user"@, "gmcp"@, "msdp"@, "mssp"@]
}

/// The addresses of those who publish.
pub open spec fn published(catalogue: Option<CatalogueSnapshot>) -> Seq<Seq<char>> {
    match catalogue {
        Some(snapshot) => snapshot.producers@.map_values(|view: ProducerView| view.producer@),
        None => Seq::empty(),
    }
}

/// The coordinates of packages: what stands before the version in their specifiers.
pub open spec fn coordinates(specifiers: Seq<String>) -> Seq<Seq<char>> {
    specifiers.map_values(|specifier: String| words::split(specifier@, '@')[0])
}

/// The addresses of all producers to pick from.
pub open spec fn producer_keys(window: WindowView) -> Seq<Seq<char>> {
    with_packages(
        with_packages(standing_producers(), published(window.catalogue)),
        coordinates(window.installed_packages@),
    )
}

/// The producers to pick from.
pub open spec fn producer_choices(window: WindowView) -> Seq<ChoiceView> {
    producer_keys(window).map_values(|key: Seq<char>| choice_of(key))
}

/// Adds the address of a package, if it is one and not there yet.
fn push_package(keys: &mut Vec<String>, address: &str)
    ensures
        text::texts(final(keys)@) == with_packages(text::texts(old(keys)@), seq![address@]),
{
    let ghost before = text::texts(keys@);
    assert(seq![address@].drop_last() =~= Seq::empty());
    assert(with_packages(before, seq![address@].drop_last()) == before);
    if let Some(key) = ProducerKey::parse(address) {
        let is_package: bool = match &key {
            ProducerKey::Package { .. } => true,
            _ => false,
        };
        if is_package {
            let address = key.address();
            if !holds_name(keys, &address) {
                let ghost added = address@;
                keys.push(address);
                assert(text::texts(keys@) =~= before.push(added));
            }
        }
    }
}

/// Adding one after others is adding all.
proof fn lemma_with_packages(keys: Seq<Seq<char>>, found: Seq<Seq<char>>, i: int)
    requires
        0 <= i < found.len(),
    ensures
        with_packages(keys, found.take(i + 1)) == with_packages(
            with_packages(keys, found.take(i)),
            seq![found[i]],
        ),
{
    assert(found.take(i + 1).drop_last() =~= found.take(i));
    assert(found.take(i + 1).last() == found[i]);
    let before = with_packages(keys, found.take(i));
    assert(seq![found[i]].drop_last() =~= Seq::empty());
    assert(with_packages(before, seq![found[i]].drop_last()) == before);
}

/// What packages are known already stays, in its place.
pub proof fn lemma_packages_keep(keys: Seq<Seq<char>>, found: Seq<Seq<char>>)
    ensures
        keys.len() <= with_packages(keys, found).len(),
        with_packages(keys, found).take(keys.len() as int) == keys,
    decreases found.len(),
{
    if found.len() > 0 {
        lemma_packages_keep(keys, found.drop_last());
        let before = with_packages(keys, found.drop_last());
        assert(with_packages(keys, found).take(keys.len() as int) =~= before.take(
            keys.len() as int,
        ));
    } else {
        assert(keys.take(keys.len() as int) =~= keys);
    }
}

/// The user's own scripts and the platform are always there to pick, first.
pub proof fn law_standing_producers_are_listed_first(window: WindowView)
    ensures
        producer_keys(window).len() >= 4,
        producer_keys(window).take(4) == standing_producers(),
{
    let first = with_packages(standing_producers(), published(window.catalogue));
    lemma_packages_keep(standing_producers(), published(window.catalogue));
    lemma_packages_keep(first, coordinates(window.installed_packages@));
    assert(producer_keys(window).take(4) =~= first.take(4)) by {
        assert(producer_keys(window).take(first.len() as int) == first);
        assert forall|i: int| 0 <= i < 4 implies producer_keys(window)[i] == first[i] by {
            assert(producer_keys(window).take(first.len() as int)[i] == producer_keys(window)[i]);
        }
    }
}

/// No producer is listed twice.
pub proof fn law_no_producer_is_listed_twice(window: WindowView)
    ensures
        producer_keys(window).no_duplicates(),
{
    reveal_strlit("user");
    reveal_strlit("gmcp");
    reveal_strlit("msdp");
    reveal_strlit("mssp");
    let standing = standing_producers();
    assert("user"@[0] != "gmcp"@[0] && "user"@[0] != "msdp"@[0] && "user"@[0] != "mssp"@[0]);
    assert("gmcp"@[0] != "msdp"@[0] && "gmcp"@[0] != "mssp"@[0]);
    assert("msdp"@[2] != "mssp"@[2]);
    assert(standing.no_duplicates());
    lemma_packages_distinct(standing, published(window.catalogue));
    lemma_packages_distinct(
        with_packages(standing, published(window.catalogue)),
        coordinates(window.installed_packages@),
    );
}

/// Adding packages lists none twice.
proof fn lemma_packages_distinct(keys: Seq<Seq<char>>, found: Seq<Seq<char>>)
    requires
        keys.no_duplicates(),
    ensures
        with_packages(keys, found).no_duplicates(),
    decreases found.len(),
{
    if found.len() > 0 {
        lemma_packages_distinct(keys, found.drop_last());
    }
}

/// The first place at which a producer is listed, or the first of all.
pub open spec fn producer_position(choices: Seq<ChoiceView>, producer: Seq<char>) -> int {
    match list::place(
        choices,
        |choice: ChoiceView| addresses::same_producer(choice.key, producer),
    ) {
        Some(i) => i,
        None => 0,
    }
}

/// A place moved by some steps, round a list.
pub open spec fn moved(cursor: usize, delta: i32, len: nat) -> int {
    (cursor + delta) % (len as int)
}

/// A place moved by some steps, round a list.
fn move_cursor(cursor: usize, delta: i32, len: usize) -> (place: usize)
    requires
        len > 0,
    ensures
        place == moved(cursor, delta, len as nat),
        place < len,
{
    let target: i128 = cursor as i128 + delta as i128;
    if target >= 0 {
        (target as u128 % len as u128) as usize
    } else {
        let back: i128 = 0 - target;
        let rest: u128 = back as u128 % len as u128;
        if rest == 0 {
            proof {
                let quotient = back as int / len as int;
                vstd::arithmetic::div_mod::lemma_fundamental_div_mod(back as int, len as int);
                assert(target == (-quotient) * len) by (nonlinear_arith)
                    requires
                        back == -target,
                        back == len * quotient + rest,
                        rest == 0,
                {}
                vstd::arithmetic::div_mod::lemma_fundamental_div_mod_converse(
                    target as int,
                    len as int,
                    -quotient,
                    0,
                );
            }
            0
        } else {
            let place: usize = (len as u128 - rest) as usize;
            proof {
                let quotient = back as int / len as int;
                vstd::arithmetic::div_mod::lemma_fundamental_div_mod(back as int, len as int);
                assert(target == (-quotient - 1) * len + place) by (nonlinear_arith)
                    requires
                        back == -target,
                        back == len * quotient + rest,
                        place == len - rest,
                {}
                vstd::arithmetic::div_mod::lemma_fundamental_div_mod_converse(
                    target as int,
                    len as int,
                    -quotient - 1,
                    place as int,
                );
            }
            place
        }
    }
}

// ===== Handles =====

/// The handles that a value has at its root.
pub open spec fn root_keys(node: Node) -> Seq<Seq<char>> {
    catalogue::members(node).map_values(|member: (String, Node)| member.0@)
}

/// The handles that a producer has published.
pub open spec fn published_handles(view: ProducerView, producer: Seq<char>) -> Seq<Seq<char>> {
    if references::publishes(view, producer) {
        root_keys(view.tree)
    } else {
        Seq::empty()
    }
}

/// The handle of an entry that declares one.
pub open spec fn declared_handle(entry: CatalogueEntryView, producer: Seq<char>) -> Seq<Seq<char>> {
    if entry.kind == CatalogueKind::State && addresses::same_producer(entry.producer@, producer) {
        seq![entry.name@]
    } else {
        Seq::empty()
    }
}

/// All handles of a producer, as they come.
pub open spec fn all_handles(snapshot: CatalogueSnapshot, producer: Seq<char>) -> Seq<Seq<char>> {
    list::collect(
        snapshot.producers@,
        |view: ProducerView| published_handles(view, producer),
    ) + list::collect(
        snapshot.entries@,
        |entry: CatalogueEntryView| declared_handle(entry, producer),
    )
}

/// Whether a handle is in a list, without regard to case.
pub open spec fn knows(handles: Seq<Seq<char>>, handle: Seq<char>) -> bool {
    exists|i: int| 0 <= i < handles.len() && words::same_fold(#[trigger] handles[i], handle)
}

/// The handles that are not empty, each once without regard to case, as it was
/// spelled first.
pub open spec fn first_spellings(handles: Seq<Seq<char>>) -> Seq<Seq<char>>
    decreases handles.len(),
{
    if handles.len() == 0 {
        Seq::empty()
    } else {
        let before = first_spellings(handles.drop_last());
        if handles.last().len() == 0 || knows(before, handles.last()) {
            before
        } else {
            before.push(handles.last())
        }
    }
}

/// The handles to pick from.
pub open spec fn handle_choices(window: WindowView, producer: Seq<char>) -> Seq<Seq<char>> {
    match window.catalogue {
        Some(snapshot) => first_spellings(all_handles(snapshot, producer)),
        None => Seq::empty(),
    }
}

/// The first place at which a handle is listed, or the first of all.
pub open spec fn handle_position(choices: Seq<Seq<char>>, handle: Seq<char>) -> int {
    match list::place(choices, |choice: Seq<char>| words::same_fold(choice, text::trimmed(handle))) {
        Some(i) => i,
        None => 0,
    }
}

/// Each handle is listed, once without regard to case.
pub proof fn law_handles_are_listed_once(handles: Seq<Seq<char>>, i: int, k: int)
    ensures
        0 <= i < handles.len() && handles[i].len() > 0 ==> knows(
            first_spellings(handles),
            handles[i],
        ),
        0 <= i < k < first_spellings(handles).len() ==> !words::same_fold(
            first_spellings(handles)[i],
            first_spellings(handles)[k],
        ),
    decreases handles.len(),
{
    if handles.len() > 0 {
        let rest = handles.drop_last();
        let before = first_spellings(rest);
        let after = first_spellings(handles);
        law_handles_are_listed_once(rest, i, k);
        if 0 <= i < rest.len() && handles[i].len() > 0 {
            assert(rest[i] == handles[i]);
            let m = choose|m: int| 0 <= m < before.len() && words::same_fold(
                #[trigger] before[m],
                handles[i],
            );
            assert(after[m] == before[m]);
        }
        if i == rest.len() && handles[i].len() > 0 {
            if knows(before, handles[i]) {
                assert(after == before);
            } else {
                assert(after[before.len() as int] == handles[i]);
                assert(words::same_fold(after[before.len() as int], handles[i]));
            }
        }
        if 0 <= i < k < after.len() && k == before.len() {
            assert(after[i] == before[i]);
            assert(!knows(before, handles.last()));
        }
    }
}

/// The handles of a producer as they come.
fn collect_handles(snapshot: &CatalogueSnapshot, producer: &str) -> (handles: Vec<String>)
    ensures
        text::texts(handles@) == all_handles(*snapshot, producer@),
{
    let ghost views = snapshot.producers@;
    let ghost entries = snapshot.entries@;
    let ghost from_view = |view: ProducerView| published_handles(view, producer@);
    let ghost from_entry = |entry: CatalogueEntryView| declared_handle(entry, producer@);
    let mut handles: Vec<String> = Vec::new();
    assert(text::texts(handles@) =~= Seq::empty());
    assert(views.take(0) =~= Seq::empty());
    for i in 0..snapshot.producers.len()
        invariant
            views == snapshot.producers@,
            from_view == (|view: ProducerView| published_handles(view, producer@)),
            text::texts(handles@) == list::collect(views.take(i as int), from_view),
    {
        proof {
            list::lemma_collect_step(views, from_view, i as int);
        }
        let view = &snapshot.producers[i];
        let ghost before = text::texts(handles@);
        if producers_equal(&view.producer, producer) {
            if let Node::Object(members) = &view.tree {
                let ghost keys = root_keys(view.tree);
                assert(before =~= before + keys.take(0));
                for k in 0..members.len()
                    invariant
                        keys == root_keys(view.tree),
                        catalogue::members(view.tree) == members@,
                        text::texts(handles@) == before + keys.take(k as int),
                {
                    let ghost so_far = text::texts(handles@);
                    let member = &members[k];
                    handles.push(member.0.clone());
                    assert(keys[k as int] == members@[k as int].0@);
                    assert(text::texts(handles@) =~= so_far.push(keys[k as int]));
                    assert(keys.take(k + 1) =~= keys.take(k as int).push(keys[k as int]));
                    assert(text::texts(handles@) =~= before + keys.take(k + 1));
                }
                assert(keys.take(keys.len() as int) =~= keys);
            } else {
                assert(root_keys(view.tree) =~= Seq::empty());
                assert(text::texts(handles@) =~= before + root_keys(view.tree));
            }
        } else {
            assert(text::texts(handles@) =~= before + Seq::<Seq<char>>::empty());
        }
    }
    assert(views.take(views.len() as int) =~= views);
    let ghost first = text::texts(handles@);
    assert(entries.take(0) =~= Seq::empty());
    assert(first =~= first + list::collect(entries.take(0), from_entry));
    for i in 0..snapshot.entries.len()
        invariant
            entries == snapshot.entries@,
            from_entry == (|entry: CatalogueEntryView| declared_handle(entry, producer@)),
            text::texts(handles@) == first + list::collect(entries.take(i as int), from_entry),
    {
        proof {
            list::lemma_collect_step(entries, from_entry, i as int);
        }
        let entry = &snapshot.entries[i];
        let ghost before = text::texts(handles@);
        if entry.kind == CatalogueKind::State && producers_equal(&entry.producer, producer) {
            handles.push(entry.name.clone());
            assert(text::texts(handles@) =~= before + seq![entry.name@]);
        } else {
            assert(text::texts(handles@) =~= before + Seq::<Seq<char>>::empty());
        }
        assert(text::texts(handles@) =~= first + (list::collect(
            entries.take(i as int),
            from_entry,
        ) + from_entry(entries[i as int])));
    }
    assert(entries.take(entries.len() as int) =~= entries);
    handles
}

/// Whether a handle is in a list, without regard to case.
fn known_handle(handles: &Vec<String>, handle: &str) -> (known: bool)
    ensures
        known == knows(text::texts(handles@), handle@),
{
    let ghost given = text::texts(handles@);
    for i in 0..handles.len()
        invariant
            given == text::texts(handles@),
            forall|k: int| 0 <= k < i ==> !words::same_fold(#[trigger] given[k], handle@),
    {
        assert(given[i as int] == handles@[i as int]@);
        if same_folded(&handles[i], handle) {
            return true;
        }
    }
    false
}

impl AutomationsWindow {
    /// The producers to pick from: the user's own scripts and the platform always,
    /// then every package that publishes or is installed.
    pub fn state_producer_choices(&self) -> (choices: Vec<ProducerChoice>)
        ensures
            choices_view(choices@) == producer_choices(self@),
    {
        let mut keys: Vec<String> = Vec::new();
        keys.push(String::from_str("user"));
        keys.push(String::from_str("gmcp"));
        keys.push(String::from_str("msdp"));
        keys.push(String::from_str("mssp"));
        let ghost standing = standing_producers();
        assert(text::texts(keys@) =~= standing);
        let ghost live = published(self.catalogue);
        if let Some(snapshot) = &self.catalogue {
            assert(live.take(0) =~= Seq::empty());
            for i in 0..snapshot.producers.len()
                invariant
                    live == snapshot.producers@.map_values(|view: ProducerView| view.producer@),
                    text::texts(keys@) == with_packages(standing, live.take(i as int)),
            {
                proof {
                    lemma_with_packages(standing, live, i as int);
                }
                push_package(&mut keys, &snapshot.producers[i].producer);
            }
            assert(live.take(live.len() as int) =~= live);
        }
        let ghost first = with_packages(standing, live);
        assert(text::texts(keys@) == first);
        let ghost installed = coordinates(self.installed_packages@);
        assert(installed.take(0) =~= Seq::empty());
        for i in 0..self.installed_packages.len()
            invariant
                installed == coordinates(self.installed_packages@),
                text::texts(keys@) == with_packages(first, installed.take(i as int)),
        {
            proof {
                lemma_with_packages(first, installed, i as int);
            }
            let address = before_mark(&self.installed_packages[i], '@');
            push_package(&mut keys, &address);
        }
        assert(installed.take(installed.len() as int) =~= installed);
        let ghost all = text::texts(keys@);
        let mut choices: Vec<ProducerChoice> = Vec::new();
        let count: usize = keys.len();
        assert(choices_view(choices@) =~= all.take(0).map_values(|key: Seq<char>| choice_of(key)));
        for i in 0..count
            invariant
                count == keys.len(),
                all == text::texts(keys@),
                choices_view(choices@) == all.take(i as int).map_values(
                    |key: Seq<char>| choice_of(key),
                ),
        {
            assert(all[i as int] == keys@[i as int]@);
            let key = keys[i].clone();
            let (label, detail) = producer_display(&key);
            let takes = takes_handle(&key);
            let ghost before = choices_view(choices@);
            choices.push(ProducerChoice { key, label, detail, takes_handle: takes });
            assert(choices_view(choices@) =~= before.push(choice_of(all[i as int])));
            assert(choices_view(choices@) =~= all.take(i + 1).map_values(
                |key: Seq<char>| choice_of(key),
            ));
        }
        assert(all.take(all.len() as int) =~= all);
        choices
    }

    /// The place of the row's producer among the choices, or the first.
    pub fn state_producer_position(&self, choices: &Vec<ProducerChoice>) -> (place: usize)
        ensures
            place == producer_position(choices_view(choices@), self@.state_add.producer),
    {
        let ghost views = choices_view(choices@);
        let ghost p = |choice: ChoiceView|
            addresses::same_producer(choice.key, self@.state_add.producer);
        for i in 0..choices.len()
            invariant
                views == choices_view(choices@),
                p == (|choice: ChoiceView|
                    addresses::same_producer(choice.key, self@.state_add.producer)),
                forall|k: int| 0 <= k < i ==> !p(#[trigger] views[k]),
        {
            assert(views[i as int] == choices@[i as int]@);
            if producers_equal(&choices[i].key, &self.state_add.producer) {
                proof {
                    list::lemma_place(views, p, i as int);
                }
                return i;
            }
        }
        assert(!exists|i: int| list::is_first(views, p, i)) by {
            assert forall|i: int| !list::is_first(views, p, i) by {
                if list::is_first(views, p, i) {
                    assert(p(views[i]));
                }
            }
        }
        0
    }

    /// Opens the list of producers at the row's.
    pub fn open_state_producer_picker(&mut self)
        ensures
            final(self)@ == (WindowView {
                state_add: StateAddDraft {
                    cursor: producer_position(
                        producer_choices(old(self)@),
                        old(self)@.state_add.producer,
                    ) as usize,
                    picker_open: true,
                    ..old(self)@.state_add
                },
                ..old(self)@
            }),
            final(self)@.state_add.cursor == producer_position(
                producer_choices(old(self)@),
                old(self)@.state_add.producer,
            ),
    {
        let choices = self.state_producer_choices();
        let place: usize = self.state_producer_position(&choices);
        self.state_add.cursor = place;
        self.state_add.picker_open = true;
    }

    /// Moves the place in the list of producers, round the list.
    pub fn move_state_producer_cursor(&mut self, delta: i32)
        ensures
            final(self)@ == (WindowView {
                state_add: StateAddDraft {
                    cursor: moved(
                        old(self)@.state_add.cursor,
                        delta,
                        producer_choices(old(self)@).len(),
                    ) as usize,
                    ..old(self)@.state_add
                },
                ..old(self)@
            }),
            final(self)@.state_add.cursor == moved(
                old(self)@.state_add.cursor,
                delta,
                producer_choices(old(self)@).len(),
            ),
            final(self)@.state_add.cursor < producer_choices(old(self)@).len(),
    {
        let choices = self.state_producer_choices();
        proof {
            law_standing_producers_are_listed_first(self@);
        }
        self.state_add.cursor = move_cursor(self.state_add.cursor, delta, choices.len());
    }

    /// Picks a producer. The handle goes, because it is one of another.
    pub fn set_state_producer(&mut self, producer: String)
        ensures
            final(self)@ == (WindowView {
                state_add: StateAddDraft {
                    handle: Seq::empty(),
                    handle_picker_open: false,
                    producer: producer@,
                    picker_open: false,
                    error: None,
                    ..old(self)@.state_add
                },
                ..old(self)@
            }),
    {
        self.state_add.handle = String::new();
        self.state_add.handle_picker_open = false;
        self.state_add.producer = producer;
        self.state_add.picker_open = false;
        self.state_add.error = None;
    }

    /// The handles to pick from: those a producer has published or declared.
    pub fn state_handle_choices(&self, producer: &str) -> (handles: Vec<String>)
        ensures
            text::texts(handles@) == handle_choices(self@, producer@),
    {
        let mut handles: Vec<String> = Vec::new();
        assert(text::texts(handles@) =~= Seq::empty());
        if let Some(snapshot) = &self.catalogue {
            let found = collect_handles(snapshot, producer);
            let ghost given = text::texts(found@);
            assert(given.take(0) =~= Seq::empty());
            for i in 0..found.len()
                invariant
                    given == text::texts(found@),
                    text::texts(handles@) == first_spellings(given.take(i as int)),
            {
                assert(given.take(i + 1).drop_last() =~= given.take(i as int));
                assert(given[i as int] == found@[i as int]@);
                if !is_empty_text(&found[i]) && !known_handle(&handles, &found[i]) {
                    let ghost before = text::texts(handles@);
                    handles.push(found[i].clone());
                    assert(text::texts(handles@) =~= before.push(given[i as int]));
                }
            }
            assert(given.take(given.len() as int) =~= given);
        }
        handles
    }

    /// The place of the row's handle among the choices, or the first.
    pub fn state_handle_position(&self, choices: &Vec<String>) -> (place: usize)
        ensures
            place == handle_position(text::texts(choices@), self@.state_add.handle),
    {
        let ghost given = text::texts(choices@);
        let handle = trim(&self.state_add.handle);
        let ghost p = |choice: Seq<char>|
            words::same_fold(choice, text::trimmed(self@.state_add.handle));
        for i in 0..choices.len()
            invariant
                given == text::texts(choices@),
                handle@ == text::trimmed(self@.state_add.handle),
                p == (|choice: Seq<char>|
                    words::same_fold(choice, text::trimmed(self@.state_add.handle))),
                forall|k: int| 0 <= k < i ==> !p(#[trigger] given[k]),
        {
            assert(given[i as int] == choices@[i as int]@);
            if same_folded(&choices[i], &handle) {
                proof {
                    list::lemma_place(given, p, i as int);
                }
                return i;
            }
        }
        assert(!exists|i: int| list::is_first(given, p, i)) by {
            assert forall|i: int| !list::is_first(given, p, i) by {
                if list::is_first(given, p, i) {
                    assert(p(given[i]));
                }
            }
        }
        0
    }

    /// Opens the list of handles at the row's.
    pub fn open_state_handle_picker(&mut self)
        ensures
            final(self)@ == (WindowView {
                state_add: StateAddDraft {
                    handle_cursor: handle_position(
                        handle_choices(old(self)@, old(self)@.state_add.producer),
                        old(self)@.state_add.handle,
                    ) as usize,
                    handle_picker_open: true,
                    ..old(self)@.state_add
                },
                ..old(self)@
            }),
            final(self)@.state_add.handle_cursor == handle_position(
                handle_choices(old(self)@, old(self)@.state_add.producer),
                old(self)@.state_add.handle,
            ),
    {
        let choices = self.state_handle_choices(&self.state_add.producer);
        let place: usize = self.state_handle_position(&choices);
        self.state_add.handle_cursor = place;
        self.state_add.handle_picker_open = true;
    }

    /// Moves the place in the list of handles, round the list.
    pub fn move_state_handle_cursor(&mut self, delta: i32)
        ensures
            ({
                let len = handle_choices(old(self)@, old(self)@.state_add.producer).len();
                if len == 0 {
                    final(self)@ == old(self)@
                } else {
                    &&& final(self)@ == (WindowView {
                        state_add: StateAddDraft {
                            handle_cursor: moved(
                                old(self)@.state_add.handle_cursor,
                                delta,
                                len,
                            ) as usize,
                            ..old(self)@.state_add
                        },
                        ..old(self)@
                    })
                    &&& final(self)@.state_add.handle_cursor == moved(
                        old(self)@.state_add.handle_cursor,
                        delta,
                        len,
                    )
                    &&& final(self)@.state_add.handle_cursor < len
                }
            }),
    {
        let choices = self.state_handle_choices(&self.state_add.producer);
        if choices.len() == 0 {
            return;
        }
        self.state_add.handle_cursor = move_cursor(
            self.state_add.handle_cursor,
            delta,
            choices.len(),
        );
    }
}

} // verus!
