use smudgy_ui::automations_window::addresses::{producer_display, producer_rank, producers_equal, takes_handle, ProducerKey};
use smudgy_ui::automations_window::browser::{state_producers, FILTER_RESULT_CAP};
use smudgy_ui::automations_window::catalogue::{
    CatalogueEntryView, CatalogueKind, CatalogueSample, CatalogueSnapshot, Node, ProducerView,
};
use smudgy_ui::automations_window::exposures::{default_name_for, StateExposure, StateExposureDraft};
use smudgy_ui::automations_window::figures::{ago, first_lines, format_bytes};
use smudgy_ui::automations_window::notes::{
    exposure_error_message, state_notes_for, ScriptLang, StateExposureError, StateNote, Vocabulary,
};
use smudgy_ui::automations_window::paths::{is_identifier, paths_equal, StorePath};
use smudgy_ui::automations_window::phrases::Phrase;
use smudgy_ui::automations_window::references::{
    join_reference, rail_entries, reference, state_value_preview, VALUE_PREVIEW_CHARS,
};
use smudgy_ui::automations_window::state_module::{BrowseBody, HandleSlot, StateAction};
use smudgy_ui::automations_window::state_values::{
    AutomationsWindow, EditNode, EditorState, Pane, StateAddDraft,
};
use smudgy_ui::automations_window::store_inspector::{RowBody, RowLabel, NODE_CHILD_CAP};
use smudgy_ui::automations_window::store_pane::{catalogue_entries, store_trees, CatalogueLine};
use smudgy_ui::automations_window::topbar::{BarAction, Crumb, Selection};

fn text(value: &str) -> String {
    value.to_string()
}

fn texts(values: &[&str]) -> Vec<String> {
    values.iter().map(|value| value.to_string()).collect()
}

fn draft(
    producer: &str,
    handle: Option<&str>,
    name: Option<&str>,
    paths: &[&str],
) -> StateExposureDraft {
    StateExposureDraft {
        producer: text(producer),
        handle: handle.map(str::to_string),
        name_field: name.map(str::to_string),
        paths: texts(paths),
    }
}

fn scalar(spelling: &str) -> Node {
    Node::Scalar(text(spelling))
}

fn object(members: Vec<(&str, Node)>) -> Node {
    Node::Object(members.into_iter().map(|(key, node)| (text(key), node)).collect())
}

fn published(producer: &str, tree: Node) -> ProducerView {
    ProducerView {
        producer: text(producer),
        tree,
        entries: 0,
        bytes: 0,
    }
}

fn entry(producer: &str, name: &str, kind: CatalogueKind) -> CatalogueEntryView {
    CatalogueEntryView {
        producer: text(producer),
        name: text(name),
        kind,
        declared: true,
        runtime_confirmed: false,
        type_alias: None,
        occurrences: 0,
        inferred_shape: None,
        declared_shape: None,
        samples: Vec::new(),
    }
}

fn window() -> AutomationsWindow {
    AutomationsWindow {
        pane: Pane::Dashboard,
        selection: Selection::Dashboard,
        state_revealed: false,
        state_exposures: Vec::new(),
        state_filter: String::new(),
        state_toggled: Vec::new(),
        state_add: StateAddDraft::default(),
        store_toggled: Vec::new(),
        catalogue: None,
        installed_packages: Vec::new(),
    }
}

fn vocabulary() -> Vocabulary {
    Vocabulary {
        reserved: texts(&["class"]),
        smudgy: texts(&["gmcp"]),
        javascript: texts(&["Math"]),
        deno: texts(&["prompt"]),
    }
}

/// A note as its kind and its name.
fn described(note: &StateNote) -> (&'static str, &str) {
    match note {
        StateNote::NameTaken(name) => ("taken", name),
        StateNote::BadName(name) => ("bad", name),
        StateNote::ReservedName(name) => ("reserved", name),
        StateNote::ShadowsSmudgy(name) => ("smudgy", name),
        StateNote::ShadowsJavaScript(name) => ("javascript", name),
        StateNote::ShadowsDeno(name) => ("deno", name),
        StateNote::ShadowsCapture(name) => ("capture", name),
    }
}

fn all_described(notes: &[StateNote]) -> Vec<(&'static str, &str)> {
    notes.iter().map(described).collect()
}

fn spelled(phrase: &Phrase) -> String {
    let mut out = phrase.key.clone();
    for (name, value) in &phrase.arguments {
        out.push_str(&format!(" {name}={value}"));
    }
    out
}

#[test]
fn references_spell_the_root_bare_and_paths_dotted() {
    assert_eq!(reference("gmcp", ""), "gmcp");
    assert_eq!(reference("gmcp", "Char.Vitals.hp"), "gmcp.Char.Vitals.hp");
    assert_eq!(reference("prompt", "hp"), "prompt.hp");
    assert_eq!(
        reference("gmcp", "[\"Some-Pkg\"].Msg"),
        "gmcp[\"Some-Pkg\"].Msg"
    );
    // An unparsable path still renders so the author can see what to fix.
    assert_eq!(reference("gmcp", "Char..Vitals"), "gmcp.Char..Vitals");
}

#[test]
fn roots_and_paths_match_under_the_fold() {
    let draft = StateExposureDraft {
        producer: "smudgy://Kapusniak/Arctic-Prompt".to_string(),
        handle: Some("Prompt".to_string()),
        name_field: None,
        paths: vec!["Char.Vitals".to_string()],
    };
    assert!(draft.is_root("kapusniak/arctic-prompt", Some("prompt")));
    assert!(!draft.is_root("smudgy://kapusniak/arctic-prompt", None));
    assert!(!draft.is_root("user", Some("prompt")));
    assert_eq!(draft.path_index("char.vitals"), Some(0));
    assert_eq!(draft.path_index("Char.Vitals.hp"), None);
    // The default name keeps the handle's own spelling.
    assert_eq!(draft.name(), "Prompt");
}

#[test]
fn a_blank_rename_field_is_not_an_override() {
    let mut draft = StateExposureDraft {
        producer: "user".to_string(),
        handle: Some("foo".to_string()),
        name_field: Some("   ".to_string()),
        paths: vec![String::new()],
    };
    assert_eq!(draft.to_exposure().name_override, None);
    assert_eq!(draft.name(), "foo");
    draft.name_field = Some(" stats ".to_string());
    assert_eq!(draft.to_exposure().name_override.as_deref(), Some("stats"));
    assert_eq!(draft.name(), "stats");
    // The default name typed back is not an override either; JavaScript spelling is
    // exact, so another casing of it is.
    draft.name_field = Some("foo".to_string());
    assert_eq!(draft.to_exposure().name_override, None);
    assert_eq!(draft.name(), "foo");
    draft.name_field = Some("Foo".to_string());
    assert_eq!(draft.to_exposure().name_override.as_deref(), Some("Foo"));
    let platform = StateExposureDraft {
        producer: "gmcp".to_string(),
        handle: None,
        name_field: Some(" gmcp ".to_string()),
        paths: vec![String::new()],
    };
    assert_eq!(platform.to_exposure().name_override, None);
    assert_eq!(platform.default_name(), "gmcp");
}

#[test]
fn notes_block_reserved_words_and_flag_known_globals_per_language() {
    let names = texts(&["class", "stats", "gmcp", "Math", "prompt", "9x", "target"]);
    let captures = texts(&["target"]);
    let words = vocabulary();

    // A script body sees the three shadowing buckets and no capture collision.
    let script = state_notes_for(&names, &captures, Some(ScriptLang::JS), &words);
    assert_eq!(all_described(&script[0]), vec![("reserved", "class")]);
    assert!(script[0][0].blocks_save());
    assert!(script[1].is_empty(), "an ordinary name gets no note");
    assert_eq!(all_described(&script[2]), vec![("smudgy", "gmcp")]);
    assert_eq!(all_described(&script[3]), vec![("javascript", "Math")]);
    assert_eq!(all_described(&script[4]), vec![("deno", "prompt")]);
    assert!(!script[4][0].blocks_save());
    assert_eq!(all_described(&script[5]), vec![("bad", "9x")]);
    assert!(script[6].is_empty());
    let typed = state_notes_for(&names, &captures, Some(ScriptLang::TS), &words);
    assert_eq!(typed.len(), script.len());
    for index in 0..script.len() {
        assert_eq!(all_described(&typed[index]), all_described(&script[index]));
    }

    // Send text sees only the capture collision; nothing shadows in a text body.
    let send_text = state_notes_for(&names, &captures, Some(ScriptLang::Plaintext), &words);
    assert_eq!(all_described(&send_text[0]), all_described(&script[0]));
    assert!(send_text[2].is_empty());
    assert!(send_text[3].is_empty());
    assert!(send_text[4].is_empty());
    assert_eq!(all_described(&send_text[6]), vec![("capture", "target")]);

    // No open editor: the blocking notes only.
    let none = state_notes_for(&names, &captures, None, &words);
    assert_eq!(all_described(&none[0]), all_described(&script[0]));
    assert_eq!(all_described(&none[5]), all_described(&script[5]));
    for index in [1, 2, 3, 4, 6] {
        assert!(none[index].is_empty(), "{index}");
    }

    // A duplicate under the fold marks the later entry.
    let dup = state_notes_for(&texts(&["hp", "HP"]), &Vec::new(), None, &words);
    assert!(dup[0].is_empty());
    assert_eq!(all_described(&dup[1]), vec![("taken", "HP")]);
}

#[test]
fn producers_display_packages_by_name_and_rank_user_first() {
    assert_eq!(
        producer_display("smudgy://kapusniak/arctic-prompt"),
        (
            "arctic-prompt".to_string(),
            Some("smudgy://kapusniak/arctic-prompt".to_string())
        )
    );
    assert_eq!(producer_display("GMCP"), ("gmcp".to_string(), None));
    let mut producers = vec!["smudgy://a/b", "mssp", "user", "gmcp", "msdp"];
    producers.sort_by_cached_key(|producer| producer_rank(producer));
    assert_eq!(producers, ["user", "gmcp", "msdp", "mssp", "smudgy://a/b"]);
}

#[test]
fn state_references_render_per_tab_and_brace_bracket_keys() {
    let drafts = vec![
        draft(
            "gmcp",
            None,
            None,
            &["Char.Vitals.hp", "", "[\"Some-Pkg\"].Msg"],
        ),
        draft("user", Some("foo"), Some("stats"), &["bar"]),
    ];
    // With no snapshot every badge is a bare reference.
    let references = |language: ScriptLang| -> Vec<String> {
        rail_entries(&drafts, language, None)
            .into_iter()
            .map(|(reference, value)| {
                assert_eq!(value, None, "{reference}");
                reference
            })
            .collect()
    };
    assert_eq!(
        references(ScriptLang::Plaintext),
        [
            "$gmcp.Char.Vitals.hp",
            "$gmcp",
            "${gmcp[\"Some-Pkg\"].Msg}",
            "$stats.bar",
        ]
    );
    let script = [
        "gmcp.Char.Vitals.hp",
        "gmcp",
        "gmcp[\"Some-Pkg\"].Msg",
        "stats.bar",
    ];
    assert_eq!(references(ScriptLang::JS), script);
    assert_eq!(references(ScriptLang::TS), script);
    assert!(rail_entries(&Vec::new(), ScriptLang::Plaintext, None).is_empty());
}

#[test]
fn unparsable_paths_get_no_badge_and_leave_the_values_aligned() {
    let snapshot = CatalogueSnapshot {
        producers: vec![published(
            "gmcp",
            object(vec![(
                "Char",
                object(vec![(
                    "Vitals",
                    object(vec![("hp", scalar("100")), ("sp", scalar("50"))]),
                )]),
            )]),
        )],
        entries: Vec::new(),
    };
    let drafts = || {
        vec![draft(
            "gmcp",
            None,
            None,
            &["Char..Vitals", "Char.Vitals.hp", "Char.Vitals.sp"],
        )]
    };
    assert_eq!(
        rail_entries(&drafts(), ScriptLang::Plaintext, Some(&snapshot)),
        [
            ("$gmcp.Char.Vitals.hp".to_string(), Some("100".to_string())),
            ("$gmcp.Char.Vitals.sp".to_string(), Some("50".to_string())),
        ]
    );

    let mut window = window();
    window.state_exposures = drafts();
    assert_eq!(
        window.exposed_paths().len(),
        window.state_rail_entries(ScriptLang::Plaintext).len()
    );
    // A root whose only path is unparsable exposes no name: no badge, and the
    // highlighter treats `$gmcp` as it would any unknown capture.
    window.state_exposures = vec![draft("gmcp", None, None, &["Char..Vitals"])];
    assert!(window.exposed_paths().is_empty());
    assert!(window.state_rail_entries(ScriptLang::Plaintext).is_empty());
}

#[test]
fn value_previews_walk_the_snapshot_under_the_fold() {
    let snapshot = CatalogueSnapshot {
        producers: vec![
            published(
                "gmcp",
                object(vec![(
                    "Char",
                    object(vec![(
                        "Vitals",
                        object(vec![
                            ("hp", scalar("100")),
                            ("name", scalar("\"Bob\"")),
                            ("alive", scalar("true")),
                            ("tags", Node::Array(vec![scalar("1"), scalar("2")])),
                            ("gone", scalar("null")),
                            ("long", scalar(&format!("\"{}\"", "x".repeat(40)))),
                        ]),
                    )]),
                )]),
            ),
            published(
                "smudgy://kapusniak/arctic-prompt",
                object(vec![("prompt", object(vec![("hp", scalar("7"))]))]),
            ),
        ],
        entries: Vec::new(),
    };
    let gmcp = draft("GMCP", None, None, &[]);
    let preview =
        |draft: &StateExposureDraft, path: &str| state_value_preview(&snapshot, draft, path);
    // Scalars in their JSON spelling, containers summarized, the root included.
    assert_eq!(preview(&gmcp, "char.vitals.HP").as_deref(), Some("100"));
    assert_eq!(
        preview(&gmcp, "Char.Vitals.name").as_deref(),
        Some("\"Bob\"")
    );
    assert_eq!(preview(&gmcp, "Char.Vitals.alive").as_deref(), Some("true"));
    assert_eq!(preview(&gmcp, "Char.Vitals.gone").as_deref(), Some("null"));
    assert_eq!(preview(&gmcp, "Char.Vitals.tags").as_deref(), Some("[…]"));
    assert_eq!(preview(&gmcp, "Char.Vitals").as_deref(), Some("{…}"));
    assert_eq!(preview(&gmcp, "").as_deref(), Some("{…}"));
    let long = preview(&gmcp, "Char.Vitals.long").unwrap();
    assert_eq!(long.chars().count(), VALUE_PREVIEW_CHARS + 1);
    assert!(long.ends_with('…'));
    // Nothing at the path, an unparsable path, or an unknown producer.
    assert_eq!(preview(&gmcp, "Room.Info"), None);
    assert_eq!(preview(&gmcp, "Char..Vitals"), None);
    assert_eq!(preview(&draft("msdp", None, None, &[]), ""), None);
    // A handle root walks the handle first, producer and handle folded.
    let prompt = draft(
        "smudgy://Kapusniak/Arctic-Prompt",
        Some("Prompt"),
        None,
        &[],
    );
    assert_eq!(preview(&prompt, "hp").as_deref(), Some("7"));
    assert_eq!(preview(&prompt, "").as_deref(), Some("{…}"));
    assert_eq!(
        preview(
            &draft("smudgy://kapusniak/arctic-prompt", Some("nope"), None, &[]),
            ""
        ),
        None
    );
}

// ===== Paths and addresses =====

#[test]
fn paths_are_read_back_as_they_are_spelled() {
    for path in ["", "a", "a.b_1", "[\"x y\"]", "a[\"x.y\"].b", "[\"q\\\"\\\\\"].z"] {
        let parsed = StorePath::parse(path).expect(path);
        assert_eq!(parsed.spell(), path);
    }
    let quoted = StorePath::parse("[\"q\\\"\\\\\"].z").unwrap();
    assert_eq!(quoted.segments, texts(&["q\"\\", "z"]));
    let odd = texts(&["Some-Pkg", "1", "ok"]);
    let path = StorePath::from_segments(&odd).unwrap();
    assert_eq!(path.spell(), "[\"Some-Pkg\"][\"1\"].ok");
    assert_eq!(StorePath::parse(&path.spell()).unwrap().segments, odd);
    assert!(StorePath::from_segments(&texts(&["a", ""])).is_none());
}

#[test]
fn what_is_no_path_is_refused() {
    for path in [".", "a.", ".a", "a..b", "a b", "[a]", "[\"\"]", "[\"a", "[\"a\"", "a.[\"b\"]", "9x"] {
        assert!(StorePath::parse(path).is_none(), "{path}");
    }
}

#[test]
fn paths_are_compared_by_their_keys() {
    assert!(paths_equal("[\"Char\"].hp", "char.HP"));
    assert!(!paths_equal("char", "char.hp"));
    // What is no path is compared as it was typed.
    assert!(paths_equal(" A..B ", "a..b"));
    assert!(!paths_equal("a..b", "a.b"));
}

#[test]
fn identifiers_start_with_a_letter_or_underscore() {
    assert!(is_identifier("_a9"));
    assert!(!is_identifier("9a"));
    assert!(!is_identifier(""));
    assert!(!is_identifier("a-b"));
}

#[test]
fn addresses_lead_to_producers() {
    assert!(matches!(ProducerKey::parse("USER"), Some(ProducerKey::User)));
    for address in ["user", "gmcp", "msdp", "mssp", "smudgy://owner/name"] {
        assert_eq!(ProducerKey::parse(address).unwrap().address(), address);
    }
    assert_eq!(
        ProducerKey::parse("Owner/Name").unwrap().address(),
        "smudgy://owner/name"
    );
    for address in ["", "owner", "a/b/c", "/b", "a/", "smudgy://a"] {
        assert!(ProducerKey::parse(address).is_none(), "{address}");
    }
    assert!(producers_equal(" nobody ", "NoBody"));
    assert!(!producers_equal("nobody", "user"));
    assert!(takes_handle("user"));
    assert!(takes_handle("a/b"));
    assert!(!takes_handle("Gmcp"));
    assert_eq!(producer_rank("nobody"), (3, text("nobody")));
    assert_eq!(producer_rank("A/B"), (2, text("smudgy://a/b")));
}

#[test]
fn names_are_joined_to_what_a_path_is_written_as() {
    assert_eq!(join_reference("a", ""), "a");
    assert_eq!(join_reference("a", "b.c"), "a.b.c");
    assert_eq!(join_reference("a", "[\"b\"]"), "a[\"b\"]");
    assert_eq!(default_name_for("GMCP", None), "gmcp");
    assert_eq!(default_name_for("user", Some("Foo")), "Foo");
}

// ===== Editing the roots =====

#[test]
fn toggling_a_path_twice_restores_the_roots() {
    let mut window = window();
    window.state_exposures = vec![draft("gmcp", None, None, &["Char"])];
    window.toggle_state_exposure("GMCP", None, "Room.Info");
    assert_eq!(window.state_exposures[0].paths, texts(&["Char", "Room.Info"]));
    window.toggle_state_exposure("gmcp", None, "room.info");
    assert_eq!(window.state_exposures[0].paths, texts(&["Char"]));
    window.toggle_state_exposure("user", Some("foo"), "");
    assert_eq!(window.state_exposures.len(), 2);
    window.toggle_state_exposure("user", Some("FOO"), "");
    assert_eq!(window.state_exposures.len(), 1);
    window.remove_state_exposure("gmcp", None, "char");
    assert!(window.state_exposures.is_empty());
    window.remove_state_exposure("gmcp", None, "char");
    assert!(window.state_exposures.is_empty());
}

#[test]
fn a_path_is_added_once() {
    let mut window = window();
    window.insert_state_path("user", Some(" foo "), " hp ");
    window.insert_state_path("user", Some("Foo"), "HP");
    assert_eq!(window.state_exposures.len(), 1);
    assert_eq!(window.state_exposures[0].handle.as_deref(), Some("foo"));
    assert_eq!(window.state_exposures[0].paths, texts(&["hp"]));
    assert_eq!(window.state_root_index("user", Some("foo")), Some(0));
    assert_eq!(window.state_root_index("user", None), None);
}

#[test]
fn typed_paths_are_checked_before_they_are_added() {
    let mut window = window();
    window.state_add.path = text("a..b");
    window.add_state_path("gmcp", None, " a..b ");
    assert_eq!(
        spelled(window.state_add.error.as_ref().unwrap()),
        "editor-state-bad-path path=a..b"
    );
    assert!(window.state_exposures.is_empty());
    assert_eq!(window.state_add.path, "a..b");
    // A root that needs a handle waits for one, and keeps what was typed.
    window.add_state_path("user", Some("  "), "hp");
    assert!(window.state_exposures.is_empty());
    assert!(window.state_add.error.is_some());
    window.add_state_path("user", Some(" foo "), "hp");
    assert_eq!(window.state_exposures[0].handle.as_deref(), Some("foo"));
    assert!(window.state_add.error.is_none());
    assert_eq!(window.state_add.path, "");
    // A platform producer has no handle to add under.
    window.add_state_path("gmcp", Some("foo"), "Char");
    assert_eq!(window.state_exposures[1].handle, None);
}

#[test]
fn the_field_for_a_name_opens_blank() {
    let mut window = window();
    window.state_exposures = vec![draft("user", Some("foo"), None, &[""])];
    window.reveal_state_name("user", Some("foo"));
    assert_eq!(window.state_exposures[0].name_field.as_deref(), Some(""));
    window.set_state_name("user", Some("foo"), text("bar"));
    window.reveal_state_name("user", Some("foo"));
    assert_eq!(window.state_exposures[0].name_field.as_deref(), Some("bar"));
    window.set_state_name("user", Some("other"), text("baz"));
    assert_eq!(window.state_exposures[0].name_field.as_deref(), Some("bar"));
}

#[test]
fn opening_an_automation_drops_roots_without_paths() {
    let mut window = window();
    window.state_revealed = true;
    window.state_filter = text("x");
    window.state_add.producer = text("user");
    let exposures = vec![
        StateExposure {
            producer: text("gmcp"),
            handle: None,
            name_override: Some(text("game")),
            paths: texts(&["Char"]),
        },
        StateExposure {
            producer: text("user"),
            handle: Some(text("foo")),
            name_override: None,
            paths: Vec::new(),
        },
    ];
    window.reset_state_draft(&exposures);
    assert_eq!(window.state_exposures.len(), 1);
    assert_eq!(window.state_exposures[0].name(), "game");
    assert!(!window.state_revealed);
    assert_eq!(window.state_filter, "");
    assert_eq!(window.state_add.producer, "gmcp");
    let kept = window.drafted_exposures();
    assert_eq!(kept[0].name_override.as_deref(), Some("game"));
    assert_eq!(kept[0].paths, texts(&["Char"]));
}

#[test]
fn exposures_are_kept_unless_the_runtime_cannot_use_them() {
    let mut window = window();
    window.state_exposures = vec![draft("gmcp", None, None, &["Char"])];
    assert_eq!(window.validate_state_exposures(&None).ok().unwrap().len(), 1);
    let cases = vec![
        (
            StateExposureError::DuplicateName { name: text("hp") },
            "editor-state-name-taken name=hp",
        ),
        (
            StateExposureError::InvalidName { name: text("9x") },
            "editor-state-bad-name name=9x",
        ),
        (
            StateExposureError::ReservedName { name: text("class") },
            "editor-state-reserved-name name=class",
        ),
        (
            StateExposureError::InvalidPath { path: text("a..b") },
            "editor-state-bad-path path=a..b",
        ),
        (
            StateExposureError::Other { detail: text("no paths") },
            "editor-state-invalid error=no paths",
        ),
    ];
    for (error, message) in cases {
        assert_eq!(spelled(&exposure_error_message(&error)), message);
        let refused = window.validate_state_exposures(&Some(error));
        assert_eq!(spelled(&refused.err().unwrap()), message);
    }
}

#[test]
fn notes_go_by_the_open_editor() {
    let mut window = window();
    window.state_exposures = vec![draft("user", Some("target"), None, &[""])];
    assert!(window.state_notes(&vocabulary())[0].is_empty());
    window.pane = Pane::Editor(EditorState {
        node: EditNode::Trigger,
        captures: vec![None, Some(text("target"))],
        language: ScriptLang::Plaintext,
    });
    assert_eq!(window.open_capture_names(), texts(&["target"]));
    let notes = window.state_notes(&vocabulary());
    assert_eq!(all_described(&notes[0]), vec![("capture", "target")]);
    assert_eq!(
        spelled(&notes[0][0].message()),
        "editor-state-name-shadows-capture name=target"
    );
    assert!(window.catalogue_subscribed());
    window.pane = Pane::Editor(EditorState {
        node: EditNode::Hotkey,
        captures: vec![Some(text("target"))],
        language: ScriptLang::Plaintext,
    });
    assert!(window.open_capture_names().is_empty());
}

#[test]
fn notes_say_what_they_are_about() {
    let cases = vec![
        (StateNote::NameTaken(text("a")), "editor-state-name-taken", true),
        (StateNote::BadName(text("a")), "editor-state-bad-name", true),
        (StateNote::ReservedName(text("a")), "editor-state-reserved-name", true),
        (StateNote::ShadowsSmudgy(text("a")), "editor-state-name-shadows-smudgy", false),
        (StateNote::ShadowsJavaScript(text("a")), "editor-state-name-shadows-javascript", false),
        (StateNote::ShadowsDeno(text("a")), "editor-state-name-shadows-deno", false),
        (StateNote::ShadowsCapture(text("a")), "editor-state-name-shadows-capture", false),
    ];
    for (note, key, blocks) in cases {
        assert_eq!(spelled(&note.message()), format!("{key} name=a"));
        assert_eq!(note.blocks_save(), blocks, "{key}");
    }
}

#[test]
fn exposed_paths_have_no_case() {
    let mut window = window();
    window.state_exposures = vec![draft("user", Some("Foo"), None, &["Bar.Baz", ""])];
    let exposed = window.exposed_paths();
    assert_eq!(exposed.len(), 2);
    assert_eq!(exposed[0].name, "foo");
    assert_eq!(exposed[0].segments, texts(&["bar", "baz"]));
    assert!(exposed[1].segments.is_empty());
}

// ===== Pickers =====

#[test]
fn the_disclosure_is_open_while_something_is_exposed() {
    let mut window = window();
    assert!(!window.state_disclosure_open());
    let links = window.state_module_links();
    assert_eq!(links.reveal.unwrap().action, StateAction::RevealState);
    assert!(links.add.is_none() && links.hide.is_none());
    window.state_revealed = true;
    let links = window.state_module_links();
    assert!(links.reveal.is_none());
    assert_eq!(links.add.unwrap().action, StateAction::RevealAdd);
    assert_eq!(links.hide.unwrap().action, StateAction::HideState);
    window.state_exposures = vec![draft("gmcp", None, None, &[""])];
    window.state_add.revealed = true;
    let links = window.state_module_links();
    assert!(links.add.is_none() && links.hide.is_none());
    assert_eq!(window.state_reveal_link().label.key, "editor-reveal-state");
}

#[test]
fn packages_are_listed_after_the_standing_producers() {
    let mut window = window();
    window.catalogue = Some(CatalogueSnapshot {
        producers: vec![published("gmcp", scalar("1")), published("A/B", scalar("1"))],
        entries: Vec::new(),
    });
    window.installed_packages = texts(&["smudgy://a/b@1.0", "c/d@2", "nonsense"]);
    let choices = window.state_producer_choices();
    let keys: Vec<&str> = choices.iter().map(|choice| choice.key.as_str()).collect();
    assert_eq!(
        keys,
        ["user", "gmcp", "msdp", "mssp", "smudgy://a/b", "smudgy://c/d"]
    );
    assert_eq!(choices[4].label, "b");
    assert_eq!(choices[4].detail.as_deref(), Some("smudgy://a/b"));
    assert!(choices[4].takes_handle && choices[0].takes_handle && !choices[1].takes_handle);
    window.state_add.producer = text("C/D");
    window.open_state_producer_picker();
    assert_eq!(window.state_add.cursor, 5);
    assert!(window.state_add.picker_open);
    window.move_state_producer_cursor(1);
    assert_eq!(window.state_add.cursor, 0);
    window.move_state_producer_cursor(-1);
    assert_eq!(window.state_add.cursor, 5);
    window.move_state_producer_cursor(-13);
    assert_eq!(window.state_add.cursor, 4);
    assert_eq!(window.producer_at_cursor().as_deref(), Some("smudgy://a/b"));
    window.state_add.handle = text("x");
    window.state_add.handle_picker_open = true;
    window.set_state_producer(text("user"));
    assert_eq!(window.state_add.handle, "");
    assert!(!window.state_add.handle_picker_open && !window.state_add.picker_open);
    assert_eq!(window.state_add.producer, "user");
    window.state_add.producer = text("nobody");
    assert_eq!(window.state_producer_position(&choices), 0);
}

#[test]
fn handles_are_listed_once_as_they_were_spelled_first() {
    let mut window = window();
    window.state_add.producer = text("user");
    assert!(window.state_handle_choices("user").is_empty());
    assert!(matches!(window.state_handle_slot(), HandleSlot::Typed));
    window.move_state_handle_cursor(1);
    assert_eq!(window.state_add.handle_cursor, 0);
    assert_eq!(window.handle_at_cursor(), None);
    window.catalogue = Some(CatalogueSnapshot {
        producers: vec![published(
            "user",
            object(vec![("Foo", scalar("1")), ("", scalar("2")), ("bar", scalar("3"))]),
        )],
        entries: vec![
            entry("user", "FOO", CatalogueKind::State),
            entry("user", "late", CatalogueKind::State),
            entry("user", "event", CatalogueKind::Event),
            entry("gmcp", "other", CatalogueKind::State),
        ],
    });
    assert_eq!(window.state_handle_choices("USER"), texts(&["Foo", "bar", "late"]));
    window.state_add.handle = text(" LATE ");
    window.open_state_handle_picker();
    assert_eq!(window.state_add.handle_cursor, 2);
    window.move_state_handle_cursor(2);
    assert_eq!(window.state_add.handle_cursor, 1);
    assert_eq!(window.handle_at_cursor().as_deref(), Some("bar"));
    assert!(matches!(window.state_handle_slot(), HandleSlot::Picked(_)));
    let request = window.state_add_request().unwrap();
    assert_eq!(request.handle.as_deref(), Some("LATE"));
    window.state_add.handle = text(" ");
    assert!(window.state_add_request().is_none());
    window.state_add.producer = text("gmcp");
    assert!(matches!(window.state_handle_slot(), HandleSlot::Absent));
    assert_eq!(window.state_add_request().unwrap().handle, None);
}

// ===== Browsing =====

#[test]
fn producers_without_state_are_not_browsed() {
    let snapshot = CatalogueSnapshot {
        producers: vec![
            published("smudgy://z/z", object(vec![("a", scalar("1"))])),
            published("mssp", object(Vec::new())),
            published("gmcp", object(vec![("Char", scalar("1"))])),
            published("user", object(Vec::new())),
        ],
        entries: vec![
            entry("user", "foo", CatalogueKind::State),
            entry("mssp", "foo", CatalogueKind::Event),
        ],
    };
    let producers = state_producers(&snapshot);
    let names: Vec<&str> = producers.iter().map(|view| view.producer.as_str()).collect();
    assert_eq!(names, ["user", "gmcp", "smudgy://z/z"]);
}

#[test]
fn rows_are_toggled_by_their_paths() {
    let mut window = window();
    window.state_exposures = vec![draft("user", Some("foo"), Some("stats"), &["a"])];
    assert!(window.state_row_toggle("user", &Vec::new()).is_none());
    let toggle = window.state_row_toggle("user", &texts(&["Foo", "a"])).unwrap();
    assert!(toggle.exposed);
    assert_eq!(
        spelled(&toggle.tooltip),
        "editor-state-unexpose-tooltip path=stats.a"
    );
    assert_eq!(toggle.handle.as_deref(), Some("Foo"));
    assert_eq!(toggle.path, "a");
    let toggle = window.state_row_toggle("gmcp", &texts(&["Char", "x y"])).unwrap();
    assert!(!toggle.exposed);
    assert_eq!(
        spelled(&toggle.tooltip),
        "editor-state-expose-tooltip path=gmcp.Char[\"x y\"]"
    );
    assert!(window.state_row_toggle("gmcp", &texts(&["a", ""])).is_none());
}

#[test]
fn a_filter_finds_paths_and_counts_what_it_hides() {
    let mut window = window();
    let many: Vec<(String, Node)> = (0..FILTER_RESULT_CAP + 3)
        .map(|index| (format!("key{index}"), scalar("1")))
        .collect();
    window.catalogue = Some(CatalogueSnapshot {
        producers: vec![published(
            "gmcp",
            object(vec![
                ("Char", object(vec![("Vitals", object(vec![("hp", scalar("9"))]))])),
                ("list", Node::Array(vec![object(vec![("hp", scalar("1"))])])),
                ("many", Node::Object(many)),
            ]),
        )],
        entries: Vec::new(),
    });
    window.state_filter = text(" VITALS ");
    match window.state_browse_section() {
        BrowseBody::Found(found) => {
            let paths: Vec<&str> = found.rows.iter().map(|row| row.path.as_str()).collect();
            assert_eq!(paths, ["Char.Vitals", "Char.Vitals.hp"]);
            assert_eq!(found.rows[0].value, "{1}");
            assert_eq!(found.rows[1].value, "9");
            assert_eq!(found.rows[0].label, "gmcp");
            assert!(!found.rows[1].toggle.as_ref().unwrap().exposed);
            assert_eq!(found.hidden, 0);
        }
        _ => panic!("a filter was typed"),
    }
    // The producer's name is part of what is searched; arrays are found whole.
    window.state_filter = text("gmcp list");
    match window.state_browse_section() {
        BrowseBody::Found(found) => {
            assert_eq!(found.rows.len(), 1);
            assert_eq!(found.rows[0].value, "[1]");
        }
        _ => panic!("a filter was typed"),
    }
    window.state_filter = text("key");
    match window.state_browse_section() {
        BrowseBody::Found(found) => {
            assert_eq!(found.rows.len(), FILTER_RESULT_CAP);
            assert_eq!(found.hidden, 3);
        }
        _ => panic!("a filter was typed"),
    }
    window.state_filter = text("  ");
    assert!(matches!(window.state_browse_section(), BrowseBody::Tree(_)));
    window.catalogue = Some(CatalogueSnapshot {
        producers: Vec::new(),
        entries: Vec::new(),
    });
    assert!(matches!(window.state_browse_section(), BrowseBody::Empty));
    window.catalogue = None;
    assert!(matches!(window.state_browse_section(), BrowseBody::Waiting));
}

#[test]
fn browsed_trees_start_closed_and_open_on_demand() {
    let mut window = window();
    let snapshot = CatalogueSnapshot {
        producers: vec![published(
            "gmcp",
            object(vec![("Char", object(vec![("hp", scalar("9"))])), ("", scalar("2"))]),
        )],
        entries: Vec::new(),
    };
    let producers = state_producers(&snapshot);
    let rows = window.state_tree(&producers);
    assert_eq!(rows.len(), 1);
    assert!(matches!(&rows[0].label, RowLabel::Head { name, .. } if name == "gmcp"));
    assert_eq!(rows[0].toggle.as_ref().unwrap().path, "");
    window.state_toggled = texts(&["gmcp\0", "gmcp\0/Char"]);
    let rows = window.state_tree(&producers);
    assert_eq!(rows.len(), 4);
    assert!(matches!(&rows[1].body, RowBody::Branch { node_key, expanded: true, summary }
        if node_key == "gmcp\0/Char" && summary == "{1}"));
    assert!(matches!(&rows[2].body, RowBody::Leaf(spelling) if spelling == "9"));
    assert_eq!(rows[2].depth, 2);
    assert_eq!(rows[2].toggle.as_ref().unwrap().path, "Char.hp");
    // No path spells an empty key.
    assert!(matches!(&rows[3].label, RowLabel::Unkeyed));
    assert!(rows[3].toggle.is_none());
}

#[test]
fn exposed_roots_are_shown_with_their_notes_and_paths() {
    let mut window = window();
    window.state_exposures = vec![
        draft("a/b", Some("hp"), Some("x"), &["a", "b..c"]),
        draft("gmcp", None, None, &[""]),
    ];
    let blocks = window.state_exposed_section(&vocabulary());
    assert_eq!(blocks[0].name, "x");
    assert_eq!(
        blocks[0].producer,
        Some((text("b"), Some(text("smudgy://a/b"))))
    );
    assert_eq!(blocks[0].name_field, Some((text("hp"), text("x"))));
    assert!(blocks[0].notes.is_empty());
    assert_eq!(blocks[0].paths[0].reference, "x.a");
    assert!(blocks[0].paths[0].error.is_none());
    assert_eq!(blocks[0].paths[1].reference, "x.b..c");
    assert_eq!(
        spelled(blocks[0].paths[1].error.as_ref().unwrap()),
        "editor-state-bad-path path=b..c"
    );
    assert_eq!(blocks[1].producer, None);
    assert_eq!(blocks[1].name_field, None);
    assert_eq!(blocks[1].paths[0].reference, "gmcp");
}

// ===== The store =====

#[test]
fn long_lists_say_how_much_they_leave_out() {
    let items: Vec<Node> = (0..NODE_CHILD_CAP + 2).map(|_| scalar("0")).collect();
    let snapshot = CatalogueSnapshot {
        producers: vec![ProducerView {
            producer: text("user"),
            tree: object(vec![("list", Node::Array(items))]),
            entries: 203,
            bytes: 2048,
        }],
        entries: Vec::new(),
    };
    let trees = store_trees(&snapshot, &Vec::new());
    assert_eq!(
        spelled(&trees[0].usage),
        "store-usage entries=203 bytes=2.0 KiB"
    );
    let rows = &trees[0].rows;
    assert_eq!(rows.len(), 2 + NODE_CHILD_CAP + 1);
    assert!(matches!(rows.last().unwrap().body, RowBody::More(2)));
    assert!(rows.iter().all(|row| row.toggle.is_none()));
    let closed = store_trees(&snapshot, &texts(&["user\0/list"]));
    assert_eq!(closed[0].rows.len(), 2);
}

#[test]
fn entries_stand_under_their_producers() {
    let mut seen = entry("gmcp", "Char", CatalogueKind::State);
    seen.runtime_confirmed = true;
    seen.occurrences = 12;
    seen.inferred_shape = Some(text("{hp: number}"));
    seen.declared_shape = Some(text("1\n2\n3\n4\n5\n6\n7"));
    seen.samples = (0..7)
        .map(|index| CatalogueSample {
            at_epoch_ms: 1000 * index,
            sender: text("game"),
            display: format!("{index}"),
            truncated: index == 6,
        })
        .collect();
    let mut heard = entry("user", "ping", CatalogueKind::Message);
    heard.declared = false;
    let mut unknown = entry("user", "pong", CatalogueKind::Event);
    unknown.declared = false;
    unknown.runtime_confirmed = true;
    let snapshot = CatalogueSnapshot {
        producers: Vec::new(),
        entries: vec![seen, heard, unknown, entry("user", "late", CatalogueKind::State)],
    };
    let lines = catalogue_entries(&snapshot, 10_000);
    assert_eq!(lines.len(), 6);
    assert!(matches!(&lines[0], CatalogueLine::Producer(name) if name == "gmcp"));
    assert!(matches!(&lines[2], CatalogueLine::Producer(name) if name == "user"));
    let mut keys = Vec::new();
    for line in &lines {
        if let CatalogueLine::Entry(block) = line {
            keys.push(block.provenance.key.clone());
        }
    }
    assert_eq!(
        keys,
        [
            "store-provenance-declared",
            "store-provenance-undeclared",
            "store-provenance-runtime",
            "store-provenance-declared-unseen",
        ]
    );
    if let CatalogueLine::Entry(block) = &lines[1] {
        assert_eq!(block.occurrences.as_deref(), Some("\u{D7}12"));
        assert_eq!(
            spelled(block.inferred_shape.as_ref().unwrap()),
            "store-shape shape={hp: number}"
        );
        assert_eq!(
            block.declared_shape.as_ref().unwrap().arguments[0].1,
            "1\n2\n3\n4\n5\n6 …"
        );
        let shown: Vec<&str> = block.samples.iter().map(|s| s.display.as_str()).collect();
        assert_eq!(shown, ["6", "5", "4", "3", "2"]);
        assert!(block.samples[0].truncated.is_some() && block.samples[1].truncated.is_none());
        assert_eq!(spelled(&block.samples[0].time), "time-seconds-ago count=4");
    } else {
        panic!("an entry follows its producer");
    }
    if let CatalogueLine::Entry(block) = &lines[3] {
        assert_eq!(block.occurrences, None);
        assert_eq!(block.kind, CatalogueKind::Message);
    }
}

#[test]
fn times_are_told_in_the_largest_fitting_unit() {
    assert_eq!(spelled(&ago(5_000, 1_000)), "time-just-now");
    assert_eq!(spelled(&ago(0, 2_999)), "time-just-now");
    assert_eq!(spelled(&ago(0, 3_000)), "time-seconds-ago count=3");
    assert_eq!(spelled(&ago(0, 99_999)), "time-seconds-ago count=99");
    assert_eq!(spelled(&ago(0, 100_000)), "time-minutes-ago count=1");
    assert_eq!(spelled(&ago(0, 5_999_000)), "time-minutes-ago count=99");
    assert_eq!(spelled(&ago(0, 6_000_000)), "time-hours-ago count=1");
}

#[test]
fn sizes_are_rounded_to_tenths() {
    assert_eq!(format_bytes(0), "0 B");
    assert_eq!(format_bytes(1023), "1023 B");
    assert_eq!(format_bytes(1024), "1.0 KiB");
    assert_eq!(format_bytes(1536), "1.5 KiB");
    assert_eq!(format_bytes(1_048_576), "1.0 MiB");
    // The same as the floating-point quotient, also where it lies between two tenths.
    for bytes in [1280u64, 1792, 2304, 1_048_575, 1_310_720, 1_835_008, 123_456_789, u64::MAX, (1 << 53) + 1, (1 << 60) + 129] {
        let expected = if bytes >= 1_048_576 {
            format!("{:.1} MiB", bytes as f64 / (1024.0 * 1024.0))
        } else {
            format!("{:.1} KiB", bytes as f64 / 1024.0)
        };
        assert_eq!(format_bytes(bytes), expected);
    }
}

#[test]
fn excerpts_end_with_a_mark_where_there_is_more() {
    assert_eq!(first_lines("a\r\nb\nc\n", 3), "a\nb\nc");
    assert_eq!(first_lines("a\r\nb\nc\n", 2), "a\nb …");
    assert_eq!(first_lines("", 2), "");
    assert_eq!(first_lines("a\rb\r", 2), "a\rb\r");
}

// ===== The bar =====

fn trail(selection: Selection) -> Vec<String> {
    let mut window = window();
    window.selection = selection;
    window
        .breadcrumb_trail(|spec: &str| format!("<{spec}>"))
        .into_iter()
        .map(|crumb| match crumb {
            Crumb::Name(name) => name,
            Crumb::Text(phrase) => format!("#{}", phrase.key),
        })
        .collect()
}

#[test]
fn the_trail_leads_to_what_is_selected() {
    assert!(trail(Selection::Nothing).is_empty());
    assert!(trail(Selection::Dashboard).is_empty());
    assert_eq!(
        trail(Selection::Script {
            folder_name: Some(text("a/b")),
            script_name: text("c"),
        }),
        ["a", "b", "c"]
    );
    assert_eq!(
        trail(Selection::Script {
            folder_name: None,
            script_name: text("c"),
        }),
        ["c"]
    );
    assert_eq!(trail(Selection::Folder(text("a/b"))), ["a", "b"]);
    assert_eq!(trail(Selection::Module(text("m"))), ["#automations-modules", "m"]);
    assert_eq!(trail(Selection::OwnedPackage(text("p"))), ["p"]);
    assert_eq!(trail(Selection::InstalledPackage(text("p"))), ["<p>"]);
    assert_eq!(
        trail(Selection::Dependency {
            parent: text("p"),
            spec: text("q"),
        }),
        ["<p>", "<q>"]
    );
    for (id, shown) in [("module:m", "m"), ("package:p", "<p>"), ("other", "other")] {
        assert_eq!(
            trail(Selection::CreatorAutomation {
                creator_id: text(id),
                name: text("n"),
            }),
            [shown, "n"]
        );
    }
    assert_eq!(trail(Selection::Discover), ["#automations-discover"]);
    assert_eq!(trail(Selection::Shared), ["#automations-private-shared"]);
    assert_eq!(trail(Selection::StoreInspector), ["#automations-session-store"]);
}

#[test]
fn the_bar_marks_what_is_open() {
    let mut window = window();
    window.pane = Pane::StoreInspector;
    assert!(window.catalogue_subscribed());
    let actions = window.topbar_actions(true);
    assert_eq!(actions.len(), 5);
    assert_eq!(actions[4].action, BarAction::Inspect);
    for button in &actions {
        assert_eq!(button.active, button.action == BarAction::Store);
    }
    assert_eq!(window.topbar_actions(false).len(), 4);
}
