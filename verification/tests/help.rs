use recon::colour::Color;
use recon::help::{
    can_draw, draw, keys_for_label, label_is_readable, label_matches, layout, overlay, pack, panel,
    rows, sections, shown, total_width, Area, Binding, Face, Key, Row, GUTTER, KEY_GAP,
};
use recon::keymap;
use recon::keymap::{action_named, KeyCode, Keymap, KeymapConfig, KeymapError, ACTIONS};

fn inner(width: u16, height: u16) -> Area {
    Area {
        x: 0,
        y: 0,
        width,
        height,
    }
}

fn config(lines: &[(&str, &[&str])]) -> KeymapConfig {
    let bindings = lines
        .iter()
        .map(|(action, keys)| {
            (
                (*action).to_string(),
                keys.iter().map(|key| (*key).to_string()).collect(),
            )
        })
        .collect();
    KeymapConfig { bindings }
}

fn keymap(lines: &[(&str, &[&str])]) -> Keymap {
    Keymap::new(&config(lines)).expect("the bindings are valid")
}

const RELOAD: &str = "Refresh from disk — rescan the listing, reload the file";
const HIDE: &str = "Dim unmatched lines, or hide them";

#[test]
fn a_labels_bound_character_is_derived_from_how_it_is_drawn() {
    let table = sections();
    let binding = Binding {
        keys: vec![
            "Ctrl-e",
            "H",
            "space",
            "PageDown",
            "Shift-Tab",
            "F3",
            "f i",
            "printable",
        ],
        action: "irrelevant",
        names: vec![],
    };

    assert_eq!(
        binding.codes(),
        vec![
            Key::Char('e'),
            Key::Char('H'),
            Key::Char(' '),
            Key::Named("PageDown"),
            Key::Named("BackTab"),
            Key::Named("F"),
        ],
        "a key label was read as the wrong key"
    );
}

#[test]
fn a_range_label_documents_every_key_in_it() {
    let binding = Binding {
        keys: vec!["1-9"],
        action: "",
        names: vec![],
    };
    let codes: Vec<Key> = binding.codes();
    assert_eq!(codes, ('1'..='9').map(Key::Char).collect::<Vec<_>>());

    let binding = Binding {
        keys: vec!["Ctrl-d"],
        action: "",
        names: vec![],
    };
    assert_eq!(binding.codes(), vec![Key::Char('d')]);
}

#[test]
fn sections_follow_the_layer_model() {
    let table = sections();
    let titles: Vec<&str> = table.iter().map(|s| s.title).collect();
    assert_eq!(
        titles,
        [
            "Global",
            "Chains",
            "Shared motions",
            "Navigator",
            "File view",
            "Filter pane",
            "Profile picker",
            "While a prompt is open",
        ]
    );

    let shared = [
        "j", "k", "g", "G", "Ctrl-d", "Ctrl-u", "PageDown", "PageUp", "n", "N", "Enter",
    ];
    for key in shared {
        let sections: Vec<&str> = table
            .iter()
            .filter(|s| {
                s.title != "Global"
                    && s.title != "While a prompt is open"
                    && s.title != "Profile picker"
            })
            .filter(|s| s.bindings.iter().any(|b| b.keys.contains(&key)))
            .map(|s| s.title)
            .collect();
        assert_eq!(
            sections,
            ["Shared motions"],
            "{key} is documented in {sections:?}"
        );
    }

    let pane_only = [
        ("h", "Navigator"),
        ("l", "Navigator"),
        ("i", "Filter pane"),
        ("*", "File view"),
    ];
    for (key, pane) in pane_only {
        let sections: Vec<&str> = table
            .iter()
            .filter(|s| s.bindings.iter().any(|b| b.keys.contains(&key)))
            .map(|s| s.title)
            .collect();
        assert!(
            sections.contains(&pane),
            "{key} is not documented in {pane}: {sections:?}"
        );
    }
}

#[test]
fn a_normal_terminal_shows_the_whole_keymap() {
    let rows = rows(&Keymap::default());

    let columns = layout(&rows, inner(150, 44));

    assert_eq!(shown(&columns), rows.len(), "the keymap did not fit");
    assert!(
        total_width(&columns) <= 150,
        "the columns overflowed the area they were fitted to"
    );
}

#[test]
fn a_column_is_sized_to_its_own_widest_row() {
    let table = sections();
    let rows = rows(&Keymap::default());

    let columns = layout(&rows, inner(150, 43));

    assert!(columns.len() > 1, "the table was not split into columns");
    assert!(
        columns.iter().map(|column| column.width).min()
            != columns.iter().map(|column| column.width).max(),
        "every column came out the same width, so one global maximum was used"
    );
}

#[test]
fn the_overlay_is_a_centred_panel() {
    let height = u16::try_from(rows(&Keymap::default()).len() + 10)
        .expect("a keymap of sane size");
    let area = inner(170, height);

    let panel = overlay(area, &Keymap::default()).panel;

    assert!(
        panel.height < area.height,
        "the overlay stretched to the full height of the screen"
    );
    assert!(
        panel.width < area.width,
        "the overlay stretched to the full width of the screen"
    );
    assert_eq!(
        panel.x,
        (area.width - panel.width) / 2,
        "the panel is not centred horizontally"
    );
    assert_eq!(
        panel.y,
        (area.height - panel.height) / 2,
        "the panel is not centred vertically"
    );
}

#[test]
fn the_overlay_never_outgrows_a_small_area() {
    let area = inner(30, 8);

    let panel = overlay(area, &Keymap::default()).panel;

    assert_eq!(panel.width, area.width);
    assert_eq!(panel.height, area.height);
}

#[test]
fn a_short_area_cannot_show_every_row() {
    let rows = rows(&Keymap::default());

    let columns = layout(&rows, inner(40, 5));

    assert_eq!(columns.len(), 1, "a 40-column area fitted a second column");
    assert_eq!(
        shown(&columns),
        5,
        "more rows were kept than there are rows"
    );
}

fn keys_of(rows: &[Row], action: &str) -> String {
    rows.iter()
        .find_map(|row| match row {
            Row::Entry { keys, action: text } if *text == action => Some(keys.clone()),
            _ => None,
        })
        .unwrap_or_else(|| panic!("no row describes {action:?}"))
}

fn keys_under(rows: &[Row], heading: &str, action: &str) -> String {
    let start = rows
        .iter()
        .position(|row| matches!(row, Row::Heading(title) if *title == heading))
        .unwrap_or_else(|| panic!("no {heading:?} section"));
    keys_of(&rows[start..], action)
}

#[test]
fn a_rebound_action_shows_the_key_the_user_bound() {
    let rows = rows(&keymap(&[
        ("global.reload", &["F5"]),
        ("global.toggle.hide", &["U"]),
    ]));

    assert_eq!(
        keys_of(&rows, RELOAD),
        "F5",
        "the overlay still showed the compiled-in key"
    );
    assert_eq!(keys_of(&rows, HIDE), "U");
}

#[test]
fn a_row_of_several_actions_substitutes_key_by_key() {
    let rows = rows(&keymap(&[("global.file.prev", &["<"])]));

    assert_eq!(
        keys_of(&rows, "Next / previous file the filters match"),
        ". / <",
        "only the rebound half of the row may move"
    );
}

#[test]
fn a_shared_row_shows_every_key_that_still_reaches_it() {
    let rows = rows(&keymap(&[("nav.up", &["K"])]));

    assert_eq!(
        keys_under(&rows, "Shared motions", "Down / up a row"),
        "j / K / k / Down / Up"
    );
}

#[test]
fn an_action_left_unbound_says_so() {
    let rows = rows(&keymap(&[("global.reload", &[])]));

    assert_eq!(keys_of(&rows, RELOAD), "unbound");
}

#[test]
fn a_row_that_names_no_action_keeps_its_literal_keys() {
    let table = sections();
    let rows = rows(&keymap(&[("global.reload", &["F5"])]));

    assert_eq!(
        keys_of(&rows, "Reserved — the hex view, in a later release"),
        "-"
    );
    assert_eq!(
        keys_of(&rows, "Reserved — a command palette, in a later release"),
        ":"
    );
    assert_eq!(keys_of(&rows, "Insert at the cursor"), "printable");
    assert_eq!(keys_of(&rows, "Stay in the filter pane"), "f f");
}

#[test]
fn the_default_keymap_renders_the_tables_own_keys() {
    let table = sections();
    let literal: Vec<String> = table
        .iter()
        .flat_map(|section| section.bindings.iter())
        .map(|binding| binding.keys.join(" / "))
        .collect();

    let rendered: Vec<String> = rows(&Keymap::default())
        .into_iter()
        .filter_map(|row| match row {
            Row::Entry { keys, .. } => Some(keys),
            Row::Heading(_) | Row::Blank => None,
        })
        .collect();

    assert_eq!(rendered, literal);
}

#[test]
fn the_table_names_only_actions_that_exist() {
    for section in sections() {
        for binding in section.bindings {
            for name in binding.names {
                assert!(action_named(name).is_some(), "{name}");
            }
        }
    }
}

#[test]
fn every_action_is_documented() {
    let table = sections();
    for (name, _) in ACTIONS {
        assert!(
            table
                .iter()
                .flat_map(|section| section.bindings.iter())
                .any(|binding| binding.names.contains(&name)),
            "{name}"
        );
    }
}

#[test]
fn the_table_shows_only_keys_its_actions_have() {
    let defaults = Keymap::default();
    for section in sections() {
        for binding in section.bindings {
            for key in &binding.keys {
                let claimed = binding.names.iter().any(|name| {
                    let action = action_named(name).expect("an action");
                    defaults.labels_for(action).iter().any(|label| label == key)
                });
                assert!(
                    binding.names.is_empty() || claimed,
                    "{key} of {:?}",
                    binding.action
                );
            }
        }
    }
}

#[test]
fn every_default_label_is_readable() {
    for (name, _) in ACTIONS {
        let action = action_named(name).expect("an action");
        for label in Keymap::default().labels_for(action) {
            assert!(label_is_readable(label), "{label}");
        }
    }
}

#[test]
fn a_keymap_line_for_no_action_is_refused() {
    match Keymap::new(&config(&[("global.reload", &["F5"]), ("nav.fly", &["x"])])) {
        Err(KeymapError::UnknownAction(name)) => assert_eq!(name, "nav.fly"),
        other => panic!("not refused: {other:?}"),
    }
}

#[test]
fn a_keymap_line_with_a_label_of_no_key_is_refused() {
    match Keymap::new(&config(&[("global.reload", &["F5", "Mod-Q", "also not"])])) {
        Err(KeymapError::UnreadableLabel(label)) => assert_eq!(label, "Mod-Q"),
        other => panic!("not refused: {other:?}"),
    }
}

#[test]
fn rebinding_one_action_leaves_the_others() {
    let rebound = keymap(&[("global.reload", &["F5"])]);
    let defaults = Keymap::default();
    for (name, _) in ACTIONS {
        let action = action_named(name).expect("an action");
        if name == "global.reload" {
            assert_eq!(rebound.labels_for(action).as_slice(), ["F5"]);
        } else {
            assert_eq!(rebound.labels_for(action), defaults.labels_for(action));
        }
    }
}

fn press(code: KeyCode) -> keymap::Key {
    keymap::Key {
        code,
        ctrl: false,
        alt: false,
    }
}

#[test]
fn a_label_names_its_key_and_no_other() {
    assert!(label_matches("space", press(KeyCode::Char(' '))));
    assert!(label_matches("Shift-Tab", press(KeyCode::BackTab)));
    assert!(!label_matches("Shift-Tab", press(KeyCode::Tab)));
    assert!(label_matches("1-9", press(KeyCode::Char('5'))));
    assert!(!label_matches("1-9", press(KeyCode::Char('0'))));
    assert!(label_matches("F3", press(KeyCode::F(11))));
    assert!(label_matches("PageDown", press(KeyCode::PageDown)));
    assert!(!label_matches("f i", press(KeyCode::Char('f'))));
    let ctrl_d = keymap::Key {
        ctrl: true,
        ..press(KeyCode::Char('d'))
    };
    assert!(label_matches("Ctrl-d", ctrl_d));
    assert!(!label_matches("d", ctrl_d));
    assert!(!label_matches("Ctrl-d", press(KeyCode::Char('d'))));
    let alt_x = keymap::Key {
        alt: true,
        ..press(KeyCode::Char('x'))
    };
    assert!(label_matches("Alt-x", alt_x));
    assert!(!label_matches("Alt-x", press(KeyCode::Other)));
}

#[test]
fn every_named_key_matches_its_name() {
    for (name, code) in [
        ("Backspace", KeyCode::Backspace),
        ("Enter", KeyCode::Enter),
        ("Left", KeyCode::Left),
        ("Right", KeyCode::Right),
        ("Up", KeyCode::Up),
        ("Down", KeyCode::Down),
        ("Home", KeyCode::Home),
        ("End", KeyCode::End),
        ("PageUp", KeyCode::PageUp),
        ("PageDown", KeyCode::PageDown),
        ("Tab", KeyCode::Tab),
        ("BackTab", KeyCode::BackTab),
        ("Delete", KeyCode::Delete),
        ("Insert", KeyCode::Insert),
        ("Esc", KeyCode::Esc),
    ] {
        assert!(label_matches(name, press(code)), "{name}");
        assert!(!label_matches(name, press(KeyCode::Other)), "{name}");
    }
}

#[test]
fn a_range_steps_over_what_is_no_character() {
    let keys = keys_for_label("\u{d7ff}-\u{e000}");
    assert_eq!(keys, [Key::Char('\u{d7ff}'), Key::Char('\u{e000}')]);
    assert!(keys_for_label("b-a").is_empty());
    assert!(keys_for_label("").is_empty());
}

fn entry(keys: &str, action: &'static str) -> Row {
    Row::Entry {
        keys: keys.to_string(),
        action,
    }
}

#[test]
fn columns_are_balanced_and_sized_to_their_rows() {
    let rows = vec![
        Row::Heading("Title"),
        entry("a", "one"),
        entry("b / c", "three"),
        Row::Blank,
        entry("d", "a longer one"),
    ];
    let columns = pack(&rows, 2, 10);
    assert_eq!(columns.len(), 2);
    assert_eq!((columns[0].start, columns[0].len, columns[0].x), (0, 3, 0));
    assert_eq!(columns[0].key_width, 5);
    assert_eq!(columns[0].width, 5 + KEY_GAP + 5);
    assert_eq!((columns[1].start, columns[1].len), (3, 2));
    assert_eq!(columns[1].x, columns[0].width + GUTTER);
    assert_eq!(columns[1].width, 1 + KEY_GAP + 12);
    assert_eq!(total_width(&columns), 12 + 3 + 15);
    assert_eq!(shown(&columns), 5);
}

#[test]
fn a_column_is_no_taller_than_the_area() {
    let rows = vec![entry("a", "one"), entry("b", "two"), entry("c", "three")];
    let columns = pack(&rows, 1, 2);
    assert_eq!(columns.len(), 1);
    assert_eq!(shown(&columns), 2);
    assert!(pack(&Vec::new(), 3, 2).is_empty());
}

#[test]
fn columns_that_do_not_fit_side_by_side_are_fewer() {
    let rows = vec![entry("a", "one"), entry("b", "two"), entry("c", "three")];
    assert_eq!(layout(&rows, inner(40, 1)).len(), 3);
    assert_eq!(layout(&rows, inner(16, 1)).len(), 2);
    assert_eq!(layout(&rows, inner(3, 1)).len(), 1);
    assert_eq!(layout(&rows, inner(3, 0)).len(), 1);
}

#[test]
fn the_texts_of_a_row_stand_side_by_side() {
    let rows = vec![Row::Heading("Title"), entry("a", "one"), entry("b / c", "three")];
    let area = inner(20, 10);
    assert!(can_draw(area, &rows));
    let drawn = draw(area, &rows);
    assert_eq!(
        drawn.panel,
        Area {
            x: 3,
            y: 2,
            width: 14,
            height: 5,
        }
    );
    assert_eq!(drawn.bottom, None);
    let labels: Vec<(u16, u16, &str, usize, Face)> = drawn
        .labels
        .iter()
        .map(|label| (label.x, label.y, label.text.as_str(), label.room, label.face))
        .collect();
    assert_eq!(
        labels,
        [
            (4, 3, "Title", 12, Face::Heading),
            (4, 4, "a", 12, Face::Keys),
            (11, 4, "one", 5, Face::Action),
            (4, 5, "b / c", 12, Face::Keys),
            (11, 5, "three", 5, Face::Action),
        ]
    );
}

#[test]
fn what_is_cut_off_is_counted() {
    let drawn = overlay(inner(40, 7), &Keymap::default());
    assert_eq!(
        drawn.bottom.as_deref(),
        Some(" 83 more rows — see the README ")
    );
}

#[test]
fn a_panel_off_the_screen_cannot_be_drawn() {
    let rows = vec![entry("a", "one")];
    let area = Area {
        x: u16::MAX,
        y: 0,
        width: 40,
        height: 10,
    };
    assert!(!can_draw(area, &rows));
    assert!(can_draw(inner(40, 10), &rows));
}

#[test]
fn an_empty_panel_is_its_border() {
    assert_eq!(
        panel(inner(10, 10), &Vec::new()),
        Area {
            x: 4,
            y: 4,
            width: 2,
            height: 2,
        }
    );
}

#[test]
fn headings_and_keys_stand_out() {
    assert_eq!(Face::Heading.colour(), Some(Color::Green));
    assert!(Face::Heading.is_bold());
    assert_eq!(Face::Keys.colour(), Some(Color::Yellow));
    assert!(!Face::Keys.is_bold());
    assert_eq!(Face::Action.colour(), None);
    assert!(!Face::Action.is_bold());
}
