use painter::serial;
use painter::{Color, Error, Theme};

/// Parses a CSS color string into the crate's concrete color, scaling the
/// channels the way a loader would.
fn color(s: &str) -> Color {
    let srgb: css_color::Srgb = s.parse().unwrap();
    let r = (srgb.red * 255.).round().clamp(0., 255.) as u8;
    let g = (srgb.green * 255.).round().clamp(0., 255.) as u8;
    let b = (srgb.blue * 255.).round().clamp(0., 255.) as u8;
    Color(r, g, b, srgb.alpha.to_bits())
}

/// A declarative theme with two colors, one border and a valid
/// application style.
fn base_theme() -> serial::Theme {
    let mut s = serial::Theme::new();
    s.name = "base".to_string();
    s.description = "a theme for the tests".to_string();
    s.color.insert("c1".to_string(), color("rgba(255, 0, 0, 1)"));
    s.color.insert("c2".to_string(), color("#00ff00"));
    s.border.insert(
        "b1".to_string(),
        serial::Border {
            color: "c1".to_string(),
            radius: 2.0f32.to_bits(),
            width: 1.0f32.to_bits(),
        },
    );
    s.application.background_color = "c1".to_string();
    s.application.text_color = "c2".to_string();
    s
}

fn defined_button_state(bg: &str, text: &str, border: &str) -> serial::ButtonComponent {
    serial::ButtonComponent::Defined(serial::ButtonState {
        background: bg.to_string(),
        text: text.to_string(),
        border: border.to_string(),
    })
}

#[test]
fn color_parsing_matches_channels() {
    assert_eq!(color("rgba(255, 0, 0, 1)"), Color(255, 0, 0, 1.0f32.to_bits()));
    assert_eq!(color("#00ff00"), Color(0, 255, 0, 1.0f32.to_bits()));
    // A keyword color, and alpha defaulting to fully opaque.
    assert_eq!(color("red"), Color(255, 0, 0, 1.0f32.to_bits()));
}

#[test]
fn border_resolves_to_table_color_verbatim() {
    let s = base_theme();
    let t = Theme::parse(&s).unwrap();
    let b = t.border.get(&"b1".to_string()).unwrap();
    assert_eq!(b.color, color("rgba(255, 0, 0, 1)"));
    assert_eq!(f32::from_bits(b.radius), 2.0);
    assert_eq!(f32::from_bits(b.width), 1.0);
}

#[test]
fn panel_scenario_resolves_color_and_border() {
    let mut s = base_theme();
    s.container.insert(
        "panel".to_string(),
        serial::Container { color: "c1".to_string(), border: "b1".to_string() },
    );
    let t = Theme::parse(&s).unwrap();
    let panel = t.get_container(&"panel".to_string()).unwrap();
    assert_eq!(panel.color, Color(255, 0, 0, 1.0f32.to_bits()));
    assert_eq!(f32::from_bits(panel.border.radius), 2.0);
    assert_eq!(f32::from_bits(panel.border.width), 1.0);
    assert_eq!(panel.border.color, panel.color);
}

#[test]
fn button_default_fill_from_first_defined_state() {
    let mut s = base_theme();
    s.button.insert(
        "button1".to_string(),
        serial::Button {
            active: defined_button_state("c1", "c1", "b1"),
            hovered: serial::ButtonComponent::Absent,
            pressed: serial::ButtonComponent::Absent,
            disabled: serial::ButtonComponent::Absent,
        },
    );
    let t = Theme::parse(&s).unwrap();
    let b = t.get_button(&"button1".to_string()).unwrap();
    assert_eq!(b.state[0].background, color("rgba(255, 0, 0, 1)"));
    assert_eq!(b.state[0].text, color("rgba(255, 0, 0, 1)"));
    assert_eq!(f32::from_bits(b.state[0].border.radius), 2.0);
    for i in 1..4 {
        assert_eq!(b.state[i], b.state[0]);
    }
}

#[test]
fn all_absent_fails_with_no_defined_state() {
    let mut s = base_theme();
    s.button.insert(
        "button1".to_string(),
        serial::Button {
            active: serial::ButtonComponent::Absent,
            hovered: serial::ButtonComponent::Absent,
            pressed: serial::ButtonComponent::Absent,
            disabled: serial::ButtonComponent::Absent,
        },
    );
    let e = Theme::parse(&s).unwrap_err();
    assert!(matches!(&e, Error::NoDefinedState { entry } if entry == "button1"));
    assert_eq!(e.kind(), "no defined state");
    assert_eq!(e.name(), "button1");
}

fn theme_with_inheriting_pair(x_first: bool) -> serial::Theme {
    let mut s = base_theme();
    let x = serial::Button {
        active: serial::ButtonComponent::Inherited("y".to_string()),
        hovered: serial::ButtonComponent::Absent,
        pressed: serial::ButtonComponent::Absent,
        disabled: serial::ButtonComponent::Absent,
    };
    let y = serial::Button {
        active: defined_button_state("c1", "c2", "b1"),
        hovered: defined_button_state("c2", "c1", "b1"),
        pressed: defined_button_state("c1", "c1", "b1"),
        disabled: defined_button_state("c2", "c2", "b1"),
    };
    if x_first {
        s.button.insert("x".to_string(), x);
        s.button.insert("y".to_string(), y);
    } else {
        s.button.insert("y".to_string(), y);
        s.button.insert("x".to_string(), x);
    }
    s
}

#[test]
fn inherited_slot_is_order_independent() {
    // The same pair of entries, inserted in both orders: the entry with a
    // forward reference resolves on a later pass, to the same value.
    let t1 = Theme::parse(&theme_with_inheriting_pair(true)).unwrap();
    let t2 = Theme::parse(&theme_with_inheriting_pair(false)).unwrap();
    let x1 = t1.get_button(&"x".to_string()).unwrap();
    let x2 = t2.get_button(&"x".to_string()).unwrap();
    let y1 = t1.get_button(&"y".to_string()).unwrap();
    assert_eq!(x1.state[0], y1.state[0]);
    assert_eq!(x1.state[0], x2.state[0]);
    assert_eq!(x1.state[0].background, color("rgba(255, 0, 0, 1)"));
    assert_eq!(x1.state[0].text, color("#00ff00"));
}

#[test]
fn inheritance_cycle_fails_with_unresolvable_cycle() {
    let mut s = base_theme();
    let inherit = |n: &str| serial::ButtonComponent::Inherited(n.to_string());
    s.button.insert(
        "x".to_string(),
        serial::Button {
            active: inherit("y"),
            hovered: inherit("y"),
            pressed: inherit("y"),
            disabled: inherit("y"),
        },
    );
    s.button.insert(
        "y".to_string(),
        serial::Button {
            active: inherit("x"),
            hovered: inherit("x"),
            pressed: inherit("x"),
            disabled: inherit("x"),
        },
    );
    let e = Theme::parse(&s).unwrap_err();
    assert!(matches!(&e, Error::UnresolvableCycle { .. }));
    assert_eq!(e.kind(), "unresolvable cycle");
}

#[test]
fn dangling_color_reference_fails() {
    let mut s = base_theme();
    s.border.insert(
        "bad".to_string(),
        serial::Border {
            color: "no_such_color".to_string(),
            radius: 0.0f32.to_bits(),
            width: 0.0f32.to_bits(),
        },
    );
    let e = Theme::parse(&s).unwrap_err();
    assert!(matches!(&e, Error::UnknownReference { name } if name == "no_such_color"));
}

#[test]
fn dangling_peer_reference_fails() {
    let mut s = base_theme();
    s.button.insert(
        "x".to_string(),
        serial::Button {
            active: serial::ButtonComponent::Inherited("no_such_button".to_string()),
            hovered: serial::ButtonComponent::Absent,
            pressed: serial::ButtonComponent::Absent,
            disabled: serial::ButtonComponent::Absent,
        },
    );
    let e = Theme::parse(&s).unwrap_err();
    assert!(matches!(&e, Error::UnknownReference { name } if name == "no_such_button"));
}

#[test]
fn empty_theme_fails_on_application_colors() {
    let s = serial::Theme::new();
    let e = Theme::parse(&s).unwrap_err();
    assert!(matches!(&e, Error::UnknownReference { .. }));
}

#[test]
fn malformed_value_is_the_loaders_error() {
    // An unparseable color string never reaches the resolver; loaders map
    // such failures to this variant.
    assert!("not a color".parse::<css_color::Srgb>().is_err());
    let e = Error::MalformedValue { value: "not a color".to_string() };
    assert_eq!(e.kind(), "malformed value");
    assert_eq!(e.name(), "not a color");
}

#[test]
fn every_kind_resolves_together() {
    let mut s = base_theme();
    s.container.insert(
        "cont".to_string(),
        serial::Container { color: "c1".to_string(), border: "b1".to_string() },
    );
    s.tooltip.insert(
        "tip".to_string(),
        serial::Tooltip {
            background: "c1".to_string(),
            text: "c2".to_string(),
            border: "b1".to_string(),
        },
    );
    s.progressbar.insert(
        "prog".to_string(),
        serial::ProgressBar {
            background: "c1".to_string(),
            bar: "c2".to_string(),
            radius: 3.5f32.to_bits(),
        },
    );
    s.button.insert(
        "btn".to_string(),
        serial::Button {
            active: defined_button_state("c1", "c2", "b1"),
            hovered: serial::ButtonComponent::Absent,
            pressed: serial::ButtonComponent::Absent,
            disabled: serial::ButtonComponent::Absent,
        },
    );
    s.panegrid.insert(
        "grid".to_string(),
        serial::PaneGrid {
            picked: serial::PaneGridComponent::Inherited("plain".to_string()),
            hovered: serial::PaneGridComponent::Defined(serial::PaneGridState {
                color: "c1".to_string(),
                width: 2.0f32.to_bits(),
            }),
        },
    );
    s.panegrid.insert(
        "plain".to_string(),
        serial::PaneGrid {
            picked: serial::PaneGridComponent::Defined(serial::PaneGridState {
                color: "c2".to_string(),
                width: 4.0f32.to_bits(),
            }),
            hovered: serial::PaneGridComponent::Absent,
        },
    );
    s.picklist.insert(
        "pick".to_string(),
        serial::Picklist {
            active: serial::PicklistStateComponent::Defined(serial::PicklistState {
                background: "c1".to_string(),
                text: "c2".to_string(),
                placeholder: "c2".to_string(),
                border: "b1".to_string(),
                handle: "c1".to_string(),
            }),
            hovered: serial::PicklistStateComponent::Absent,
            menu: serial::PicklistMenuComponent::Defined(serial::PicklistMenu {
                background: "c1".to_string(),
                text: "c2".to_string(),
                border: "b1".to_string(),
                sbackground: "c2".to_string(),
                stext: "c1".to_string(),
            }),
        },
    );
    s.scrollable.insert(
        "scroll".to_string(),
        serial::Scrollable {
            active: serial::ScrollableComponent::Defined(serial::ScrollableState {
                color: "c1".to_string(),
                border: "b1".to_string(),
                scolor: "c2".to_string(),
                sborder: "b1".to_string(),
            }),
            hovered: serial::ScrollableComponent::Absent,
            dragging: serial::ScrollableComponent::Absent,
        },
    );
    s.textinput.insert(
        "input".to_string(),
        serial::TextInput {
            active: serial::TextInputComponent::Defined(serial::TextInputState {
                background: "c1".to_string(),
                border: "b1".to_string(),
            }),
            hovered: serial::TextInputComponent::Absent,
            focused: serial::TextInputComponent::Absent,
            placeholder: "c2".to_string(),
            value: "c1".to_string(),
            selection: "c2".to_string(),
        },
    );
    let t = Theme::parse(&s).unwrap();
    let red = color("rgba(255, 0, 0, 1)");
    let green = color("#00ff00");
    assert_eq!(t.application.background_color, red);
    assert_eq!(t.application.text_color, green);
    let tip = t.tooltip.get(&"tip".to_string()).unwrap();
    assert_eq!(tip.background, red);
    assert_eq!(tip.text, green);
    let prog = t.get_progressbar(&"prog".to_string()).unwrap();
    assert_eq!(prog.bar, green);
    assert_eq!(f32::from_bits(prog.radius), 3.5);
    let grid = t.get_panegrid(&"grid".to_string()).unwrap();
    // The picked slot inherits the like slot of `plain`, defined later in
    // the table, so it resolves on the second pass over the table.
    assert_eq!(grid.state[0].color, green);
    assert_eq!(f32::from_bits(grid.state[0].width), 4.0);
    assert_eq!(grid.state[1].color, red);
    let pick = t.picklist.get(&"pick".to_string()).unwrap();
    assert_eq!(pick.state[1], pick.state[0]);
    assert_eq!(pick.menu.sbackground, green);
    let scroll = t.get_scrollable(&"scroll".to_string()).unwrap();
    assert_eq!(scroll.state[0].scolor, green);
    assert_eq!(scroll.state[1], scroll.state[0]);
    assert_eq!(scroll.state[2], scroll.state[0]);
    let input = t.get_textinput(&"input".to_string()).unwrap();
    assert_eq!(input.colors[0], green);
    assert_eq!(input.colors[1], red);
    assert_eq!(input.state[2], input.state[0]);
}

#[test]
fn getters_return_none_for_missing_names() {
    let s = base_theme();
    let t = Theme::parse(&s).unwrap();
    assert!(t.get_button(&"nope".to_string()).is_none());
    assert!(t.get_container(&"nope".to_string()).is_none());
    assert!(t.get_panegrid(&"nope".to_string()).is_none());
    assert!(t.get_progressbar(&"nope".to_string()).is_none());
    assert!(t.get_scrollable(&"nope".to_string()).is_none());
    assert!(t.get_textinput(&"nope".to_string()).is_none());
}

#[test]
fn new_theme_is_empty() {
    let t = Theme::new();
    assert_eq!(t.name, "");
    assert_eq!(t.color.len(), 0);
    assert_eq!(t.button.len(), 0);
}

#[test]
fn table_insert_and_lookup() {
    let mut t: painter::Table<Color> = painter::Table::new();
    assert_eq!(t.len(), 0);
    assert!(!t.contains(&"a".to_string()));
    t.insert("a".to_string(), Color(1, 2, 3, 0));
    t.insert("b".to_string(), Color(4, 5, 6, 0));
    assert_eq!(t.len(), 2);
    assert_eq!(*t.get(&"a".to_string()).unwrap(), Color(1, 2, 3, 0));
    // Re-binding a name replaces the value and keeps the insertion order.
    t.insert("a".to_string(), Color(9, 9, 9, 0));
    assert_eq!(t.len(), 2);
    assert_eq!(*t.get(&"a".to_string()).unwrap(), Color(9, 9, 9, 0));
    assert_eq!(t.key_at(0), "a");
    assert_eq!(t.key_at(1), "b");
    assert_eq!(*t.val_at(1), Color(4, 5, 6, 0));
}
