use painter::serial;
use painter::{Color, Theme};

/// Parses a CSS color string into the crate's concrete color, scaling the
/// channels the way a loader would.
fn css(s: &str) -> Color {
    let srgb: css_color::Srgb = s.parse().unwrap();
    let r = (srgb.red * 255.).round().clamp(0., 255.) as u8;
    let g = (srgb.green * 255.).round().clamp(0., 255.) as u8;
    let b = (srgb.blue * 255.).round().clamp(0., 255.) as u8;
    Color(r, g, b, srgb.alpha.to_bits())
}

fn defined(bg: &str, text: &str, border: &str) -> serial::ButtonComponent {
    serial::ButtonComponent::Defined(serial::ButtonState {
        background: bg.to_string(),
        text: text.to_string(),
        border: border.to_string(),
    })
}

/// A theme with two buttons sharing their background color through two
/// differently named but equal color entries.
fn shared_color_theme() -> serial::Theme {
    let mut s = serial::Theme::new();
    s.name = "shared".to_string();
    s.description = "two buttons, one background".to_string();
    s.color.insert("red_a".to_string(), css("rgba(255, 0, 0, 1)"));
    s.color.insert("red_b".to_string(), css("rgba(255, 0, 0, 1)"));
    s.color.insert("ink".to_string(), css("#222222"));
    s.border.insert(
        "thin".to_string(),
        serial::Border {
            color: "ink".to_string(),
            radius: 1.0f32.to_bits(),
            width: 0.5f32.to_bits(),
        },
    );
    s.application.background_color = "red_a".to_string();
    s.application.text_color = "ink".to_string();
    s.button.insert(
        "first".to_string(),
        serial::Button {
            active: defined("red_a", "ink", "thin"),
            hovered: serial::ButtonComponent::Absent,
            pressed: serial::ButtonComponent::Absent,
            disabled: serial::ButtonComponent::Absent,
        },
    );
    s.button.insert(
        "second".to_string(),
        serial::Button {
            active: defined("red_b", "ink", "thin"),
            hovered: serial::ButtonComponent::Inherited("first".to_string()),
            pressed: serial::ButtonComponent::Absent,
            disabled: serial::ButtonComponent::Absent,
        },
    );
    s
}

fn button_slot_state(c: &serial::ButtonComponent) -> &serial::ButtonState {
    match c {
        serial::ButtonComponent::Defined(d) => d,
        _ => panic!("canonical slots are always literal"),
    }
}

#[test]
fn canonical_output_deduplicates_colors() {
    let t = Theme::parse(&shared_color_theme()).unwrap();
    let c = t.canonicalize();
    // Exactly one color table entry holds the shared background value.
    let red = css("rgba(255, 0, 0, 1)");
    let mut holders: Vec<String> = Vec::new();
    for i in 0..c.color.len() {
        if *c.color.val_at(i) == red {
            holders.push(c.color.key_at(i).clone());
        }
    }
    assert_eq!(holders.len(), 1);
    // Both buttons' literal slots reference that one entry by name.
    let first = c.button.get(&"first".to_string()).unwrap();
    let second = c.button.get(&"second".to_string()).unwrap();
    assert_eq!(button_slot_state(&first.active).background, holders[0]);
    assert_eq!(button_slot_state(&second.active).background, holders[0]);
}

#[test]
fn canonical_names_are_synthetic_and_ordered() {
    let t = Theme::parse(&shared_color_theme()).unwrap();
    let c = t.canonicalize();
    for i in 0..c.color.len() {
        assert_eq!(*c.color.key_at(i), format!("color_{}", i));
    }
    for i in 0..c.border.len() {
        assert_eq!(*c.border.key_at(i), format!("border_{}", i));
    }
}

#[test]
fn canonical_output_drops_unused_values() {
    let mut s = shared_color_theme();
    s.color.insert("never_used".to_string(), css("#123456"));
    let t = Theme::parse(&s).unwrap();
    let c = t.canonicalize();
    let unused = css("#123456");
    for i in 0..c.color.len() {
        assert_ne!(*c.color.val_at(i), unused);
    }
}

#[test]
fn round_trip_preserves_style_values() {
    let t = Theme::parse(&shared_color_theme()).unwrap();
    let c = t.canonicalize();
    let t2 = Theme::parse(&c).expect("a canonical theme always resolves");
    assert_eq!(t2.name, t.name);
    assert_eq!(t2.application.background_color, t.application.background_color);
    assert_eq!(t2.application.text_color, t.application.text_color);
    for name in ["first", "second"] {
        let a = t.get_button(&name.to_string()).unwrap();
        let b = t2.get_button(&name.to_string()).unwrap();
        for i in 0..4 {
            assert_eq!(a.state[i], b.state[i]);
        }
    }
}

#[test]
fn round_trip_is_idempotent_on_canonical_form() {
    // Canonicalizing the round-tripped theme reproduces the same
    // declarative document: same names bound to the same values.
    let t = Theme::parse(&shared_color_theme()).unwrap();
    let c = t.canonicalize();
    let t2 = Theme::parse(&c).unwrap();
    let c2 = t2.canonicalize();
    assert_eq!(c.color.len(), c2.color.len());
    for i in 0..c.color.len() {
        assert_eq!(c.color.key_at(i), c2.color.key_at(i));
        assert_eq!(c.color.val_at(i), c2.color.val_at(i));
    }
    assert_eq!(c.border.len(), c2.border.len());
    for i in 0..c.border.len() {
        assert_eq!(c.border.key_at(i), c2.border.key_at(i));
        let a = c.border.val_at(i);
        let b = c2.border.val_at(i);
        assert_eq!(a.color, b.color);
        assert_eq!(a.radius, b.radius);
        assert_eq!(a.width, b.width);
    }
}

#[test]
fn synthetic_names_pass_ten_entries() {
    // Enough distinct colors that minted names need two decimal digits.
    let mut s = serial::Theme::new();
    s.name = "many".to_string();
    s.description = "twelve colors".to_string();
    for i in 0..12u8 {
        s.color.insert(format!("c{}", i), Color(i, 2 * i, 255 - i, 1.0f32.to_bits()));
        s.tooltip.insert(
            format!("t{}", i),
            serial::Tooltip {
                background: format!("c{}", i),
                text: format!("c{}", i),
                border: "thin".to_string(),
            },
        );
    }
    s.border.insert(
        "thin".to_string(),
        serial::Border {
            color: "c0".to_string(),
            radius: 0.0f32.to_bits(),
            width: 1.0f32.to_bits(),
        },
    );
    s.application.background_color = "c0".to_string();
    s.application.text_color = "c1".to_string();
    let t = Theme::parse(&s).unwrap();
    let c = t.canonicalize();
    assert_eq!(c.color.len(), 12);
    assert_eq!(*c.color.key_at(9), "color_9");
    assert_eq!(*c.color.key_at(10), "color_10");
    assert_eq!(*c.color.key_at(11), "color_11");
    // The round trip still reproduces every tooltip.
    let t2 = Theme::parse(&c).unwrap();
    for i in 0..12u8 {
        let name = format!("t{}", i);
        let a = t.tooltip.get(&name).unwrap();
        let b = t2.tooltip.get(&name).unwrap();
        assert_eq!(a, b);
    }
}

#[test]
fn canonicalize_empty_theme_interns_application_colors() {
    let t = Theme::new();
    let c = t.canonicalize();
    // Both application colors are opaque black, interned once.
    assert_eq!(c.color.len(), 1);
    assert_eq!(*c.color.key_at(0), "color_0");
    assert_eq!(c.application.background_color, "color_0");
    assert_eq!(c.application.text_color, "color_0");
    assert_eq!(c.border.len(), 0);
}
