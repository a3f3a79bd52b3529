use tuxflow::ui::accent::{
    accent_colors, color_choices, color_index, color_name, css_for, status_colors, Accents,
    AppearanceSettings,
};

/// Relative luminance / WCAG contrast, so the palette's readability is
/// asserted rather than eyeballed.
fn luminance(hex: &str) -> f64 {
    let h = hex.trim_start_matches('#');
    let chan = |i: usize| {
        let v = u8::from_str_radix(&h[i..i + 2], 16).expect("hex pair") as f64 / 255.0;
        if v <= 0.03928 {
            v / 12.92
        } else {
            ((v + 0.055) / 1.055).powf(2.4)
        }
    };
    0.2126 * chan(0) + 0.7152 * chan(2) + 0.0722 * chan(4)
}

fn contrast(a: &str, b: &str) -> f64 {
    let (x, y) = (luminance(a), luminance(b));
    let (hi, lo) = if x > y { (x, y) } else { (y, x) };
    (hi + 0.05) / (lo + 0.05)
}

/// The surface these are read against.
const LIGHT_SIDEBAR: &str = "#ebebeb";
const DARK_SIDEBAR: &str = "#303030";
/// Text-sized UI needs 4.5:1; allow a hair under for the derived hues.
const MIN_CONTRAST: f64 = 4.0;
/// A status dot is a graphic, not text — WCAG asks 3:1 of it.
const MIN_DOT_CONTRAST: f64 = 3.0;

#[test]
fn every_accent_is_readable_in_both_schemes() {
    for c in accent_colors() {
        let dark = contrast(c.accent, DARK_SIDEBAR);
        let light = contrast(c.accent_light, LIGHT_SIDEBAR);
        assert!(
            dark >= MIN_CONTRAST,
            "{} dark accent {} is {dark:.2}:1 on {DARK_SIDEBAR}",
            c.name,
            c.accent
        );
        assert!(
            light >= MIN_CONTRAST,
            "{} light accent {} is {light:.2}:1 on {LIGHT_SIDEBAR}",
            c.name,
            c.accent_light
        );
    }
}

#[test]
fn status_dots_are_visible_in_both_schemes() {
    for (name, dark_hex, light_hex) in status_colors() {
        let dark = contrast(dark_hex, DARK_SIDEBAR);
        let light = contrast(light_hex, LIGHT_SIDEBAR);
        assert!(
            dark >= MIN_DOT_CONTRAST,
            "{name} dark {dark_hex} is {dark:.2}:1 on {DARK_SIDEBAR}"
        );
        assert!(
            light >= MIN_DOT_CONTRAST,
            "{name} light {light_hex} is {light:.2}:1 on {LIGHT_SIDEBAR}"
        );
    }
}

fn accents(app: &str, local: &str, remote: &str) -> Accents {
    Accents {
        app: app.to_string(),
        local: local.to_string(),
        remote: remote.to_string(),
    }
}

#[test]
fn css_switches_with_the_scheme() {
    let a = accents("green", "green", "yellow");
    let dark = css_for(&a, true);
    let light = css_for(&a, false);
    assert!(dark.contains("@define-color accent_color #73c991;"));
    assert!(light.contains("@define-color accent_color #1a7f37;"));
    assert!(dark.contains("remote_accent #ffce5c;"));
    assert!(light.contains("remote_accent #9a6700;"));
    assert!(dark.contains("status_working #e0a030;"));
    assert!(light.contains("status_working #b06a00;"));
    // The filled-button pair is scheme-independent by design.
    assert!(dark.contains("accent_bg_color #2ea043;"));
    assert!(light.contains("accent_bg_color #2ea043;"));
}

#[test]
fn defaults_keep_the_sidebar_identity_colors() {
    let d = AppearanceSettings::default();
    let css = css_for(
        &accents(
            &d.accent_color,
            &d.local_accent_color,
            &d.remote_accent_color,
        ),
        true,
    );
    assert!(css.contains("@define-color local_accent #73c991;"));
    assert!(css.contains("@define-color remote_accent #ffce5c;"));
}

#[test]
fn sidebar_accents_are_independent() {
    let css = css_for(&accents("blue", "purple", "red"), true);
    assert!(css.contains("@define-color local_accent #bd83d0;"));
    assert!(css.contains("@define-color remote_accent #ee7379;"));
    assert!(css.contains("@define-color accent_color #5d9de9;"));
}

#[test]
fn unknown_names_fall_back_to_the_defaults() {
    let css = css_for(&accents("chartreuse", "chartreuse", "chartreuse"), false);
    assert!(css.contains("@define-color local_accent #1a7f37;"));
    assert!(css.contains("@define-color remote_accent #9a6700;"));
    assert!(!css.contains("accent_color"));
}

#[test]
fn color_index_and_name_round_trip() {
    let choices = color_choices();
    assert_eq!(choices.len(), 9);
    assert_eq!(choices[0], "Green");
    assert_eq!(choices[8], "Slate");
    for i in 0..9u32 {
        assert_eq!(color_index(color_name(i)), i);
    }
}

#[test]
fn unknown_color_index_and_name_fall_back_to_green() {
    assert_eq!(color_index("chartreuse"), 0);
    assert_eq!(color_name(99), "green");
    assert_eq!(color_index("blue"), 1);
    assert_eq!(color_name(8), "slate");
}

#[test]
fn appearance_defaults_choose_green_and_gold() {
    let d = AppearanceSettings::default();
    let a = d.accents();
    assert_eq!(a.app, "green");
    assert_eq!(a.local, "green");
    assert_eq!(a.remote, "yellow");
}

#[test]
fn css_lists_sidebar_then_status_then_app() {
    let css = css_for(&accents("green", "green", "yellow"), true);
    let expected = "@define-color local_accent #73c991;\n\
@define-color remote_accent #ffce5c;\n\
@define-color status_working #e0a030;\n\
@define-color status_restarting #cca700;\n\
@define-color accent_bg_color #2ea043;\n\
@define-color accent_fg_color #ffffff;\n\
@define-color accent_color #73c991;";
    assert_eq!(css, expected);
}
