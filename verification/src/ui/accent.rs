//! The accent palette: the app-wide accent and the two sidebar hues that
//! tell local and remote projects apart, as GTK colour definitions for the
//! dark and the light scheme.
use vstd::prelude::*;
use crate::text::{append_chars, chars_eq, chars_of, string_of};

verus! {

broadcast use vstd::string::group_string_axioms;

/// One palette entry.
pub struct AccentColor {
    pub name: &'static str,
    pub label: &'static str,
    pub bg: &'static str,
    pub fg: &'static str,
    /// Text-weight accent, used against dark surfaces; doubles as the
    /// sidebar hue for local/remote projects.
    pub accent: &'static str,
    /// Same hue darkened for light surfaces.
    pub accent_light: &'static str,
}

/// An [`AccentColor`] as a mathematical value.
pub struct AccentSpec {
    pub name: Seq<char>,
    pub label: Seq<char>,
    pub bg: Seq<char>,
    pub fg: Seq<char>,
    pub accent: Seq<char>,
    pub accent_light: Seq<char>,
}

impl View for AccentColor {
    type V = AccentSpec;

    open spec fn view(&self) -> AccentSpec {
        AccentSpec {
            name: self.name@,
            label: self.label@,
            bg: self.bg@,
            fg: self.fg@,
            accent: self.accent@,
            accent_light: self.accent_light@,
        }
    }
}

/// The palette, in the order the settings show it.
pub open spec fn palette() -> Seq<AccentSpec> {
    seq![
        AccentSpec {
            name: "green"@,
            label: "Green"@,
            bg: "#2ea043"@,
            fg: "#ffffff"@,
            accent: "#73c991"@,
            accent_light: "#1a7f37"@,
        },
        AccentSpec {
            name: "blue"@,
            label: "Blue"@,
            bg: "#3584e4"@,
            fg: "#ffffff"@,
            accent: "#5d9de9"@,
            accent_light: "#1c6dcf"@,
        },
        AccentSpec {
            name: "purple"@,
            label: "Purple"@,
            bg: "#9141ac"@,
            fg: "#ffffff"@,
            accent: "#bd83d0"@,
            accent_light: "#9141ac"@,
        },
        AccentSpec {
            name: "teal"@,
            label: "Teal"@,
            bg: "#2190a4"@,
            fg: "#ffffff"@,
            accent: "#27a8c0"@,
            accent_light: "#1b7888"@,
        },
        AccentSpec {
            name: "orange"@,
            label: "Orange"@,
            bg: "#e66100"@,
            fg: "#ffffff"@,
            accent: "#ff6c00"@,
            accent_light: "#b84e00"@,
        },
        AccentSpec {
            name: "red"@,
            label: "Red"@,
            bg: "#e01b24"@,
            fg: "#ffffff"@,
            accent: "#ee7379"@,
            accent_light: "#db1a23"@,
        },
        AccentSpec {
            name: "pink"@,
            label: "Pink"@,
            bg: "#d56199"@,
            fg: "#ffffff"@,
            accent: "#db79a9"@,
            accent_light: "#c5347a"@,
        },
        AccentSpec {
            name: "yellow"@,
            label: "Yellow"@,
            bg: "#c88800"@,
            fg: "#ffffff"@,
            accent: "#ffce5c"@,
            accent_light: "#9a6700"@,
        },
        AccentSpec {
            name: "slate"@,
            label: "Slate"@,
            bg: "#6e8898"@,
            fg: "#ffffff"@,
            accent: "#869ca9"@,
            accent_light: "#5b7280"@,
        },
    ]
}

/// The accent palette.
pub fn accent_colors() -> (r: Vec<AccentColor>)
    ensures
        r@.map_values(|c: AccentColor| c@) == palette(),
{
    let r = vec![
        AccentColor {
            name: "green",
            label: "Green",
            bg: "#2ea043",
            fg: "#ffffff",
            accent: "#73c991",
            accent_light: "#1a7f37",
        },
        AccentColor {
            name: "blue",
            label: "Blue",
            bg: "#3584e4",
            fg: "#ffffff",
            accent: "#5d9de9",
            accent_light: "#1c6dcf",
        },
        AccentColor {
            name: "purple",
            label: "Purple",
            bg: "#9141ac",
            fg: "#ffffff",
            accent: "#bd83d0",
            accent_light: "#9141ac",
        },
        AccentColor {
            name: "teal",
            label: "Teal",
            bg: "#2190a4",
            fg: "#ffffff",
            accent: "#27a8c0",
            accent_light: "#1b7888",
        },
        AccentColor {
            name: "orange",
            label: "Orange",
            bg: "#e66100",
            fg: "#ffffff",
            accent: "#ff6c00",
            accent_light: "#b84e00",
        },
        AccentColor {
            name: "red",
            label: "Red",
            bg: "#e01b24",
            fg: "#ffffff",
            accent: "#ee7379",
            accent_light: "#db1a23",
        },
        AccentColor {
            name: "pink",
            label: "Pink",
            bg: "#d56199",
            fg: "#ffffff",
            accent: "#db79a9",
            accent_light: "#c5347a",
        },
        AccentColor {
            name: "yellow",
            label: "Yellow",
            bg: "#c88800",
            fg: "#ffffff",
            accent: "#ffce5c",
            accent_light: "#9a6700",
        },
        AccentColor {
            name: "slate",
            label: "Slate",
            bg: "#6e8898",
            fg: "#ffffff",
            accent: "#869ca9",
            accent_light: "#5b7280",
        },
    ];
    assert(r@.map_values(|c: AccentColor| c@) =~= palette());
    r
}

/// Palette name used when a settings file omits or misspells the local hue.
pub open spec fn fallback_local() -> Seq<char> {
    "green"@
}

/// Palette name used when a settings file omits or misspells the remote hue.
pub open spec fn fallback_remote() -> Seq<char> {
    "yellow"@
}

/// Status-dot hues with a fixed meaning, as (name, dark, light).
pub open spec fn status_colors_spec() -> Seq<(Seq<char>, Seq<char>, Seq<char>)> {
    seq![
        ("status_working"@, "#e0a030"@, "#b06a00"@),
        ("status_restarting"@, "#cca700"@, "#8a6f00"@),
    ]
}

/// The fixed status-dot hues, as (name, dark, light).
pub fn status_colors() -> (r: Vec<(&'static str, &'static str, &'static str)>)
    ensures
        r@.len() == status_colors_spec().len(),
        forall|i: int|
            0 <= i < r@.len() ==> (r@[i].0@, r@[i].1@, r@[i].2@) == #[trigger] status_colors_spec()[i],
{
    let r = vec![
        ("status_working", "#e0a030", "#b06a00"),
        ("status_restarting", "#cca700", "#8a6f00"),
    ];
    r
}

/// Position of the first palette entry named `name`.
pub open spec fn find_name(p: Seq<AccentSpec>, name: Seq<char>) -> Option<int>
    decreases p.len(),
{
    if p.len() == 0 {
        None
    } else if p[0].name == name {
        Some(0)
    } else {
        match find_name(p.drop_first(), name) {
            Some(i) => Some(i + 1),
            None => None,
        }
    }
}

proof fn lemma_find_name(p: Seq<AccentSpec>, name: Seq<char>, k: int)
    requires
        0 <= k <= p.len(),
        forall|j: int| 0 <= j < k ==> (#[trigger] p[j]).name != name,
    ensures
        k < p.len() && p[k].name == name ==> find_name(p, name) == Some(k),
        k == p.len() ==> find_name(p, name) is None,
    decreases k,
{
    if k > 0 {
        assert forall|j: int| 0 <= j < k - 1 implies (#[trigger] p.drop_first()[j]).name != name by {
            assert(p.drop_first()[j] == p[j + 1]);
        }
        lemma_find_name(p.drop_first(), name, k - 1);
    }
}

/// Position of `name` in the accent palette.
fn palette_position(colors: &Vec<AccentColor>, name: &[char]) -> (r: Option<usize>)
    requires
        colors@.map_values(|c: AccentColor| c@) == palette(),
    ensures
        match r {
            Some(i) => find_name(palette(), name@) == Some(i as int) && i < colors@.len(),
            None => find_name(palette(), name@) is None,
        },
{
    let ghost p = palette();
    let mut i: usize = 0;
    while i < colors.len()
        invariant
            i <= colors@.len(),
            colors@.map_values(|c: AccentColor| c@) == p,
            p == palette(),
            forall|j: int| 0 <= j < i ==> (#[trigger] p[j]).name != name@,
        decreases colors@.len() - i,
    {
        assert(p[i as int] == colors@[i as int]@);
        if chars_eq(chars_of(colors[i].name).as_slice(), name) {
            proof {
                lemma_find_name(p, name@, i as int);
            }
            return Some(i);
        }
        i = i + 1;
    }
    proof {
        lemma_find_name(p, name@, i as int);
    }
    None
}

/// The labels of the palette, in order.
pub fn color_choices() -> (r: Vec<&'static str>)
    ensures
        r@.len() == palette().len(),
        forall|i: int| 0 <= i < r@.len() ==> (#[trigger] r@[i])@ == palette()[i].label,
{
    let colors = accent_colors();
    let mut out: Vec<&'static str> = Vec::new();
    let mut i: usize = 0;
    while i < colors.len()
        invariant
            i <= colors@.len(),
            colors@.map_values(|c: AccentColor| c@) == palette(),
            out@.len() == i,
            forall|j: int| 0 <= j < i ==> (#[trigger] out@[j])@ == palette()[j].label,
        decreases colors@.len() - i,
    {
        assert(palette()[i as int] == colors@[i as int]@);
        out.push(colors[i].label);
        i = i + 1;
    }
    out
}

/// The palette position of a colour name; 0 for an unknown name.
pub open spec fn color_index_spec(name: Seq<char>) -> u32 {
    match find_name(palette(), name) {
        Some(i) => i as u32,
        None => 0,
    }
}

pub fn color_index(name: &str) -> (r: u32)
    ensures
        r == color_index_spec(name@),
{
    let colors = accent_colors();
    let n = chars_of(name);
    match palette_position(&colors, n.as_slice()) {
        Some(i) => i as u32,
        None => 0,
    }
}

/// The colour name at a palette position; `"green"` past the end.
pub open spec fn color_name_spec(index: u32) -> Seq<char> {
    if index < palette().len() {
        palette()[index as int].name
    } else {
        "green"@
    }
}

pub fn color_name(index: u32) -> (r: &'static str)
    ensures
        r@ == color_name_spec(index),
{
    let colors = accent_colors();
    if (index as usize) < colors.len() {
        assert(palette()[index as int] == colors@[index as int]@);
        colors[index as usize].name
    } else {
        "green"
    }
}

proof fn lemma_palette_names()
    ensures
        forall|i: int, j: int|
            0 <= i < palette().len() && 0 <= j < palette().len() && i != j ==> (
            #[trigger] palette()[i]).name != (#[trigger] palette()[j]).name,
{
    reveal_strlit("green");
    reveal_strlit("blue");
    reveal_strlit("purple");
    reveal_strlit("teal");
    reveal_strlit("orange");
    reveal_strlit("red");
    reveal_strlit("pink");
    reveal_strlit("yellow");
    reveal_strlit("slate");
    assert("green"@.len() != "blue"@.len());
    assert("green"@.len() != "purple"@.len());
    assert("green"@.len() != "teal"@.len());
    assert("green"@.len() != "orange"@.len());
    assert("green"@.len() != "red"@.len());
    assert("green"@.len() != "pink"@.len());
    assert("green"@.len() != "yellow"@.len());
    assert("green"@[0] != "slate"@[0]);
    assert("blue"@.len() != "purple"@.len());
    assert("blue"@[0] != "teal"@[0]);
    assert("blue"@.len() != "orange"@.len());
    assert("blue"@.len() != "red"@.len());
    assert("blue"@[0] != "pink"@[0]);
    assert("blue"@.len() != "yellow"@.len());
    assert("blue"@.len() != "slate"@.len());
    assert("purple"@.len() != "teal"@.len());
    assert("purple"@[0] != "orange"@[0]);
    assert("purple"@.len() != "red"@.len());
    assert("purple"@.len() != "pink"@.len());
    assert("purple"@[0] != "yellow"@[0]);
    assert("purple"@.len() != "slate"@.len());
    assert("teal"@.len() != "orange"@.len());
    assert("teal"@.len() != "red"@.len());
    assert("teal"@[0] != "pink"@[0]);
    assert("teal"@.len() != "yellow"@.len());
    assert("teal"@.len() != "slate"@.len());
    assert("orange"@.len() != "red"@.len());
    assert("orange"@.len() != "pink"@.len());
    assert("orange"@[0] != "yellow"@[0]);
    assert("orange"@.len() != "slate"@.len());
    assert("red"@.len() != "pink"@.len());
    assert("red"@.len() != "yellow"@.len());
    assert("red"@.len() != "slate"@.len());
    assert("pink"@.len() != "yellow"@.len());
    assert("pink"@.len() != "slate"@.len());
    assert("yellow"@.len() != "slate"@.len());
    assert forall|i: int, j: int|
        0 <= i < palette().len() && 0 <= j < palette().len() && i != j implies (
        #[trigger] palette()[i]).name != (#[trigger] palette()[j]).name by {
    }
}

/// Every palette name is found at its own position.
proof fn lemma_find_each_name(i: int)
    requires
        0 <= i < palette().len(),
    ensures
        find_name(palette(), palette()[i].name) == Some(i),
{
    lemma_palette_names();
    let p = palette();
    assert forall|j: int| 0 <= j < i implies (#[trigger] p[j]).name != p[i].name by {}
    lemma_find_name(p, p[i].name, i);
}

/// Colour names and palette positions convert into each other: the name at
/// a position is found at that position, and the position of a name names
/// it back — or `"green"`, the first entry, for a name not in the palette.
pub proof fn law_color_index_and_name_round_trip(index: u32, name: Seq<char>)
    ensures
        index < palette().len() ==> color_index_spec(color_name_spec(index)) == index,
        color_name_spec(color_index_spec(name)) == (if find_name(palette(), name) is Some {
            name
        } else {
            "green"@
        }),
{
    if index < palette().len() {
        lemma_find_each_name(index as int);
    }
    match find_name(palette(), name) {
        Some(i) => {
            lemma_find_name_some(palette(), name);
        },
        None => {},
    }
}

proof fn lemma_find_name_some(p: Seq<AccentSpec>, name: Seq<char>)
    ensures
        find_name(p, name) matches Some(i) ==> 0 <= i < p.len() && p[i].name == name,
    decreases p.len(),
{
    if p.len() > 0 && p[0].name != name {
        lemma_find_name_some(p.drop_first(), name);
    }
}

// ------------------------------------------------------------ CSS

/// The three accent choices in play: the app-wide accent plus the two
/// sidebar hues that tell local and remote projects apart.
pub struct Accents {
    pub app: String,
    pub local: String,
    pub remote: String,
}

pub struct AccentsView {
    pub app: Seq<char>,
    pub local: Seq<char>,
    pub remote: Seq<char>,
}

impl View for Accents {
    type V = AccentsView;

    open spec fn view(&self) -> AccentsView {
        AccentsView { app: self.app@, local: self.local@, remote: self.remote@ }
    }
}

/// The accent names a settings file stores.
pub struct AppearanceSettings {
    pub accent_color: String,
    pub local_accent_color: String,
    pub remote_accent_color: String,
}

impl Default for AppearanceSettings {
    /// The shipped defaults: green app accent, green local projects, gold
    /// (`yellow`) remote projects.
    fn default() -> (r: Self)
        ensures
            r.accent_color@ == "green"@,
            r.local_accent_color@ == fallback_local(),
            r.remote_accent_color@ == fallback_remote(),
    {
        AppearanceSettings {
            accent_color: "green".to_owned(),
            local_accent_color: "green".to_owned(),
            remote_accent_color: "yellow".to_owned(),
        }
    }
}

impl AppearanceSettings {
    /// The accents these settings choose.
    pub fn accents(&self) -> (r: Accents)
        ensures
            r@ == (AccentsView {
                app: self.accent_color@,
                local: self.local_accent_color@,
                remote: self.remote_accent_color@,
            }),
    {
        Accents {
            app: self.accent_color.clone(),
            local: self.local_accent_color.clone(),
            remote: self.remote_accent_color.clone(),
        }
    }
}

/// The entry a sidebar hue comes from: the named one, or the fallback's.
pub open spec fn sidebar_entry(name: Seq<char>, fallback: Seq<char>) -> AccentSpec {
    match find_name(palette(), name) {
        Some(i) => palette()[i],
        None => palette()[find_name(palette(), fallback).unwrap()],
    }
}

/// A sidebar hue under one scheme: the text-weight `accent` on dark
/// surfaces, `accent_light` on light ones.
pub open spec fn sidebar_color_spec(name: Seq<char>, fallback: Seq<char>, dark: bool) -> Seq<char> {
    let c = sidebar_entry(name, fallback);
    if dark {
        c.accent
    } else {
        c.accent_light
    }
}

fn sidebar_color(colors: &Vec<AccentColor>, name: &[char], fallback: &[char], dark: bool) -> (r:
    &'static str)
    requires
        colors@.map_values(|c: AccentColor| c@) == palette(),
        find_name(palette(), name@) is Some || find_name(palette(), fallback@) is Some,
    ensures
        r@ == sidebar_color_spec(name@, fallback@, dark),
{
    let i = match palette_position(colors, name) {
        Some(i) => i,
        None => match palette_position(colors, fallback) {
            Some(i) => i,
            None => {
                assert(false);
                0
            },
        },
    };
    assert(palette()[i as int] == colors@[i as int]@);
    if dark {
        colors[i].accent
    } else {
        colors[i].accent_light
    }
}

/// `@define-color {name} {value};` followed by `tail`.
pub open spec fn define(name: Seq<char>, value: Seq<char>, tail: Seq<char>) -> Seq<char> {
    "@define-color "@ + name + " "@ + value + ";"@ + tail
}

/// The status-dot definitions under one scheme, one per line.
pub open spec fn status_css(s: Seq<(Seq<char>, Seq<char>, Seq<char>)>, dark: bool) -> Seq<char>
    decreases s.len(),
{
    if s.len() == 0 {
        seq![]
    } else {
        status_css(s.drop_last(), dark) + define(
            s.last().0,
            if dark {
                s.last().1
            } else {
                s.last().2
            },
            "\n"@,
        )
    }
}

/// The app accent's definitions, when the name is in the palette.
pub open spec fn app_css(app: Seq<char>, dark: bool) -> Seq<char> {
    match find_name(palette(), app) {
        Some(i) => if palette()[i].bg.len() > 0 {
            define("accent_bg_color"@, palette()[i].bg, "\n"@) + define(
                "accent_fg_color"@,
                palette()[i].fg,
                "\n"@,
            ) + define(
                "accent_color"@,
                if dark {
                    palette()[i].accent
                } else {
                    palette()[i].accent_light
                },
                seq![],
            )
        } else {
            seq![]
        },
        None => seq![],
    }
}

/// The colour definitions for one set of accents under one scheme: the
/// two sidebar hues (unknown names fall back to the shipped defaults), the
/// fixed status-dot hues, then the app accent if its name is known.
pub open spec fn css_spec(a: AccentsView, dark: bool) -> Seq<char> {
    define("local_accent"@, sidebar_color_spec(a.local, fallback_local(), dark), "\n"@)
        + define("remote_accent"@, sidebar_color_spec(a.remote, fallback_remote(), dark), "\n"@)
        + status_css(status_colors_spec(), dark) + app_css(a.app, dark)
}

/// A sidebar hue named by something outside the palette is the shipped
/// default's hue, so both sidebar colours are always defined.
pub proof fn law_unknown_sidebar_names_fall_back(name: Seq<char>, dark: bool)
    requires
        find_name(palette(), name) is None,
    ensures
        sidebar_color_spec(name, fallback_local(), dark) == sidebar_color_spec(
            fallback_local(),
            fallback_local(),
            dark,
        ),
        sidebar_color_spec(name, fallback_remote(), dark) == sidebar_color_spec(
            fallback_remote(),
            fallback_remote(),
            dark,
        ),
{
    lemma_fallbacks_in_palette();
}

/// A sidebar hue follows its own name whenever that name is in the
/// palette, whatever the fallback; any other name takes the fallback's hue.
pub proof fn law_sidebar_color_fallback(name: Seq<char>, fallback: Seq<char>, dark: bool)
    requires
        find_name(palette(), fallback) is Some,
    ensures
        find_name(palette(), name) is Some ==> sidebar_color_spec(name, fallback, dark) == (if dark {
            palette()[find_name(palette(), name).unwrap()].accent
        } else {
            palette()[find_name(palette(), name).unwrap()].accent_light
        }),
        find_name(palette(), name) is None ==> sidebar_color_spec(name, fallback, dark)
            == sidebar_color_spec(fallback, fallback, dark),
{
}

/// The line defining the local-project hue.
pub open spec fn local_css(local: Seq<char>, dark: bool) -> Seq<char> {
    define("local_accent"@, sidebar_color_spec(local, fallback_local(), dark), "\n"@)
}

/// The line defining the remote-project hue.
pub open spec fn remote_css(remote: Seq<char>, dark: bool) -> Seq<char> {
    define("remote_accent"@, sidebar_color_spec(remote, fallback_remote(), dark), "\n"@)
}

/// Each part of the stylesheet depends on its own setting only: the
/// local line on the local name, the remote line on the remote name, the
/// status lines on nothing, the app-accent lines on the app name. The
/// app-accent lines are there exactly when the app name is in the palette;
/// then they define the fill, its text colour and the accent, and the fill
/// and its text colour are the same under both schemes.
pub proof fn law_css_parts(a: AccentsView, dark: bool)
    ensures
        css_spec(a, dark) == local_css(a.local, dark) + remote_css(a.remote, dark) + status_css(
            status_colors_spec(),
            dark,
        ) + app_css(a.app, dark),
        (app_css(a.app, dark).len() > 0) == (find_name(palette(), a.app) is Some),
        find_name(palette(), a.app) matches Some(i) ==> app_css(a.app, dark) == define(
            "accent_bg_color"@,
            palette()[i].bg,
            "\n"@,
        ) + define("accent_fg_color"@, palette()[i].fg, "\n"@) + define(
            "accent_color"@,
            if dark {
                palette()[i].accent
            } else {
                palette()[i].accent_light
            },
            seq![],
        ),
{
    lemma_palette_bg_nonempty();
    match find_name(palette(), a.app) {
        Some(i) => {
            lemma_find_name_some(palette(), a.app);
            reveal_strlit("@define-color ");
            let d = define("accent_bg_color"@, palette()[i].bg, "\n"@);
            assert(d.len() > 0);
            assert(app_css(a.app, dark).len() >= d.len());
        },
        None => {},
    }
}

proof fn lemma_palette_bg_nonempty()
    ensures
        forall|i: int| 0 <= i < palette().len() ==> (#[trigger] palette()[i]).bg.len() > 0,
{
    reveal_strlit("#2ea043");
    reveal_strlit("#3584e4");
    reveal_strlit("#9141ac");
    reveal_strlit("#2190a4");
    reveal_strlit("#e66100");
    reveal_strlit("#e01b24");
    reveal_strlit("#d56199");
    reveal_strlit("#c88800");
    reveal_strlit("#6e8898");
}

fn push_define(out: &mut Vec<char>, name: &[char], value: &[char], newline: bool)
    ensures
        final(out)@ == old(out)@ + define(
            name@,
            value@,
            if newline {
                "\n"@
            } else {
                seq![]
            },
        ),
{
    append_chars(out, chars_of("@define-color ").as_slice());
    append_chars(out, name);
    append_chars(out, chars_of(" ").as_slice());
    append_chars(out, value);
    append_chars(out, chars_of(";").as_slice());
    if newline {
        append_chars(out, chars_of("\n").as_slice());
    }
    let ghost tail = if newline {
        "\n"@
    } else {
        Seq::<char>::empty()
    };
    assert(final(out)@ =~= old(out)@ + define(name@, value@, tail));
}

proof fn lemma_fallbacks_in_palette()
    ensures
        find_name(palette(), fallback_local()) is Some,
        find_name(palette(), fallback_remote()) is Some,
{
    lemma_find_each_name(0);
    lemma_find_each_name(7);
}

/// The colour definitions for one set of accents under one scheme (see
/// [`css_spec`]).
pub fn css_for(a: &Accents, dark: bool) -> (r: String)
    ensures
        r@ == css_spec(a@, dark),
{
    proof {
        lemma_fallbacks_in_palette();
    }
    let colors = accent_colors();
    let mut out: Vec<char> = Vec::new();
    let local = sidebar_color(
        &colors,
        chars_of(a.local.as_str()).as_slice(),
        chars_of("green").as_slice(),
        dark,
    );
    push_define(&mut out, chars_of("local_accent").as_slice(), chars_of(local).as_slice(), true);
    let remote = sidebar_color(
        &colors,
        chars_of(a.remote.as_str()).as_slice(),
        chars_of("yellow").as_slice(),
        dark,
    );
    push_define(&mut out, chars_of("remote_accent").as_slice(), chars_of(remote).as_slice(), true);
    let ghost head = out@;
    let statuses = status_colors();
    let mut i: usize = 0;
    while i < statuses.len()
        invariant
            i <= statuses@.len(),
            statuses@.len() == status_colors_spec().len(),
            forall|j: int|
                0 <= j < statuses@.len() ==> (statuses@[j].0@, statuses@[j].1@, statuses@[j].2@)
                    == #[trigger] status_colors_spec()[j],
            out@ == head + status_css(status_colors_spec().take(i as int), dark),
        decreases statuses@.len() - i,
    {
        let (name, dark_hex, light_hex) = statuses[i];
        assert((name@, dark_hex@, light_hex@) == status_colors_spec()[i as int]);
        let hex = if dark {
            dark_hex
        } else {
            light_hex
        };
        push_define(&mut out, chars_of(name).as_slice(), chars_of(hex).as_slice(), true);
        proof {
            let s = status_colors_spec().take(i + 1);
            assert(s.drop_last() =~= status_colors_spec().take(i as int));
            assert(s.last() == status_colors_spec()[i as int]);
        }
        i = i + 1;
    }
    assert(status_colors_spec().take(statuses@.len() as int) =~= status_colors_spec());
    let app = chars_of(a.app.as_str());
    match palette_position(&colors, app.as_slice()) {
        Some(k) => {
            assert(palette()[k as int] == colors@[k as int]@);
            let c = &colors[k];
            if chars_of(c.bg).len() > 0 {
                push_define(&mut out, chars_of("accent_bg_color").as_slice(), chars_of(c.bg).as_slice(), true);
                push_define(&mut out, chars_of("accent_fg_color").as_slice(), chars_of(c.fg).as_slice(), true);
                let accent = if dark {
                    c.accent
                } else {
                    c.accent_light
                };
                push_define(&mut out, chars_of("accent_color").as_slice(), chars_of(accent).as_slice(), false);
            }
        },
        None => {},
    }
    assert(out@ =~= css_spec(a@, dark));
    string_of(out.as_slice())
}

} // verus!
