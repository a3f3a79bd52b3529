//! Terminal colour schemes: the table the settings offer, and the colours
//! a theme name selects. Colours are `0xRRGGBB`.
use vstd::prelude::*;
use crate::text::{chars_eq, chars_of};

verus! {

broadcast use vstd::string::group_string_axioms;

/// One terminal colour scheme.
pub struct TerminalTheme {
    pub name: &'static str,
    pub label: &'static str,
    pub foreground: u32,
    pub background: u32,
    pub cursor: u32,
    pub palette: [u32; 16],
}

/// A [`TerminalTheme`] as a mathematical value.
pub struct ThemeSpec {
    pub name: Seq<char>,
    pub label: Seq<char>,
    pub foreground: u32,
    pub background: u32,
    pub cursor: u32,
    pub palette: Seq<u32>,
}

impl View for TerminalTheme {
    type V = ThemeSpec;

    open spec fn view(&self) -> ThemeSpec {
        ThemeSpec {
            name: self.name@,
            label: self.label@,
            foreground: self.foreground,
            background: self.background,
            cursor: self.cursor,
            palette: self.palette@,
        }
    }
}

/// The themes, dark ones first; the first is the default.
pub open spec fn themes() -> Seq<ThemeSpec> {
    seq![
        ThemeSpec {
            name: "catppuccin-mocha"@,
            label: "Catppuccin Mocha (Default)"@,
            foreground: 0xCDD6F4,
            background: 0x1E1E2E,
            cursor: 0xF5E0DC,
            palette: seq![0x45475A, 0xF38BA8, 0xA6E3A1, 0xF9E2AF, 0x89B4FA, 0xF5C2E7, 0x94E2D5, 0xBAC2DE,
                0x585B70, 0xF38BA8, 0xA6E3A1, 0xF9E2AF, 0x89B4FA, 0xF5C2E7, 0x94E2D5, 0xA6ADC8],
        },
        ThemeSpec {
            name: "dracula"@,
            label: "Dracula"@,
            foreground: 0xF8F8F2,
            background: 0x282A36,
            cursor: 0xF8F8F2,
            palette: seq![0x21222C, 0xFF5555, 0x50FA7B, 0xF1FA8C, 0xBD93F9, 0xFF79C6, 0x8BE9FD, 0xF8F8F2,
                0x6272A4, 0xFF6E6E, 0x69FF94, 0xFFFFA5, 0xD6ACFF, 0xFF92DF, 0xA4FFFF, 0xFFFFFF],
        },
        ThemeSpec {
            name: "nord"@,
            label: "Nord"@,
            foreground: 0xD8DEE9,
            background: 0x2E3440,
            cursor: 0xD8DEE9,
            palette: seq![0x3B4252, 0xBF616A, 0xA3BE8C, 0xEBCB8B, 0x81A1C1, 0xB48EAD, 0x88C0D0, 0xE5E9F0,
                0x4C566A, 0xBF616A, 0xA3BE8C, 0xEBCB8B, 0x81A1C1, 0xB48EAD, 0x8FBCBB, 0xECEFF4],
        },
        ThemeSpec {
            name: "gruvbox-dark"@,
            label: "Gruvbox Dark"@,
            foreground: 0xEBDBB2,
            background: 0x282828,
            cursor: 0xEBDBB2,
            palette: seq![0x282828, 0xCC241D, 0x98971A, 0xD79921, 0x458588, 0xB16286, 0x689D6A, 0xA89984,
                0x928374, 0xFB4934, 0xB8BB26, 0xFABD2F, 0x83A598, 0xD3869B, 0x8EC07C, 0xEBDBB2],
        },
        ThemeSpec {
            name: "one-dark"@,
            label: "One Dark"@,
            foreground: 0xABB2BF,
            background: 0x282C34,
            cursor: 0x528BFF,
            palette: seq![0x282C34, 0xE06C75, 0x98C379, 0xE5C07B, 0x61AFEF, 0xC678DD, 0x56B6C2, 0xABB2BF,
                0x545862, 0xE06C75, 0x98C379, 0xE5C07B, 0x61AFEF, 0xC678DD, 0x56B6C2, 0xBE5046],
        },
        ThemeSpec {
            name: "tokyo-night"@,
            label: "Tokyo Night"@,
            foreground: 0xC0CAF5,
            background: 0x1A1B26,
            cursor: 0xC0CAF5,
            palette: seq![0x15161E, 0xF7768E, 0x9ECE6A, 0xE0AF68, 0x7AA2F7, 0xBB9AF7, 0x7DCFFF, 0xA9B1D6,
                0x414868, 0xF7768E, 0x9ECE6A, 0xE0AF68, 0x7AA2F7, 0xBB9AF7, 0x7DCFFF, 0xC0CAF5],
        },
        ThemeSpec {
            name: "solarized-dark"@,
            label: "Solarized Dark"@,
            foreground: 0x839496,
            background: 0x002B36,
            cursor: 0x93A1A1,
            palette: seq![0x073642, 0xDC322F, 0x859900, 0xB58900, 0x268BD2, 0xD33682, 0x2AA198, 0xEEE8D5,
                0x002B36, 0xCB4B16, 0x586E75, 0x657B83, 0x839496, 0x6C71C4, 0x93A1A1, 0xFDF6E3],
        },
        ThemeSpec {
            name: "catppuccin-latte"@,
            label: "Catppuccin Latte"@,
            foreground: 0x4C4F69,
            background: 0xEFF1F5,
            cursor: 0xDC8A78,
            palette: seq![0x5C5F77, 0xD20F39, 0x40A02B, 0xDF8E1D, 0x1E66F5, 0xEA76CB, 0x179299, 0xACB0BE,
                0x6C6F85, 0xD20F39, 0x40A02B, 0xDF8E1D, 0x1E66F5, 0xEA76CB, 0x179299, 0x4C4F69],
        },
        ThemeSpec {
            name: "solarized-light"@,
            label: "Solarized Light"@,
            foreground: 0x657B83,
            background: 0xFDF6E3,
            cursor: 0x586E75,
            palette: seq![0x073642, 0xDC322F, 0x859900, 0xB58900, 0x268BD2, 0xD33682, 0x2AA198, 0xEEE8D5,
                0x002B36, 0xCB4B16, 0x586E75, 0x657B83, 0x839496, 0x6C71C4, 0x93A1A1, 0xFDF6E3],
        },
    ]
}

/// The red, green and blue bytes of a `0xRRGGBB` colour.
pub fn rgb_channels(val: u32) -> (r: (u8, u8, u8))
    ensures
        r.0 == (val / 0x10000) % 0x100,
        r.1 == (val / 0x100) % 0x100,
        r.2 == val % 0x100,
{
    let red: u32 = (val >> 16) & 0xFF;
    let green: u32 = (val >> 8) & 0xFF;
    let blue: u32 = val & 0xFF;
    assert(red == (val / 0x10000) % 0x100 && red < 0x100) by (bit_vector)
        requires
            red == (val >> 16) & 0xFF,
    ;
    assert(green == (val / 0x100) % 0x100 && green < 0x100) by (bit_vector)
        requires
            green == (val >> 8) & 0xFF,
    ;
    assert(blue == val % 0x100 && blue < 0x100) by (bit_vector)
        requires
            blue == val & 0xFF,
    ;
    (red as u8, green as u8, blue as u8)
}

/// The theme table.
pub fn terminal_themes() -> (r: Vec<TerminalTheme>)
    ensures
        r@.map_values(|t: TerminalTheme| t@) == themes(),
{
    let r = vec![
        TerminalTheme {
            name: "catppuccin-mocha",
            label: "Catppuccin Mocha (Default)",
            foreground: 0xCDD6F4,
            background: 0x1E1E2E,
            cursor: 0xF5E0DC,
            palette: [0x45475A, 0xF38BA8, 0xA6E3A1, 0xF9E2AF, 0x89B4FA, 0xF5C2E7, 0x94E2D5, 0xBAC2DE,
                0x585B70, 0xF38BA8, 0xA6E3A1, 0xF9E2AF, 0x89B4FA, 0xF5C2E7, 0x94E2D5, 0xA6ADC8],
        },
        TerminalTheme {
            name: "dracula",
            label: "Dracula",
            foreground: 0xF8F8F2,
            background: 0x282A36,
            cursor: 0xF8F8F2,
            palette: [0x21222C, 0xFF5555, 0x50FA7B, 0xF1FA8C, 0xBD93F9, 0xFF79C6, 0x8BE9FD, 0xF8F8F2,
                0x6272A4, 0xFF6E6E, 0x69FF94, 0xFFFFA5, 0xD6ACFF, 0xFF92DF, 0xA4FFFF, 0xFFFFFF],
        },
        TerminalTheme {
            name: "nord",
            label: "Nord",
            foreground: 0xD8DEE9,
            background: 0x2E3440,
            cursor: 0xD8DEE9,
            palette: [0x3B4252, 0xBF616A, 0xA3BE8C, 0xEBCB8B, 0x81A1C1, 0xB48EAD, 0x88C0D0, 0xE5E9F0,
                0x4C566A, 0xBF616A, 0xA3BE8C, 0xEBCB8B, 0x81A1C1, 0xB48EAD, 0x8FBCBB, 0xECEFF4],
        },
        TerminalTheme {
            name: "gruvbox-dark",
            label: "Gruvbox Dark",
            foreground: 0xEBDBB2,
            background: 0x282828,
            cursor: 0xEBDBB2,
            palette: [0x282828, 0xCC241D, 0x98971A, 0xD79921, 0x458588, 0xB16286, 0x689D6A, 0xA89984,
                0x928374, 0xFB4934, 0xB8BB26, 0xFABD2F, 0x83A598, 0xD3869B, 0x8EC07C, 0xEBDBB2],
        },
        TerminalTheme {
            name: "one-dark",
            label: "One Dark",
            foreground: 0xABB2BF,
            background: 0x282C34,
            cursor: 0x528BFF,
            palette: [0x282C34, 0xE06C75, 0x98C379, 0xE5C07B, 0x61AFEF, 0xC678DD, 0x56B6C2, 0xABB2BF,
                0x545862, 0xE06C75, 0x98C379, 0xE5C07B, 0x61AFEF, 0xC678DD, 0x56B6C2, 0xBE5046],
        },
        TerminalTheme {
            name: "tokyo-night",
            label: "Tokyo Night",
            foreground: 0xC0CAF5,
            background: 0x1A1B26,
            cursor: 0xC0CAF5,
            palette: [0x15161E, 0xF7768E, 0x9ECE6A, 0xE0AF68, 0x7AA2F7, 0xBB9AF7, 0x7DCFFF, 0xA9B1D6,
                0x414868, 0xF7768E, 0x9ECE6A, 0xE0AF68, 0x7AA2F7, 0xBB9AF7, 0x7DCFFF, 0xC0CAF5],
        },
        TerminalTheme {
            name: "solarized-dark",
            label: "Solarized Dark",
            foreground: 0x839496,
            background: 0x002B36,
            cursor: 0x93A1A1,
            palette: [0x073642, 0xDC322F, 0x859900, 0xB58900, 0x268BD2, 0xD33682, 0x2AA198, 0xEEE8D5,
                0x002B36, 0xCB4B16, 0x586E75, 0x657B83, 0x839496, 0x6C71C4, 0x93A1A1, 0xFDF6E3],
        },
        TerminalTheme {
            name: "catppuccin-latte",
            label: "Catppuccin Latte",
            foreground: 0x4C4F69,
            background: 0xEFF1F5,
            cursor: 0xDC8A78,
            palette: [0x5C5F77, 0xD20F39, 0x40A02B, 0xDF8E1D, 0x1E66F5, 0xEA76CB, 0x179299, 0xACB0BE,
                0x6C6F85, 0xD20F39, 0x40A02B, 0xDF8E1D, 0x1E66F5, 0xEA76CB, 0x179299, 0x4C4F69],
        },
        TerminalTheme {
            name: "solarized-light",
            label: "Solarized Light",
            foreground: 0x657B83,
            background: 0xFDF6E3,
            cursor: 0x586E75,
            palette: [0x073642, 0xDC322F, 0x859900, 0xB58900, 0x268BD2, 0xD33682, 0x2AA198, 0xEEE8D5,
                0x002B36, 0xCB4B16, 0x586E75, 0x657B83, 0x839496, 0x6C71C4, 0x93A1A1, 0xFDF6E3],
        },
    ];
    assert(r@.map_values(|t: TerminalTheme| t@) =~= themes());
    r
}

/// Position of the first theme named `name`.
pub open spec fn find_theme(t: Seq<ThemeSpec>, name: Seq<char>) -> Option<int>
    decreases t.len(),
{
    if t.len() == 0 {
        None
    } else if t[0].name == name {
        Some(0)
    } else {
        match find_theme(t.drop_first(), name) {
            Some(i) => Some(i + 1),
            None => None,
        }
    }
}

proof fn lemma_find_theme(t: Seq<ThemeSpec>, name: Seq<char>, k: int)
    requires
        0 <= k <= t.len(),
        forall|j: int| 0 <= j < k ==> (#[trigger] t[j]).name != name,
    ensures
        k < t.len() && t[k].name == name ==> find_theme(t, name) == Some(k),
        k == t.len() ==> find_theme(t, name) is None,
    decreases k,
{
    if k > 0 {
        assert forall|j: int| 0 <= j < k - 1 implies (#[trigger] t.drop_first()[j]).name != name by {
            assert(t.drop_first()[j] == t[j + 1]);
        }
        lemma_find_theme(t.drop_first(), name, k - 1);
    }
}

proof fn lemma_find_theme_some(t: Seq<ThemeSpec>, name: Seq<char>)
    ensures
        find_theme(t, name) matches Some(i) ==> 0 <= i < t.len() && t[i].name == name,
    decreases t.len(),
{
    if t.len() > 0 && t[0].name != name {
        lemma_find_theme_some(t.drop_first(), name);
    }
}

fn theme_position(table: &Vec<TerminalTheme>, name: &[char]) -> (r: Option<usize>)
    requires
        table@.map_values(|t: TerminalTheme| t@) == themes(),
    ensures
        match r {
            Some(i) => find_theme(themes(), name@) == Some(i as int) && i < table@.len(),
            None => find_theme(themes(), name@) is None,
        },
{
    let ghost t = themes();
    let mut i: usize = 0;
    while i < table.len()
        invariant
            i <= table@.len(),
            table@.map_values(|x: TerminalTheme| x@) == t,
            t == themes(),
            forall|j: int| 0 <= j < i ==> (#[trigger] t[j]).name != name@,
        decreases table@.len() - i,
    {
        assert(t[i as int] == table@[i as int]@);
        if chars_eq(chars_of(table[i].name).as_slice(), name) {
            proof {
                lemma_find_theme(t, name@, i as int);
            }
            return Some(i);
        }
        i = i + 1;
    }
    proof {
        lemma_find_theme(t, name@, i as int);
    }
    None
}

/// The theme a name selects: the named one, or the first (default) theme.
pub open spec fn theme_for_spec(name: Seq<char>) -> ThemeSpec {
    match find_theme(themes(), name) {
        Some(i) => themes()[i],
        None => themes()[0],
    }
}

/// The colours of the theme called `name`, or of the default theme.
pub fn theme_for(name: &str) -> (r: TerminalTheme)
    ensures
        r@ == theme_for_spec(name@),
{
    let mut table = terminal_themes();
    let n = chars_of(name);
    let i = match theme_position(&table, n.as_slice()) {
        Some(i) => i,
        None => 0,
    };
    assert(themes()[i as int] == table@[i as int]@);
    table.swap_remove(i)
}

/// The labels of the themes, in order.
pub fn theme_choices() -> (r: Vec<&'static str>)
    ensures
        r@.len() == themes().len(),
        forall|i: int| 0 <= i < r@.len() ==> (#[trigger] r@[i])@ == themes()[i].label,
{
    let table = terminal_themes();
    let mut out: Vec<&'static str> = Vec::new();
    let mut i: usize = 0;
    while i < table.len()
        invariant
            i <= table@.len(),
            table@.map_values(|t: TerminalTheme| t@) == themes(),
            out@.len() == i,
            forall|j: int| 0 <= j < i ==> (#[trigger] out@[j])@ == themes()[j].label,
        decreases table@.len() - i,
    {
        assert(themes()[i as int] == table@[i as int]@);
        out.push(table[i].label);
        i = i + 1;
    }
    out
}

/// The position of a theme name; 0 for an unknown name.
pub open spec fn theme_index_spec(name: Seq<char>) -> u32 {
    match find_theme(themes(), name) {
        Some(i) => i as u32,
        None => 0,
    }
}

pub fn theme_index(name: &str) -> (r: u32)
    ensures
        r == theme_index_spec(name@),
{
    let table = terminal_themes();
    let n = chars_of(name);
    match theme_position(&table, n.as_slice()) {
        Some(i) => i as u32,
        None => 0,
    }
}

/// The theme name at a position; the default theme's past the end.
pub open spec fn theme_name_spec(index: u32) -> Seq<char> {
    if index < themes().len() {
        themes()[index as int].name
    } else {
        "catppuccin-mocha"@
    }
}

pub fn theme_name(index: u32) -> (r: &'static str)
    ensures
        r@ == theme_name_spec(index),
{
    let table = terminal_themes();
    if (index as usize) < table.len() {
        assert(themes()[index as int] == table@[index as int]@);
        table[index as usize].name
    } else {
        "catppuccin-mocha"
    }
}

proof fn lemma_theme_names()
    ensures
        forall|i: int, j: int|
            0 <= i < themes().len() && 0 <= j < themes().len() && i != j ==> (
            #[trigger] themes()[i]).name != (#[trigger] themes()[j]).name,
{
    reveal_strlit("catppuccin-mocha");
    reveal_strlit("dracula");
    reveal_strlit("nord");
    reveal_strlit("gruvbox-dark");
    reveal_strlit("one-dark");
    reveal_strlit("tokyo-night");
    reveal_strlit("solarized-dark");
    reveal_strlit("catppuccin-latte");
    reveal_strlit("solarized-light");
    assert("catppuccin-mocha"@.len() != "dracula"@.len());
    assert("catppuccin-mocha"@.len() != "nord"@.len());
    assert("catppuccin-mocha"@.len() != "gruvbox-dark"@.len());
    assert("catppuccin-mocha"@.len() != "one-dark"@.len());
    assert("catppuccin-mocha"@.len() != "tokyo-night"@.len());
    assert("catppuccin-mocha"@.len() != "solarized-dark"@.len());
    assert("catppuccin-mocha"@[11] != "catppuccin-latte"@[11]);
    assert("catppuccin-mocha"@.len() != "solarized-light"@.len());
    assert("dracula"@.len() != "nord"@.len());
    assert("dracula"@.len() != "gruvbox-dark"@.len());
    assert("dracula"@.len() != "one-dark"@.len());
    assert("dracula"@.len() != "tokyo-night"@.len());
    assert("dracula"@.len() != "solarized-dark"@.len());
    assert("dracula"@.len() != "catppuccin-latte"@.len());
    assert("dracula"@.len() != "solarized-light"@.len());
    assert("nord"@.len() != "gruvbox-dark"@.len());
    assert("nord"@.len() != "one-dark"@.len());
    assert("nord"@.len() != "tokyo-night"@.len());
    assert("nord"@.len() != "solarized-dark"@.len());
    assert("nord"@.len() != "catppuccin-latte"@.len());
    assert("nord"@.len() != "solarized-light"@.len());
    assert("gruvbox-dark"@.len() != "one-dark"@.len());
    assert("gruvbox-dark"@.len() != "tokyo-night"@.len());
    assert("gruvbox-dark"@.len() != "solarized-dark"@.len());
    assert("gruvbox-dark"@.len() != "catppuccin-latte"@.len());
    assert("gruvbox-dark"@.len() != "solarized-light"@.len());
    assert("one-dark"@.len() != "tokyo-night"@.len());
    assert("one-dark"@.len() != "solarized-dark"@.len());
    assert("one-dark"@.len() != "catppuccin-latte"@.len());
    assert("one-dark"@.len() != "solarized-light"@.len());
    assert("tokyo-night"@.len() != "solarized-dark"@.len());
    assert("tokyo-night"@.len() != "catppuccin-latte"@.len());
    assert("tokyo-night"@.len() != "solarized-light"@.len());
    assert("solarized-dark"@.len() != "catppuccin-latte"@.len());
    assert("solarized-dark"@.len() != "solarized-light"@.len());
    assert("catppuccin-latte"@.len() != "solarized-light"@.len());
    assert forall|i: int, j: int|
        0 <= i < themes().len() && 0 <= j < themes().len() && i != j implies (
        #[trigger] themes()[i]).name != (#[trigger] themes()[j]).name by {
    }
}

/// Theme names and positions convert into each other: the name at a
/// position is found at that position, and the position of a name names
/// it back — or the default theme for a name not in the table.
pub proof fn law_theme_index_and_name_round_trip(index: u32, name: Seq<char>)
    ensures
        index < themes().len() ==> theme_index_spec(theme_name_spec(index)) == index,
        theme_name_spec(theme_index_spec(name)) == (if find_theme(themes(), name) is Some {
            name
        } else {
            "catppuccin-mocha"@
        }),
        theme_for_spec(name) == themes()[theme_index_spec(name) as int],
{
    lemma_theme_names();
    if index < themes().len() {
        let t = themes();
        let i = index as int;
        assert forall|j: int| 0 <= j < i implies (#[trigger] t[j]).name != t[i].name by {}
        lemma_find_theme(t, t[i].name, i);
    }
    lemma_find_theme_some(themes(), name);
}

} // verus!
