//! Decisions of the main window that do not touch a widget: the tab name
//! taken from a terminal's title, and moving through the running processes
//! and the projects with the keyboard.
use vstd::prelude::*;
use crate::text::{
    byte_cut, char_utf8_len, char_utf8_len_exec, chars_of, find_infix, find_str, index_of, joined,
    lemma_byte_cut_unique, lemma_utf8_len_concat, lemma_utf8_len_prefix, lines_of, position_of,
    push_joined, push_str, rfind_infix, rfind_str, slice_of, string_of, string_views, text_lines,
    trim, trim_exec, utf8_len, views,
};

verus! {

// ---------------------------------------------------------------- tab names

/// The part of a terminal title that names what runs in it: after the last
/// `": "` (shell prompts), else before the first `" - "` (fish), else the
/// whole title, trimmed.
pub open spec fn title_name(title: Seq<char>) -> Seq<char> {
    let t = trim(title);
    trim(
        match rfind_str(t, ": "@) {
            Some(p) => t.skip(p + 2),
            None => match find_str(t, " - "@) {
                Some(p) => t.take(p),
                None => t,
            },
        },
    )
}

/// Longest tab name, in UTF-8 bytes, shown whole.
pub open spec fn title_max_bytes() -> nat {
    30
}

/// Bytes of a long tab name kept before the ellipsis.
pub open spec fn title_keep_bytes() -> nat {
    27
}

/// A long name can be cut at its 27th byte without splitting a character.
pub open spec fn title_cut_ok(title: Seq<char>) -> bool {
    utf8_len(title_name(title)) > title_max_bytes() ==> exists|k: int|
        0 <= k <= title_name(title).len() && utf8_len(title_name(title).take(k))
            == title_keep_bytes()
}

/// The tab name for a terminal title: nothing when the title names
/// nothing, the name itself when it fits, else its first 27 bytes and `...`.
pub open spec fn window_title_spec(title: Seq<char>) -> Option<Seq<char>> {
    let name = title_name(title);
    if name.len() == 0 {
        None
    } else if utf8_len(name) > title_max_bytes() {
        Some(name.take(byte_cut(name, title_keep_bytes())) + "..."@)
    } else {
        Some(name)
    }
}

/// Whether the UTF-8 size of `s` is above `limit`.
fn utf8_len_exceeds(s: &[char], limit: usize) -> (r: bool)
    requires
        limit <= 1000,
    ensures
        r == (utf8_len(s@) > limit),
{
    let mut acc: usize = 0;
    let mut i: usize = 0;
    while i < s.len() && acc <= limit
        invariant
            i <= s@.len(),
            limit <= 1000,
            acc <= limit + 4,
            acc == utf8_len(s@.take(i as int)),
        decreases s@.len() - i,
    {
        assert(s@.take(i + 1).drop_last() =~= s@.take(i as int));
        acc = acc + char_utf8_len_exec(s[i]);
        i = i + 1;
    }
    proof {
        lemma_utf8_len_prefix(s@, i as int, s@.len() as int);
        assert(s@.take(s@.len() as int) =~= s@);
    }
    acc > limit
}

/// The number of leading characters of `s` that take `n` bytes, when some do.
fn byte_cut_exec(s: &[char], n: usize) -> (r: usize)
    requires
        exists|k: int| 0 <= k <= s@.len() && utf8_len(s@.take(k)) == n,
    ensures
        r == byte_cut(s@, n as nat),
        r <= s@.len(),
{
    let ghost w = choose|k: int| 0 <= k <= s@.len() && utf8_len(s@.take(k)) == n;
    let mut acc: usize = 0;
    let mut i: usize = 0;
    while acc < n
        invariant
            i <= w <= s@.len(),
            0 <= w,
            utf8_len(s@.take(w)) == n,
            acc == utf8_len(s@.take(i as int)),
        decreases n - acc,
    {
        assert(i < w);
        proof {
            lemma_utf8_len_prefix(s@, i + 1, w);
        }
        assert(s@.take(i + 1).drop_last() =~= s@.take(i as int));
        acc = acc + char_utf8_len_exec(s[i]);
        i = i + 1;
    }
    proof {
        if i < w {
            lemma_utf8_len_prefix(s@, i as int, w);
        }
        lemma_byte_cut_unique(s@, n as nat, i as int);
    }
    i
}

/// The name part of a terminal title.
fn title_name_exec(title: &str) -> (r: Vec<char>)
    ensures
        r@ == title_name(title@),
{
    let cs = chars_of(title);
    let t = trim_exec(cs.as_slice());
    let colon = chars_of(": ");
    let dash = chars_of(" - ");
    proof {
        reveal_strlit(": ");
        reveal_strlit(" - ");
    }
    assert(colon@.len() == 2 && dash@.len() == 3);
    let len = t.len();
    let raw = match rfind_infix(t.as_slice(), colon.as_slice()) {
        Some(p) => {
            assert(t@.subrange(p + 2, t@.len() as int) =~= t@.skip(p + 2));
            slice_of(t.as_slice(), p + 2, len)
        },
        None => match find_infix(t.as_slice(), dash.as_slice()) {
            Some(p) => {
                assert(t@.subrange(0, p as int) =~= t@.take(p as int));
                slice_of(t.as_slice(), 0, p)
            },
            None => {
                assert(t@.subrange(0, t@.len() as int) =~= t@);
                slice_of(t.as_slice(), 0, t.len())
            },
        },
    };
    trim_exec(raw.as_slice())
}

/// Whether a long tab name taken from `title` can be cut at its 27th byte,
/// that is, whether `parse_window_title` accepts `title`.
pub fn title_cut_is_safe(title: &str) -> (r: bool)
    ensures
        r == title_cut_ok(title@),
{
    let name = title_name_exec(title);
    if !utf8_len_exceeds(name.as_slice(), 30) {
        return true;
    }
    let mut acc: usize = 0;
    let mut i: usize = 0;
    while i < name.len() && acc < 27
        invariant
            i <= name@.len(),
            acc <= 30,
            acc == utf8_len(name@.take(i as int)),
            forall|k: int| 0 <= k <= i ==> utf8_len(name@.take(k)) <= acc,
            forall|k: int| 0 <= k < i ==> utf8_len(name@.take(k)) < 27,
        decreases name@.len() - i,
    {
        assert(name@.take(i + 1).drop_last() =~= name@.take(i as int));
        acc = acc + char_utf8_len_exec(name[i]);
        i = i + 1;
        assert forall|k: int| 0 <= k <= i implies utf8_len(name@.take(k)) <= acc by {
            if k < i {
                lemma_utf8_len_prefix(name@, k, i as int);
            }
        }
    }
    if acc == 27 {
        assert(utf8_len(name@.take(i as int)) == 27);
        true
    } else {
        assert forall|k: int| 0 <= k <= name@.len() implies utf8_len(name@.take(k)) != 27 by {
            if k > i {
                lemma_utf8_len_prefix(name@, i as int, k);
            }
        }
        if i == name.len() {
            assert(name@.take(i as int) =~= name@);
        }
        false
    }
}

/// The tab name to show for a terminal whose title is `title`.
pub fn parse_window_title(title: &str) -> (r: Option<String>)
    requires
        title_cut_ok(title@),
    ensures
        match r {
            Some(s) => window_title_spec(title@) == Some(s@),
            None => window_title_spec(title@) is None,
        },
{
    let name = title_name_exec(title);
    if name.len() == 0 {
        return None;
    }
    if utf8_len_exceeds(name.as_slice(), 30) {
        let k = byte_cut_exec(name.as_slice(), 27);
        let mut out = slice_of(name.as_slice(), 0, k);
        assert(out@ =~= name@.take(k as int));
        push_str(&mut out, "...");
        Some(string_of(out.as_slice()))
    } else {
        Some(string_of(name.as_slice()))
    }
}

/// A tab name never takes more than 30 bytes, and never is empty.
pub proof fn law_tab_name_fits(title: Seq<char>)
    requires
        title_cut_ok(title),
    ensures
        match window_title_spec(title) {
            Some(n) => 0 < n.len() && utf8_len(n) <= title_max_bytes(),
            None => true,
        },
{
    let name = title_name(title);
    if name.len() > 0 && utf8_len(name) > title_max_bytes() {
        let k = choose|k: int| 0 <= k <= name.len() && utf8_len(name.take(k)) == title_keep_bytes();
        lemma_byte_cut_unique(name, title_keep_bytes(), k);
        reveal_strlit("...");
        lemma_utf8_len_concat(name.take(k), "..."@);
        assert(utf8_len("..."@) == 3) by {
            let s1 = seq!['.'];
            let s2 = seq!['.', '.'];
            let s3 = seq!['.', '.', '.'];
            assert(s1.drop_last() =~= Seq::<char>::empty());
            assert(s2.drop_last() =~= s1);
            assert(s3.drop_last() =~= s2);
            assert(char_utf8_len('.') == 1);
            assert(utf8_len(Seq::<char>::empty()) == 0);
            assert(s1.last() == '.' && s2.last() == '.' && s3.last() == '.');
            assert(utf8_len(s1) == 1);
            assert(utf8_len(s2) == 2);
            assert(utf8_len(s3) == 3);
            assert("..."@ =~= s3);
        }
    }
}

// ---------------------------------------------------------------- terminal text

/// The lines of `ls` that hold more than whitespace, in order.
pub open spec fn nonblank_lines(ls: Seq<Seq<char>>) -> Seq<Seq<char>>
    decreases ls.len(),
{
    if ls.len() == 0 {
        seq![]
    } else if trim(ls.last()).len() == 0 {
        nonblank_lines(ls.drop_last())
    } else {
        nonblank_lines(ls.drop_last()).push(ls.last())
    }
}

/// The last `max_lines` non-blank lines of a terminal's text, one per line.
pub open spec fn log_tail_spec(text: Seq<char>, max_lines: nat) -> Seq<char> {
    let ls = nonblank_lines(text_lines(text));
    let start = if ls.len() > max_lines {
        ls.len() - max_lines
    } else {
        0
    };
    joined(ls.skip(start), "\n"@)
}

/// The last `max_lines` non-blank lines of `text`, joined by newlines.
pub fn terminal_log_tail(text: &str, max_lines: usize) -> (r: String)
    ensures
        r@ == log_tail_spec(text@, max_lines as nat),
{
    let all = lines_of(chars_of(text).as_slice());
    let ghost tl = text_lines(text@);
    let mut kept: Vec<Vec<char>> = Vec::new();
    let mut k: usize = 0;
    while k < all.len()
        invariant
            k <= all@.len(),
            views(all@) == tl,
            views(kept@) == nonblank_lines(tl.take(k as int)),
        decreases all@.len() - k,
    {
        assert(tl.take(k + 1).drop_last() =~= tl.take(k as int));
        assert(tl.take(k + 1).last() == all@[k as int]@);
        let t = trim_exec(all[k].as_slice());
        if t.len() > 0 {
            let ghost before = kept@;
            let line = slice_of(all[k].as_slice(), 0, all[k].len());
            assert(line@ =~= all@[k as int]@);
            kept.push(line);
            assert(views(kept@) =~= views(before).push(all@[k as int]@));
        }
        k = k + 1;
        assert(views(kept@) =~= nonblank_lines(tl.take(k as int)));
    }
    assert(tl.take(k as int) =~= tl);
    let start: usize = if kept.len() > max_lines {
        kept.len() - max_lines
    } else {
        0
    };
    let mut tail: Vec<Vec<char>> = Vec::new();
    let mut j: usize = start;
    while j < kept.len()
        invariant
            start <= j <= kept@.len(),
            views(tail@) == views(kept@).subrange(start as int, j as int),
        decreases kept@.len() - j,
    {
        let ghost before = tail@;
        let line = slice_of(kept[j].as_slice(), 0, kept[j].len());
        assert(line@ =~= kept@[j as int]@);
        tail.push(line);
        assert(views(tail@) =~= views(before).push(kept@[j as int]@));
        j = j + 1;
        assert(views(tail@) =~= views(kept@).subrange(start as int, j as int));
    }
    assert(views(kept@).subrange(start as int, kept@.len() as int) =~= views(kept@).skip(
        start as int,
    ));
    let mut out: Vec<char> = Vec::new();
    push_joined(&mut out, tail.as_slice(), "\n");
    assert(tail@.map_values(|p: Vec<char>| p@) =~= views(tail@));
    string_of(out.as_slice())
}

/// What a composed prompt sends to a terminal: the text in bracketed-paste
/// markers, on a line of its own after pasted attachments; nothing for an
/// empty text.
pub open spec fn bracketed_paste_spec(text: Seq<char>, after_attachments: bool) -> Option<
    Seq<char>,
> {
    if text.len() == 0 {
        None
    } else {
        Some(
            "\u{1b}[200~"@ + (if after_attachments {
                "\n"@
            } else {
                seq![]
            }) + text + "\u{1b}[201~"@,
        )
    }
}

/// The bytes (as text) a composed prompt sends before the Enter key.
pub fn bracketed_paste(text: &str, after_attachments: bool) -> (r: Option<String>)
    ensures
        match r {
            Some(s) => bracketed_paste_spec(text@, after_attachments) == Some(s@),
            None => bracketed_paste_spec(text@, after_attachments) is None,
        },
{
    let body = chars_of(text);
    if body.len() == 0 {
        return None;
    }
    let mut out = chars_of("\u{1b}[200~");
    if after_attachments {
        push_str(&mut out, "\n");
    }
    crate::text::append_chars(&mut out, body.as_slice());
    push_str(&mut out, "\u{1b}[201~");
    proof {
        let nl = if after_attachments {
            "\n"@
        } else {
            Seq::<char>::empty()
        };
        assert(out@ =~= "\u{1b}[200~"@ + nl + text@ + "\u{1b}[201~"@);
    }
    Some(string_of(out.as_slice()))
}

// ---------------------------------------------------------------- clipboard

/// Why a tmux buffer is being fetched.
#[derive(PartialEq, Eq, Structural, Clone, Copy, Debug)]
pub enum ClipRoute {
    /// A mouse gesture that may have made a selection.
    Selection,
    /// An explicit copy: copy-mode `y`, or an OSC 52 sent by the pane.
    ExplicitCopy,
}

/// How old, in nanoseconds, a buffer may be for a gesture to claim it.
pub open spec fn selection_max_age_nanos() -> u128 {
    5_000_000_000
}

/// Whether a fetched tmux buffer reaches the local clipboard, and what the
/// change tracker holds afterwards: a gesture only takes a buffer made in
/// the last five seconds; a buffer equal to the last one published is not
/// published again; a route without a tracker always publishes.
pub open spec fn clipboard_decision_spec(route: ClipRoute, age_nanos: u128, hash: u64, seen: Option<
    u64,
>) -> (bool, Option<u64>) {
    if route == ClipRoute::Selection && age_nanos > selection_max_age_nanos() {
        (false, seen)
    } else {
        match seen {
            Some(last) => (last != hash, Some(hash)),
            None => (true, None),
        }
    }
}

/// Whether to publish a fetched tmux buffer, and the tracker's new value.
pub fn clipboard_decision(route: ClipRoute, age_nanos: u128, hash: u64, seen: Option<u64>) -> (r: (
    bool,
    Option<u64>,
))
    ensures
        r == clipboard_decision_spec(route, age_nanos, hash, seen),
{
    let selection = match route {
        ClipRoute::Selection => true,
        ClipRoute::ExplicitCopy => false,
    };
    if selection && age_nanos > 5_000_000_000 {
        return (false, seen);
    }
    match seen {
        Some(last) => (last != hash, Some(hash)),
        None => (true, None),
    }
}

/// A buffer already published is not published again while nothing else
/// was: deciding twice on the same buffer publishes at most once.
pub proof fn law_same_buffer_publishes_once(route: ClipRoute, age_nanos: u128, hash: u64, seen: Option<u64>)
    requires
        seen is Some,
    ensures
        ({
            let (_, after) = clipboard_decision_spec(route, age_nanos, hash, seen);
            !clipboard_decision_spec(route, age_nanos, hash, after).0
        }),
{
}

// ---------------------------------------------------------------- numbered switching

/// The running processes of all projects, project after project.
pub open spec fn flattened(groups: Seq<Seq<Seq<char>>>) -> Seq<Seq<char>>
    decreases groups.len(),
{
    if groups.len() == 0 {
        seq![]
    } else {
        flattened(groups.drop_last()) + groups.last()
    }
}

/// The views of nested lists of strings.
pub open spec fn group_views(v: Seq<Vec<String>>) -> Seq<Seq<Seq<char>>> {
    v.map_values(|g: Vec<String>| string_views(g@))
}

/// The `n`-th running process over all projects, as (project, position in
/// the project), counting from zero.
pub fn nth_in_groups(groups: &[Vec<String>], n: usize) -> (r: Option<(usize, usize)>)
    ensures
        match r {
            Some((g, i)) => {
                &&& g < groups@.len()
                &&& i < groups@[g as int]@.len()
                &&& flattened(group_views(groups@.take(g as int))).len() + i == n
            },
            None => flattened(group_views(groups@)).len() <= n,
        },
{
    let ghost gv = group_views(groups@);
    let mut seen: usize = 0;
    let mut g: usize = 0;
    while g < groups.len()
        invariant
            g <= groups@.len(),
            gv == group_views(groups@),
            seen == flattened(gv.take(g as int)).len(),
            seen <= n,
        decreases groups@.len() - g,
    {
        assert(gv.take(g + 1).drop_last() =~= gv.take(g as int));
        assert(gv.take(g + 1).last() == string_views(groups@[g as int]@));
        let len = groups[g].len();
        if n - seen < len {
            assert(gv.take(g as int) == group_views(groups@.take(g as int)));
            return Some((g, n - seen));
        }
        seen = seen + len;
        g = g + 1;
    }
    assert(gv.take(g as int) =~= gv);
    None
}

// ---------------------------------------------------------------- switching

/// The position `delta` steps from `current` in a ring of `len` places.
pub open spec fn cycle_index(current: int, delta: int, len: int) -> int {
    (current + delta) % len
}

/// `x.rem_euclid(l)` for a negative `x`, from the remainder of `-x`.
proof fn lemma_negative_rem_euclid(x: int, l: int, m: int)
    requires
        l > 0,
        x < 0,
        m == (-x) % l,
    ensures
        x % l == (if m == 0 {
            0
        } else {
            l - m
        }),
{
    let q = (-x) / l;
    vstd::arithmetic::div_mod::lemma_fundamental_div_mod(-x, l);
    vstd::arithmetic::mul::lemma_mul_unary_negation(l, q);
    assert(0 <= m < l) by {
        vstd::arithmetic::div_mod::lemma_mod_bound(-x, l);
    }
    if m == 0 {
        assert(x == l * (-q) + 0);
        vstd::arithmetic::div_mod::lemma_mod_multiples_vanish(-q, 0, l);
    } else {
        vstd::arithmetic::mul::lemma_mul_is_distributive_add(l, -q, -1);
        vstd::arithmetic::mul::lemma_mul_unary_negation(l, 1);
        assert(x == l * (-q - 1) + (l - m));
        vstd::arithmetic::div_mod::lemma_mod_multiples_vanish(-q - 1, l - m, l);
        vstd::arithmetic::div_mod::lemma_small_mod((l - m) as nat, l as nat);
    }
}

/// `(current as i32 + delta).rem_euclid(len as i32) as usize`.
pub fn relative_index(current: usize, delta: i32, len: usize) -> (r: usize)
    requires
        0 < len <= i32::MAX,
        current < len,
        i32::MIN <= current + delta <= i32::MAX,
    ensures
        r == cycle_index(current as int, delta as int, len as int),
        r < len,
{
    let x: i64 = current as i64 + delta as i64;
    let l: i64 = len as i64;
    if x >= 0 {
        let r: i64 = x % l;
        r as usize
    } else {
        let m: i64 = (-x) % l;
        proof {
            lemma_negative_rem_euclid(x as int, l as int, m as int);
        }
        if m == 0 {
            0
        } else {
            (l - m) as usize
        }
    }
}

/// Stepping `delta` places and then `-delta` places comes back to where
/// it started.
pub proof fn law_switch_step_back(current: int, delta: int, len: int)
    requires
        0 < len,
        0 <= current < len,
    ensures
        cycle_index(cycle_index(current, delta, len), -delta, len) == current,
{
    let a = (current + delta) % len;
    let q = (current + delta) / len;
    vstd::arithmetic::div_mod::lemma_fundamental_div_mod(current + delta, len);
    assert(a - delta == len * (-q) + current) by {
        vstd::arithmetic::mul::lemma_mul_unary_negation(len, q);
    }
    vstd::arithmetic::div_mod::lemma_mod_multiples_vanish(-q, current, len);
    vstd::arithmetic::div_mod::lemma_small_mod(current as nat, len as nat);
}

/// Where a step of `delta` from the selected entry lands in `names`: the
/// selection counts as the first entry when it is not in the list, and
/// nothing is selected when the list is empty.
pub open spec fn switch_target_spec(names: Seq<Seq<char>>, current: Option<Seq<char>>, delta: int)
    -> Option<int> {
    if names.len() == 0 {
        None
    } else {
        let from = match current {
            Some(c) => match index_of(names, c) {
                Some(i) => i,
                None => 0,
            },
            None => 0,
        };
        Some(cycle_index(from, delta, names.len() as int))
    }
}

/// The entry of `names` that a step of `delta` from `current` selects.
pub fn switch_target(names: &[String], current: Option<&str>, delta: i32) -> (r: Option<usize>)
    requires
        names@.len() <= i32::MAX,
        names@.len() + delta <= i32::MAX,
        i32::MIN <= delta,
    ensures
        match r {
            Some(i) => switch_target_spec(
                string_views(names@),
                match current {
                    Some(c) => Some(c@),
                    None => None,
                },
                delta as int,
            ) == Some(i as int) && i < names@.len(),
            None => names@.len() == 0,
        },
{
    if names.len() == 0 {
        return None;
    }
    let from = match current {
        Some(c) => match position_of(names, c) {
            Some(i) => i,
            None => 0,
        },
        None => 0,
    };
    Some(relative_index(from, delta, names.len()))
}

/// The project part of a qualified process name `project::process`.
pub open spec fn project_of_spec(qname: Seq<char>) -> Option<Seq<char>> {
    match find_str(qname, "::"@) {
        Some(p) => Some(qname.take(p)),
        None => None,
    }
}

/// `qname.split_once("::").map(|(project, _)| project)`.
pub fn project_of(qname: &str) -> (r: Option<String>)
    ensures
        match r {
            Some(s) => project_of_spec(qname@) == Some(s@),
            None => project_of_spec(qname@) is None,
        },
{
    let q = chars_of(qname);
    let sep = chars_of("::");
    match find_infix(q.as_slice(), sep.as_slice()) {
        Some(p) => {
            assert(q@.subrange(0, p as int) =~= q@.take(p as int));
            let head = slice_of(q.as_slice(), 0, p);
            Some(string_of(head.as_slice()))
        },
        None => None,
    }
}

} // verus!
