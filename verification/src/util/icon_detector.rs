//! Where a project keeps its icon: the file names to probe, in priority
//! order, and the choice among those a project directory holds.
use vstd::prelude::*;
use crate::text::chars_of;

verus! {

broadcast use vstd::string::group_string_axioms;

/// Common icon file locations to check in a project directory, ordered by
/// priority. Entries with a `*` are glob patterns.
pub open spec fn candidates_spec() -> Seq<Seq<char>> {
    seq![
        "logo.svg"@,
        "logo.png"@,
        "logo.webp"@,
        "icon.svg"@,
        "icon.png"@,
        "icon.webp"@,
        "public/logo.svg"@,
        "public/logo.png"@,
        "public/logo.webp"@,
        "public/favicon.svg"@,
        "public/favicon.png"@,
        "public/favicon.webp"@,
        "public/favicon.ico"@,
        "public/img/favicon.svg"@,
        "public/img/favicon.png"@,
        "public/img/favicon.webp"@,
        "public/img/favicon.ico"@,
        "public/icon.svg"@,
        "public/icon.png"@,
        "public/icon.webp"@,
        "static/logo.svg"@,
        "static/logo.png"@,
        "static/logo.webp"@,
        "static/favicon.svg"@,
        "static/favicon.png"@,
        "static/favicon.webp"@,
        "static/favicon.ico"@,
        "assets/logo.svg"@,
        "assets/logo.png"@,
        "assets/logo.webp"@,
        "assets/icon.svg"@,
        "assets/icon.png"@,
        "assets/icon.webp"@,
        "assets/favicon.svg"@,
        "assets/favicon.png"@,
        "assets/favicon.webp"@,
        "assets/favicon.ico"@,
        "assets/icon.ico"@,
        "src-tauri/icons/icon.png"@,
        "src-tauri/icons/icon.ico"@,
        "build/icon.png"@,
        "data/icons/hicolor/scalable/apps/*.svg"@,
        "data/icons/hicolor/256x256/apps/*.png"@,
        ".github/logo.svg"@,
        ".github/logo.png"@,
        ".github/icon.svg"@,
        ".github/icon.png"@,
    ]
}

/// The icon candidates, in priority order.
pub fn candidates() -> (r: Vec<&'static str>)
    ensures
        r@.map_values(|s: &'static str| s@) == candidates_spec(),
{
    let r = vec![
        "logo.svg",
        "logo.png",
        "logo.webp",
        "icon.svg",
        "icon.png",
        "icon.webp",
        "public/logo.svg",
        "public/logo.png",
        "public/logo.webp",
        "public/favicon.svg",
        "public/favicon.png",
        "public/favicon.webp",
        "public/favicon.ico",
        "public/img/favicon.svg",
        "public/img/favicon.png",
        "public/img/favicon.webp",
        "public/img/favicon.ico",
        "public/icon.svg",
        "public/icon.png",
        "public/icon.webp",
        "static/logo.svg",
        "static/logo.png",
        "static/logo.webp",
        "static/favicon.svg",
        "static/favicon.png",
        "static/favicon.webp",
        "static/favicon.ico",
        "assets/logo.svg",
        "assets/logo.png",
        "assets/logo.webp",
        "assets/icon.svg",
        "assets/icon.png",
        "assets/icon.webp",
        "assets/favicon.svg",
        "assets/favicon.png",
        "assets/favicon.webp",
        "assets/favicon.ico",
        "assets/icon.ico",
        "src-tauri/icons/icon.png",
        "src-tauri/icons/icon.ico",
        "build/icon.png",
        "data/icons/hicolor/scalable/apps/*.svg",
        "data/icons/hicolor/256x256/apps/*.png",
        ".github/logo.svg",
        ".github/logo.png",
        ".github/icon.svg",
        ".github/icon.png",
    ];
    assert(r@.map_values(|s: &'static str| s@) =~= candidates_spec());
    r
}

/// A candidate that is a glob pattern.
pub open spec fn is_glob(s: Seq<char>) -> bool {
    s.contains('*')
}

pub fn is_glob_pattern(s: &str) -> (r: bool)
    ensures
        r == is_glob(s@),
{
    let c = chars_of(s);
    let mut i: usize = 0;
    while i < c.len()
        invariant
            i <= c@.len(),
            c@ == s@,
            forall|j: int| 0 <= j < i ==> c@[j] != '*',
        decreases c@.len() - i,
    {
        if c[i] == '*' {
            assert(c@[i as int] == '*');
            return true;
        }
        i = i + 1;
    }
    false
}

/// The candidates that are plain paths, in order.
pub open spec fn plain_of(s: Seq<Seq<char>>) -> Seq<Seq<char>>
    decreases s.len(),
{
    if s.len() == 0 {
        seq![]
    } else if is_glob(s.last()) {
        plain_of(s.drop_last())
    } else {
        plain_of(s.drop_last()).push(s.last())
    }
}

/// The plain-path candidates — what a remote file system can be asked
/// about (it has no glob support).
pub fn plain_candidates() -> (r: Vec<&'static str>)
    ensures
        r@.map_values(|s: &'static str| s@) == plain_of(candidates_spec()),
{
    let all = candidates();
    let mut out: Vec<&'static str> = Vec::new();
    let mut i: usize = 0;
    while i < all.len()
        invariant
            i <= all@.len(),
            all@.map_values(|s: &'static str| s@) == candidates_spec(),
            out@.map_values(|s: &'static str| s@) == plain_of(candidates_spec().take(i as int)),
        decreases all@.len() - i,
    {
        proof {
            let t = candidates_spec().take(i + 1);
            assert(t.drop_last() =~= candidates_spec().take(i as int));
            assert(t.last() == all@[i as int]@);
        }
        if !is_glob_pattern(all[i]) {
            let ghost before = out@;
            out.push(all[i]);
            assert(out@.map_values(|s: &'static str| s@) =~= before.map_values(
                |s: &'static str| s@,
            ).push(all@[i as int]@));
        }
        i = i + 1;
    }
    assert(candidates_spec().take(all@.len() as int) =~= candidates_spec());
    out
}

/// The entries of `cands` whose flag in `present` is set, pairing them in
/// order and stopping at the shorter of the two (`zip`, then `filter`).
pub open spec fn selected(cands: Seq<Seq<char>>, present: Seq<bool>) -> Seq<Seq<char>>
    decreases cands.len(),
{
    if cands.len() == 0 || present.len() == 0 {
        seq![]
    } else if present[0] {
        seq![cands[0]] + selected(cands.drop_first(), present.drop_first())
    } else {
        selected(cands.drop_first(), present.drop_first())
    }
}

proof fn lemma_selected_step(cands: Seq<Seq<char>>, present: Seq<bool>, i: int)
    requires
        0 <= i < cands.len(),
        i < present.len(),
    ensures
        selected(cands.take(i + 1), present.take(i + 1)) == selected(
            cands.take(i),
            present.take(i),
        ) + (if present[i] {
            seq![cands[i]]
        } else {
            seq![]
        }),
    decreases i,
{
    if i > 0 {
        let c1 = cands.drop_first();
        let p1 = present.drop_first();
        lemma_selected_step(c1, p1, i - 1);
        assert(cands.take(i + 1).drop_first() =~= c1.take(i));
        assert(present.take(i + 1).drop_first() =~= p1.take(i));
        assert(cands.take(i).drop_first() =~= c1.take(i - 1));
        assert(present.take(i).drop_first() =~= p1.take(i - 1));
        let head: Seq<Seq<char>> = if present[0] {
            seq![cands[0]]
        } else {
            seq![]
        };
        let tail: Seq<Seq<char>> = if present[i] {
            seq![cands[i]]
        } else {
            seq![]
        };
        assert(p1[i - 1] == present[i]);
        assert(c1[i - 1] == cands[i]);
        let mid = selected(c1.take(i - 1), p1.take(i - 1));
        assert(selected(cands.take(i + 1), present.take(i + 1)) =~= head + (mid + tail));
        assert(selected(cands.take(i), present.take(i)) =~= head + mid);
        assert(head + (mid + tail) =~= (head + mid) + tail);
    } else {
        let c = cands.take(1);
        let p = present.take(1);
        assert(c.drop_first() =~= Seq::<Seq<char>>::empty());
        assert(p[0] == present[0]);
        assert(c[0] == cands[0]);
        assert(selected(c.drop_first(), p.drop_first()) == Seq::<Seq<char>>::empty());
        assert(selected(cands.take(0), present.take(0)) == Seq::<Seq<char>>::empty());
        if present[0] {
            assert(selected(c, p) =~= seq![cands[0]]);
        } else {
            assert(selected(c, p) =~= Seq::<Seq<char>>::empty());
        }
        assert(Seq::<Seq<char>>::empty() + seq![cands[0]] =~= seq![cands[0]]);
        assert(Seq::<Seq<char>>::empty() + Seq::<Seq<char>>::empty() =~= Seq::<Seq<char>>::empty());
    }
}

proof fn lemma_selected_take(cands: Seq<Seq<char>>, present: Seq<bool>, n: int)
    requires
        n == cands.len() || n == present.len(),
        n <= cands.len(),
        n <= present.len(),
    ensures
        selected(cands.take(n), present.take(n)) == selected(cands, present),
    decreases n,
{
    if n > 0 {
        lemma_selected_take(cands.drop_first(), present.drop_first(), n - 1);
        assert(cands.take(n).drop_first() =~= cands.drop_first().take(n - 1));
        assert(present.take(n).drop_first() =~= present.drop_first().take(n - 1));
    } else {
        if cands.len() > 0 {
            assert(present.len() == 0);
        }
    }
}

/// The plain-path candidates whose flag in `present` is set, in priority
/// order — `present` holding the answers of a file system to
/// [`plain_candidates`].
pub fn select_present(present: &[bool]) -> (r: Vec<&'static str>)
    ensures
        r@.map_values(|s: &'static str| s@) == selected(plain_of(candidates_spec()), present@),
{
    let cands = plain_candidates();
    let ghost cs = plain_of(candidates_spec());
    let mut out: Vec<&'static str> = Vec::new();
    let mut i: usize = 0;
    while i < cands.len() && i < present.len()
        invariant
            i <= cands@.len(),
            i <= present@.len(),
            cands@.map_values(|s: &'static str| s@) == cs,
            out@.map_values(|s: &'static str| s@) == selected(cs.take(i as int), present@.take(i as int)),
        decreases cands@.len() - i,
    {
        proof {
            lemma_selected_step(cs, present@, i as int);
        }
        if present[i] {
            let ghost before = out@;
            out.push(cands[i]);
            assert(out@.map_values(|s: &'static str| s@) =~= before.map_values(
                |s: &'static str| s@,
            ) + seq![cs[i as int]]);
        } else {
            assert(selected(cs.take(i as int), present@.take(i as int)) + Seq::<Seq<char>>::empty()
                =~= selected(cs.take(i as int), present@.take(i as int)));
        }
        i = i + 1;
    }
    proof {
        lemma_selected_take(cs, present@, i as int);
    }
    out
}

proof fn lemma_selected_members(cands: Seq<Seq<char>>, present: Seq<bool>)
    ensures
        selected(cands, present).len() <= cands.len(),
        forall|x: Seq<char>| #[trigger] selected(cands, present).contains(x) ==> cands.contains(x),
        forall|i: int|
            0 <= i < cands.len() && i < present.len() && present[i] ==> selected(
                cands,
                present,
            ).contains(#[trigger] cands[i]),
    decreases cands.len(),
{
    if cands.len() > 0 && present.len() > 0 {
        let rest = selected(cands.drop_first(), present.drop_first());
        lemma_selected_members(cands.drop_first(), present.drop_first());
        assert forall|x: Seq<char>| #[trigger] selected(cands, present).contains(x) implies cands.contains(x) by {
            if rest.contains(x) {
                let j = choose|j: int| 0 <= j < cands.drop_first().len() && cands.drop_first()[j] == x;
                assert(cands[j + 1] == x);
            } else {
                assert(x == cands[0]);
            }
        }
        assert forall|i: int|
            0 <= i < cands.len() && i < present.len() && present[i] implies selected(
                cands,
                present,
            ).contains(#[trigger] cands[i]) by {
            if i == 0 {
                assert(selected(cands, present)[0] == cands[0]);
            } else {
                assert(cands.drop_first()[i - 1] == cands[i]);
                assert(present.drop_first()[i - 1] == present[i]);
                let j = choose|j: int| 0 <= j < rest.len() && rest[j] == cands[i];
                if present[0] {
                    assert(selected(cands, present)[j + 1] == cands[i]);
                } else {
                    assert(selected(cands, present)[j] == cands[i]);
                }
            }
        }
    }
}

proof fn lemma_plain_of_members(s: Seq<Seq<char>>)
    ensures
        forall|x: Seq<char>| #[trigger] plain_of(s).contains(x) ==> s.contains(x) && !is_glob(x),
    decreases s.len(),
{
    if s.len() > 0 {
        lemma_plain_of_members(s.drop_last());
        assert forall|x: Seq<char>| #[trigger] plain_of(s).contains(x) implies s.contains(x) && !is_glob(x) by {
            if plain_of(s.drop_last()).contains(x) {
                let j = choose|j: int| 0 <= j < s.drop_last().len() && s.drop_last()[j] == x;
                assert(s[j] == x);
            } else {
                assert(x == s.last());
                assert(s[s.len() - 1] == x);
            }
        }
    }
}

/// What icon detection reports, whatever the file system answered: only
/// plain (non-glob) candidates, at most one per candidate, and every
/// candidate whose answer was "present".
pub proof fn law_detected_icons_are_plain_candidates(present: Seq<bool>)
    ensures
        selected(plain_of(candidates_spec()), present).len() <= plain_of(candidates_spec()).len(),
        forall|x: Seq<char>| #[trigger]
            selected(plain_of(candidates_spec()), present).contains(x) ==> candidates_spec().contains(
                x,
            ) && !is_glob(x),
        forall|i: int|
            0 <= i < plain_of(candidates_spec()).len() && i < present.len() && present[i]
                ==> selected(plain_of(candidates_spec()), present).contains(
                #[trigger] plain_of(candidates_spec())[i],
            ),
{
    lemma_selected_members(plain_of(candidates_spec()), present);
    lemma_plain_of_members(candidates_spec());
}

/// A project's file system, local or behind an ssh connection.
pub trait ProjectFs {
    /// For each relative path, whether it names a non-empty regular file.
    fn exists_many_nonempty(&self, paths: &[&str]) -> Vec<bool>;
}

/// Find project icons over a [`ProjectFs`] — the remote-capable variant.
/// Glob candidates are skipped; everything else is checked in one batched
/// round trip. Returns every present, non-empty match in priority order.
pub fn detect_icons_fs<F: ProjectFs>(fs: &F) -> (r: Vec<&'static str>)
    ensures
        exists|present: Seq<bool>|
            r@.map_values(|s: &'static str| s@) == selected(plain_of(candidates_spec()), present),
{
    let cands = plain_candidates();
    let present = fs.exists_many_nonempty(cands.as_slice());
    select_present(present.as_slice())
}

/// Icon files the project editor looks for, in priority order.
pub open spec fn project_icon_candidates_spec() -> Seq<Seq<char>> {
    seq![
        "favicon.svg"@,
        "favicon.png"@,
        "favicon.ico"@,
        "logo.svg"@,
        "logo.png"@,
        ".icon.png"@,
        ".icon.svg"@,
        "public/favicon.svg"@,
        "public/favicon.png"@,
        "public/favicon.ico"@,
        "public/logo.svg"@,
        "public/logo.png"@,
        "resources/icon.svg"@,
        "resources/icon.png"@,
        "assets/icon.svg"@,
        "assets/icon.png"@,
    ]
}

pub fn project_icon_candidates() -> (r: Vec<&'static str>)
    ensures
        r@.map_values(|s: &'static str| s@) == project_icon_candidates_spec(),
{
    let r = vec![
        "favicon.svg",
        "favicon.png",
        "favicon.ico",
        "logo.svg",
        "logo.png",
        ".icon.png",
        ".icon.svg",
        "public/favicon.svg",
        "public/favicon.png",
        "public/favicon.ico",
        "public/logo.svg",
        "public/logo.png",
        "resources/icon.svg",
        "resources/icon.png",
        "assets/icon.svg",
        "assets/icon.png",
    ];
    assert(r@.map_values(|s: &'static str| s@) =~= project_icon_candidates_spec());
    r
}

} // verus!
