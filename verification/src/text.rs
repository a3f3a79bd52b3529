//! Character-level text handling: the whitespace, line and word rules of
//! Rust's `str`, stated as spec functions over `Seq<char>`, and executable
//! functions that are proved to follow them.
use vstd::prelude::*;

verus! {

broadcast use vstd::string::group_string_axioms;

// ---------------------------------------------------------------- chars

/// Unicode `White_Space`, the property `char::is_whitespace` tests.
pub open spec fn is_ws(c: char) -> bool {
    let u = c as u32;
    ||| (9 <= u && u <= 13) || u == 32
    ||| u == 0x85 || u == 0xA0 || u == 0x1680
    ||| (0x2000 <= u && u <= 0x200A)
    ||| u == 0x2028 || u == 0x2029 || u == 0x202F || u == 0x205F || u == 0x3000
}

pub fn is_ws_char(c: char) -> (r: bool)
    ensures
        r == is_ws(c),
{
    let u = c as u32;
    (9 <= u && u <= 13) || u == 32 || u == 0x85 || u == 0xA0 || u == 0x1680 || (0x2000 <= u
        && u <= 0x200A) || u == 0x2028 || u == 0x2029 || u == 0x202F || u == 0x205F || u == 0x3000
}

pub open spec fn is_ascii_upper(c: char) -> bool {
    65 <= (c as u32) && (c as u32) <= 90
}

/// `char::to_ascii_lowercase`.
pub open spec fn lower_char(c: char) -> char {
    if is_ascii_upper(c) {
        ((c as u32) + 32) as char
    } else {
        c
    }
}

/// `str::to_ascii_lowercase`.
pub open spec fn lower(s: Seq<char>) -> Seq<char> {
    s.map_values(|c: char| lower_char(c))
}

pub fn lower_char_exec(c: char) -> (r: char)
    ensures
        r == lower_char(c),
{
    let u = c as u32;
    if 65 <= u && u <= 90 {
        let b: u8 = (u + 32) as u8;
        b as char
    } else {
        c
    }
}

pub fn lower_of(s: &[char]) -> (r: Vec<char>)
    ensures
        r@ == lower(s@),
{
    let mut out: Vec<char> = Vec::new();
    let mut i: usize = 0;
    while i < s.len()
        invariant
            i <= s@.len(),
            out@ =~= lower(s@.take(i as int)),
        decreases s@.len() - i,
    {
        out.push(lower_char_exec(s[i]));
        i = i + 1;
        assert(lower(s@.take(i as int)) =~= lower(s@.take((i - 1) as int)).push(lower_char(s@[i - 1])));
    }
    assert(s@.take(s@.len() as int) =~= s@);
    out
}

pub open spec fn is_digit(c: char) -> bool {
    48 <= (c as u32) && (c as u32) <= 57
}

pub fn is_digit_char(c: char) -> (r: bool)
    ensures
        r == is_digit(c),
{
    let u = c as u32;
    48 <= u && u <= 57
}

// ---------------------------------------------------------------- infixes

/// `p` occurs in `s` starting at position `i`.
pub open spec fn occurs_at(s: Seq<char>, p: Seq<char>, i: int) -> bool {
    0 <= i && i + p.len() <= s.len() && s.subrange(i, i + p.len()) == p
}

/// `str::contains` with a string pattern.
pub open spec fn has_infix(s: Seq<char>, p: Seq<char>) -> bool {
    exists|i: int| #[trigger] occurs_at(s, p, i)
}

/// A piece of a concatenation occurs in it, after what precedes it.
pub proof fn lemma_infix_of_concat(a: Seq<char>, p: Seq<char>, b: Seq<char>)
    ensures
        has_infix(a + p + b, p),
        occurs_at(a + p + b, p, a.len() as int),
{
    assert((a + p + b).subrange(a.len() as int, (a.len() + p.len()) as int) =~= p);
    assert(occurs_at(a + p + b, p, a.len() as int));
}

/// `str::starts_with` with a string pattern.
pub open spec fn starts_with(s: Seq<char>, p: Seq<char>) -> bool {
    p.len() <= s.len() && s.take(p.len() as int) == p
}

/// The first position at which `p` occurs in `s` (`str::find`).
pub open spec fn find_str(s: Seq<char>, p: Seq<char>) -> Option<int>
    decreases s.len(),
{
    if p.len() > s.len() {
        None
    } else if s.take(p.len() as int) == p {
        Some(0)
    } else if s.len() == 0 {
        None
    } else {
        match find_str(s.drop_first(), p) {
            Some(i) => Some(i + 1),
            None => None,
        }
    }
}

proof fn lemma_occurs_drop_first(s: Seq<char>, p: Seq<char>, j: int)
    requires
        s.len() > 0,
        0 <= j,
    ensures
        occurs_at(s.drop_first(), p, j) == occurs_at(s, p, j + 1),
{
    if 0 <= j && j + p.len() <= s.len() - 1 {
        assert(s.drop_first().subrange(j, j + p.len()) =~= s.subrange(j + 1, j + 1 + p.len()));
    }
}

/// `find_str` is the least position at which `p` occurs.
pub proof fn lemma_find_str(s: Seq<char>, p: Seq<char>, k: int)
    requires
        0 <= k,
        forall|j: int| 0 <= j < k ==> !occurs_at(s, p, j),
        occurs_at(s, p, k) || k + p.len() > s.len(),
    ensures
        occurs_at(s, p, k) ==> find_str(s, p) == Some(k),
        !occurs_at(s, p, k) ==> find_str(s, p) is None,
    decreases s.len(),
{
    if p.len() > s.len() {
    } else if s.take(p.len() as int) == p {
        assert(s.subrange(0, p.len() as int) =~= s.take(p.len() as int));
        assert(occurs_at(s, p, 0));
        if k > 0 {
            assert(!occurs_at(s, p, 0));
        }
    } else {
        assert(s.subrange(0, p.len() as int) =~= s.take(p.len() as int));
        assert(!occurs_at(s, p, 0));
        if s.len() > 0 {
            assert(k > 0) by {
                if k == 0 {
                    assert(!occurs_at(s, p, 0));
                }
            }
            assert forall|j: int| 0 <= j < k - 1 implies !occurs_at(s.drop_first(), p, j) by {
                lemma_occurs_drop_first(s, p, j);
            }
            lemma_occurs_drop_first(s, p, k - 1);
            lemma_find_str(s.drop_first(), p, k - 1);
        }
    }
}

/// `p` occurs in `s` exactly when `find_str` finds it, at an occurrence.
pub proof fn lemma_find_str_some(s: Seq<char>, p: Seq<char>)
    ensures
        has_infix(s, p) <==> find_str(s, p) is Some,
        find_str(s, p) matches Some(i) ==> occurs_at(s, p, i),
    decreases s.len(),
{
    if p.len() > s.len() {
        assert forall|i: int| !occurs_at(s, p, i) by {}
    } else if s.take(p.len() as int) == p {
        assert(s.subrange(0, p.len() as int) =~= s.take(p.len() as int));
        assert(occurs_at(s, p, 0));
    } else if s.len() == 0 {
        assert(p.len() == 0);
        assert(s.take(0) =~= p);
    } else {
        assert(s.subrange(0, p.len() as int) =~= s.take(p.len() as int));
        lemma_find_str_some(s.drop_first(), p);
        if has_infix(s, p) {
            let i = choose|i: int| occurs_at(s, p, i);
            assert(i != 0);
            lemma_occurs_drop_first(s, p, i - 1);
            assert(occurs_at(s.drop_first(), p, i - 1));
        }
        match find_str(s.drop_first(), p) {
            Some(j) => {
                lemma_occurs_drop_first(s, p, j);
            },
            None => {},
        }
    }
}

pub fn occurs_at_exec(s: &[char], p: &[char], i: usize) -> (r: bool)
    ensures
        r == occurs_at(s@, p@, i as int),
{
    if i > s.len() || p.len() > s.len() - i {
        return false;
    }
    let mut k: usize = 0;
    while k < p.len()
        invariant
            i + p@.len() <= s@.len(),
            s@.len() <= usize::MAX,
            k <= p@.len(),
            forall|m: int| 0 <= m < k ==> s@[i + m] == p@[m],
        decreases p@.len() - k,
    {
        if s[i + k] != p[k] {
            assert(s@.subrange(i as int, i + p@.len())[k as int] != p@[k as int]);
            return false;
        }
        k = k + 1;
    }
    assert(s@.subrange(i as int, i + p@.len()) =~= p@);
    true
}

/// The first occurrence of `p` in `s`, if any.
pub fn find_infix(s: &[char], p: &[char]) -> (r: Option<usize>)
    ensures
        match r {
            Some(i) => occurs_at(s@, p@, i as int) && find_str(s@, p@) == Some(i as int),
            None => !has_infix(s@, p@) && find_str(s@, p@) is None,
        },
{
    if p.len() > s.len() {
        assert forall|i: int| !occurs_at(s@, p@, i) by {}
        proof {
            lemma_find_str_some(s@, p@);
        }
        return None;
    }
    if p.len() == 0 {
        proof {
            assert(s@.subrange(0, 0) =~= p@);
            lemma_find_str(s@, p@, 0);
        }
        return Some(0);
    }
    let mut i: usize = 0;
    while i <= s.len() && p.len() <= s.len() - i
        invariant
            i <= s@.len(),
            p@.len() > 0,
            forall|j: int| 0 <= j < i ==> !occurs_at(s@, p@, j),
        decreases s@.len() - i,
    {
        if occurs_at_exec(s, p, i) {
            proof {
                lemma_find_str(s@, p@, i as int);
            }
            return Some(i);
        }
        i = i + 1;
    }
    assert forall|j: int| !occurs_at(s@, p@, j) by {
        if 0 <= j < i {
        }
    }
    proof {
        lemma_find_str_some(s@, p@);
    }
    None
}

/// The last position at which `p` occurs in `s` (`str::rfind`).
pub open spec fn rfind_str(s: Seq<char>, p: Seq<char>) -> Option<int>
    decreases s.len(),
{
    if s.len() < p.len() || s.len() == 0 {
        None
    } else if occurs_at(s, p, s.len() - p.len()) {
        Some(s.len() - p.len())
    } else {
        rfind_str(s.drop_last(), p)
    }
}

/// The last occurrence of a non-empty `p` in `s`, if any.
pub fn rfind_infix(s: &[char], p: &[char]) -> (r: Option<usize>)
    requires
        p@.len() > 0,
    ensures
        match r {
            Some(i) => rfind_str(s@, p@) == Some(i as int) && i + p@.len() <= s@.len(),
            None => rfind_str(s@, p@) is None,
        },
{
    let mut e: usize = s.len();
    assert(s@.take(e as int) =~= s@);
    while e >= p.len()
        invariant
            e <= s@.len(),
            p@.len() > 0,
            rfind_str(s@, p@) == rfind_str(s@.take(e as int), p@),
        decreases e,
    {
        let i = e - p.len();
        let hit = occurs_at_exec(s, p, i);
        assert(s@.take(e as int).subrange(i as int, e as int) =~= s@.subrange(i as int, e as int));
        if hit {
            return Some(i);
        }
        assert(s@.take(e as int).drop_last() =~= s@.take(e - 1));
        e = e - 1;
    }
    None
}

pub fn contains_infix(s: &[char], p: &[char]) -> (r: bool)
    ensures
        r == has_infix(s@, p@),
{
    match find_infix(s, p) {
        Some(i) => {
            assert(occurs_at(s@, p@, i as int));
            true
        },
        None => false,
    }
}

pub fn starts_with_exec(s: &[char], p: &[char]) -> (r: bool)
    ensures
        r == starts_with(s@, p@),
{
    let r = occurs_at_exec(s, p, 0);
    proof {
        if p@.len() <= s@.len() {
            assert(s@.subrange(0, p@.len() as int) =~= s@.take(p@.len() as int));
        }
    }
    r
}

// ---------------------------------------------------------------- trimming

/// `s` without trailing characters satisfying `f` (`trim_end_matches`).
pub open spec fn trim_end_by(s: Seq<char>, f: spec_fn(char) -> bool) -> Seq<char>
    decreases s.len(),
{
    if s.len() > 0 && f(s.last()) {
        trim_end_by(s.drop_last(), f)
    } else {
        s
    }
}

/// `s` without leading characters satisfying `f` (`trim_start_matches`).
pub open spec fn trim_start_by(s: Seq<char>, f: spec_fn(char) -> bool) -> Seq<char>
    decreases s.len(),
{
    if s.len() > 0 && f(s[0]) {
        trim_start_by(s.drop_first(), f)
    } else {
        s
    }
}

/// `trim_matches`: both ends.
pub open spec fn trim_by(s: Seq<char>, f: spec_fn(char) -> bool) -> Seq<char> {
    trim_end_by(trim_start_by(s, f), f)
}

pub open spec fn ws_pred() -> spec_fn(char) -> bool {
    |c: char| is_ws(c)
}

/// `str::trim_end`.
pub open spec fn trim_end(s: Seq<char>) -> Seq<char> {
    trim_end_by(s, ws_pred())
}

/// `str::trim_start`.
pub open spec fn trim_start(s: Seq<char>) -> Seq<char> {
    trim_start_by(s, ws_pred())
}

/// `str::trim`.
pub open spec fn trim(s: Seq<char>) -> Seq<char> {
    trim_by(s, ws_pred())
}

pub proof fn lemma_trim_end_take(s: Seq<char>, f: spec_fn(char) -> bool, k: int)
    requires
        0 <= k <= s.len(),
        forall|m: int| k <= m < s.len() ==> f(s[m]),
    ensures
        trim_end_by(s, f) == trim_end_by(s.take(k), f),
    decreases s.len() - k,
{
    if k < s.len() {
        assert(s.drop_last() =~= s.drop_last().take(s.len() - 1));
        lemma_trim_end_take(s.drop_last(), f, k);
        assert(s.drop_last().take(k) =~= s.take(k));
    } else {
        assert(s.take(k) =~= s);
    }
}

pub proof fn lemma_trim_start_skip(s: Seq<char>, f: spec_fn(char) -> bool, k: int)
    requires
        0 <= k <= s.len(),
        forall|m: int| 0 <= m < k ==> f(s[m]),
    ensures
        trim_start_by(s, f) == trim_start_by(s.skip(k), f),
    decreases k,
{
    if k > 0 {
        lemma_trim_start_skip(s.drop_first(), f, k - 1);
        assert(s.drop_first().skip(k - 1) =~= s.skip(k));
    } else {
        assert(s.skip(0) =~= s);
    }
}

/// Length of `s` once trailing whitespace is removed.
pub fn trim_end_len(s: &[char]) -> (r: usize)
    ensures
        r <= s@.len(),
        s@.take(r as int) == trim_end(s@),
{
    let mut k = s.len();
    while k > 0 && is_ws_char(s[k - 1])
        invariant
            k <= s@.len(),
            forall|m: int| k <= m < s@.len() ==> is_ws(s@[m]),
        decreases k,
    {
        k = k - 1;
    }
    proof {
        let f = ws_pred();
        assert forall|m: int| k <= m < s@.len() implies f(s@[m]) by {}
        lemma_trim_end_take(s@, f, k as int);
        if k > 0 {
            assert(s@.take(k as int).last() == s@[k - 1]);
        }
    }
    k
}

/// Index of the first character of `s` that is not whitespace.
pub fn trim_start_idx(s: &[char]) -> (r: usize)
    ensures
        r <= s@.len(),
        s@.skip(r as int) == trim_start(s@),
{
    let mut k: usize = 0;
    while k < s.len() && is_ws_char(s[k])
        invariant
            k <= s@.len(),
            forall|m: int| 0 <= m < k ==> is_ws(s@[m]),
        decreases s@.len() - k,
    {
        k = k + 1;
    }
    proof {
        let f = ws_pred();
        assert forall|m: int| 0 <= m < k implies f(s@[m]) by {}
        lemma_trim_start_skip(s@, f, k as int);
        if k < s@.len() {
            assert(s@.skip(k as int)[0] == s@[k as int]);
        }
    }
    k
}

/// The characters `s[lo..hi]`.
pub fn slice_of(s: &[char], lo: usize, hi: usize) -> (r: Vec<char>)
    requires
        lo <= hi <= s@.len(),
    ensures
        r@ == s@.subrange(lo as int, hi as int),
{
    let mut out: Vec<char> = Vec::new();
    let mut i = lo;
    while i < hi
        invariant
            lo <= i <= hi,
            hi <= s@.len(),
            out@ =~= s@.subrange(lo as int, i as int),
        decreases hi - i,
    {
        out.push(s[i]);
        i = i + 1;
    }
    out
}


// ---------------------------------------------------------------- lines

pub open spec fn views(v: Seq<Vec<char>>) -> Seq<Seq<char>> {
    v.map_values(|x: Vec<char>| x@)
}

/// A line without the `'\r'` of a `"\r\n"` ending.
pub open spec fn strip_cr(l: Seq<char>) -> Seq<char> {
    if l.len() > 0 && l.last() == '\r' {
        l.drop_last()
    } else {
        l
    }
}

/// The completed lines of `s` and the unterminated rest, read left to right.
pub open spec fn line_split(s: Seq<char>) -> (Seq<Seq<char>>, Seq<char>)
    decreases s.len(),
{
    if s.len() == 0 {
        (seq![], seq![])
    } else {
        let (ls, cur) = line_split(s.drop_last());
        if s.last() == '\n' {
            (ls.push(strip_cr(cur)), seq![])
        } else {
            (ls, cur.push(s.last()))
        }
    }
}

/// `str::lines`: split at `"\n"` or `"\r\n"`; a final line ending is optional.
pub open spec fn text_lines(s: Seq<char>) -> Seq<Seq<char>> {
    let (ls, cur) = line_split(s);
    if cur.len() == 0 {
        ls
    } else {
        ls.push(cur)
    }
}

/// Appending text without a line break extends the unterminated rest.
pub proof fn lemma_line_split_append(p: Seq<char>, q: Seq<char>)
    requires
        !q.contains('\n'),
    ensures
        line_split(p + q) == (line_split(p).0, line_split(p).1 + q),
    decreases q.len(),
{
    if q.len() == 0 {
        assert(p + q =~= p);
        assert(line_split(p).1 + q =~= line_split(p).1);
    } else {
        let q0 = q.drop_last();
        assert(!q0.contains('\n')) by {
            if q0.contains('\n') {
                let j = choose|j: int| 0 <= j < q0.len() && q0[j] == '\n';
                assert(q[j] == '\n');
            }
        }
        assert(q.last() != '\n') by {
            assert(q[q.len() - 1] == q.last());
        }
        lemma_line_split_append(p, q0);
        assert((p + q).drop_last() =~= p + q0);
        assert((p + q).last() == q.last());
        assert(line_split(p).1 + q0 + seq![q.last()] =~= line_split(p).1 + q);
        assert((line_split(p).1 + q0).push(q.last()) =~= line_split(p).1 + q);
    }
}

/// Two rows without line breaks, joined by one, read back as those rows.
pub proof fn lemma_text_lines_two(a: Seq<char>, b: Seq<char>)
    requires
        !a.contains('\n'),
        !b.contains('\n'),
        a.len() > 0 ==> a.last() != '\r',
        b.len() > 0,
    ensures
        text_lines(a + seq!['\n'] + b) == seq![a, b],
{
    let e = Seq::<char>::empty();
    lemma_line_split_append(e, a);
    assert(e + a =~= a);
    assert(line_split(e) == (Seq::<Seq<char>>::empty(), e));
    let p = a.push('\n');
    assert(p.drop_last() =~= a);
    assert(line_split(p) == (seq![strip_cr(a)], e));
    assert(strip_cr(a) == a);
    lemma_line_split_append(p, b);
    assert(a + seq!['\n'] + b =~= p + b);
    assert(e + b =~= b);
    assert(seq![a].push(b) =~= seq![a, b]);
}

pub fn lines_of(s: &[char]) -> (r: Vec<Vec<char>>)
    ensures
        views(r@) == text_lines(s@),
{
    let mut ls: Vec<Vec<char>> = Vec::new();
    let mut cur: Vec<char> = Vec::new();
    let mut i: usize = 0;
    while i < s.len()
        invariant
            i <= s@.len(),
            (views(ls@), cur@) == line_split(s@.take(i as int)),
        decreases s@.len() - i,
    {
        let c = s[i];
        proof {
            assert(s@.take(i + 1).drop_last() =~= s@.take(i as int));
            assert(s@.take(i + 1).last() == c);
        }
        if c == '\n' {
            if cur.len() > 0 && cur[cur.len() - 1] == '\r' {
                cur.pop();
            }
            let ghost before = ls@;
            ls.push(cur);
            cur = Vec::new();
            proof {
                assert(views(ls@) =~= views(before).push(ls@.last()@));
            }
        } else {
            cur.push(c);
        }
        i = i + 1;
    }
    assert(s@.take(s@.len() as int) =~= s@);
    if cur.len() > 0 {
        let ghost before = ls@;
        ls.push(cur);
        proof {
            assert(views(ls@) =~= views(before).push(ls@.last()@));
        }
    }
    ls
}

// ---------------------------------------------------------------- words

/// The completed words of `s` and the word in progress, read left to right.
pub open spec fn word_split(s: Seq<char>) -> (Seq<Seq<char>>, Seq<char>)
    decreases s.len(),
{
    if s.len() == 0 {
        (seq![], seq![])
    } else {
        let (ws, cur) = word_split(s.drop_last());
        if is_ws(s.last()) {
            if cur.len() > 0 {
                (ws.push(cur), seq![])
            } else {
                (ws, seq![])
            }
        } else {
            (ws, cur.push(s.last()))
        }
    }
}

/// `str::split_whitespace`.
pub open spec fn words(s: Seq<char>) -> Seq<Seq<char>> {
    let (ws, cur) = word_split(s);
    if cur.len() > 0 {
        ws.push(cur)
    } else {
        ws
    }
}

pub fn words_of(s: &[char]) -> (r: Vec<Vec<char>>)
    ensures
        views(r@) == words(s@),
{
    let mut ws: Vec<Vec<char>> = Vec::new();
    let mut cur: Vec<char> = Vec::new();
    let mut i: usize = 0;
    while i < s.len()
        invariant
            i <= s@.len(),
            (views(ws@), cur@) == word_split(s@.take(i as int)),
        decreases s@.len() - i,
    {
        let c = s[i];
        proof {
            assert(s@.take(i + 1).drop_last() =~= s@.take(i as int));
            assert(s@.take(i + 1).last() == c);
        }
        if is_ws_char(c) {
            if cur.len() > 0 {
                let ghost before = ws@;
                ws.push(cur);
                proof {
                    assert(views(ws@) =~= views(before).push(ws@.last()@));
                }
            }
            cur = Vec::new();
        } else {
            cur.push(c);
        }
        i = i + 1;
    }
    assert(s@.take(s@.len() as int) =~= s@);
    if cur.len() > 0 {
        let ghost before = ws@;
        ws.push(cur);
        proof {
            assert(views(ws@) =~= views(before).push(ws@.last()@));
        }
    }
    ws
}

// ---------------------------------------------------------------- numbers

/// Whether a character is numeric in Unicode's sense (`char::is_numeric`).
pub uninterp spec fn unicode_numeric(c: char) -> bool;

/// Calls `char::is_numeric`: true for the general categories Nd, Nl and No.
/// The only ASCII characters in those categories are the digits `0`-`9`.
#[verifier::external_body]
fn is_numeric_char(c: char) -> (r: bool)
    ensures
        r == unicode_numeric(c),
        (c as u32) < 128 ==> (r == is_digit(c)),
{
    c.is_numeric()
}

pub open spec fn not_numeric_pred() -> spec_fn(char) -> bool {
    |c: char| !unicode_numeric(c)
}

pub open spec fn digit_value(c: char) -> nat {
    ((c as u32) - 48) as nat
}

/// The value of a string of decimal digits.
pub open spec fn digits_value(s: Seq<char>) -> nat
    decreases s.len(),
{
    if s.len() == 0 {
        0
    } else {
        digits_value(s.drop_last()) * 10 + digit_value(s.last())
    }
}

pub open spec fn all_digits(s: Seq<char>) -> bool {
    forall|i: int| 0 <= i < s.len() ==> is_digit(#[trigger] s[i])
}

/// The digits of a number, after an optional leading `+`.
pub open spec fn strip_plus(s: Seq<char>) -> Seq<char> {
    if s.len() > 0 && s[0] == '+' {
        s.drop_first()
    } else {
        s
    }
}

/// A non-empty run of ASCII digits whose value fits in a `u16`.
pub open spec fn parse_digits_u16(d: Seq<char>) -> Option<u16> {
    if d.len() > 0 && all_digits(d) && digits_value(d) <= 65535 {
        Some(digits_value(d) as u16)
    } else {
        None
    }
}

/// `str::parse::<u16>`: an optional `+`, then at least one ASCII digit, with
/// a value that fits in a `u16`.
pub open spec fn parse_u16(s: Seq<char>) -> Option<u16> {
    parse_digits_u16(strip_plus(s))
}

proof fn lemma_digits_value_grows(s: Seq<char>, k: int)
    requires
        0 <= k <= s.len(),
    ensures
        digits_value(s.take(k)) <= digits_value(s),
    decreases s.len() - k,
{
    if k < s.len() {
        assert(s.drop_last().take(k) =~= s.take(k));
        lemma_digits_value_grows(s.drop_last(), k);
    } else {
        assert(s.take(k) =~= s);
    }
}

pub fn parse_u16_exec(s: &[char]) -> (r: Option<u16>)
    ensures
        r == parse_u16(s@),
{
    let start: usize = if s.len() > 0 && s[0] == '+' {
        1
    } else {
        0
    };
    let ghost d = strip_plus(s@);
    assert(d =~= s@.skip(start as int));
    if start >= s.len() {
        return None;
    }
    let mut value: u32 = 0;
    let mut i = start;
    while i < s.len()
        invariant
            start <= i <= s@.len(),
            d == s@.skip(start as int),
            d == strip_plus(s@),
            value == digits_value(d.take(i - start)),
            value <= 65535,
            forall|m: int| start <= m < i ==> is_digit(s@[m]),
        decreases s@.len() - i,
    {
        let c = s[i];
        let u = c as u32;
        assert(d[i - start] == s@[i as int]);
        if !(48 <= u && u <= 57) {
            assert(!is_digit(d[i - start]));
            return None;
        }
        proof {
            assert(d.take(i - start + 1).drop_last() =~= d.take(i - start));
            assert(d.take(i - start + 1).last() == c);
        }
        value = value * 10 + (u - 48);
        if value > 65535 {
            proof {
                lemma_digits_value_grows(d, i - start + 1);
            }
            return None;
        }
        i = i + 1;
    }
    assert(d.take(i - start) =~= d);
    assert(all_digits(d));
    Some(value as u16)
}


/// The leading run of numeric characters (`chars().take_while(is_numeric)`).
pub open spec fn take_while_numeric(s: Seq<char>) -> Seq<char>
    decreases s.len(),
{
    if s.len() > 0 && unicode_numeric(s[0]) {
        seq![s[0]] + take_while_numeric(s.drop_first())
    } else {
        seq![]
    }
}

proof fn lemma_take_while_numeric(s: Seq<char>, k: int)
    requires
        0 <= k <= s.len(),
        forall|m: int| 0 <= m < k ==> unicode_numeric(#[trigger] s[m]),
        k == s.len() || !unicode_numeric(s[k]),
    ensures
        take_while_numeric(s) == s.take(k),
    decreases k,
{
    if k > 0 {
        lemma_take_while_numeric(s.drop_first(), k - 1);
        assert(seq![s[0]] + s.drop_first().take(k - 1) =~= s.take(k));
    } else {
        assert(s.take(0) =~= Seq::<char>::empty());
    }
}

/// The leading numeric characters of `s`.
pub fn take_while_numeric_exec(s: &[char]) -> (r: Vec<char>)
    ensures
        r@ == take_while_numeric(s@),
{
    let mut k: usize = 0;
    while k < s.len() && is_numeric_char(s[k])
        invariant
            k <= s@.len(),
            forall|m: int| 0 <= m < k ==> unicode_numeric(#[trigger] s@[m]),
        decreases s@.len() - k,
    {
        k = k + 1;
    }
    proof {
        lemma_take_while_numeric(s@, k as int);
    }
    slice_of(s, 0, k)
}

/// The characters `str::trim_matches` removes around a word in a log line.
pub open spec fn is_punct(c: char) -> bool {
    ||| c == '[' || c == ']' || c == '(' || c == ')' || c == '{' || c == '}'
    ||| c == '"' || c == '\'' || c == '`' || c == ',' || c == ';' || c == '.' || c == '!'
}

pub open spec fn punct_pred() -> spec_fn(char) -> bool {
    |c: char| is_punct(c)
}

fn is_punct_char(c: char) -> (r: bool)
    ensures
        r == is_punct(c),
{
    c == '[' || c == ']' || c == '(' || c == ')' || c == '{' || c == '}' || c == '"' || c == '\''
        || c == '`' || c == ',' || c == ';' || c == '.' || c == '!'
}

proof fn lemma_trim_range(s: Seq<char>, f: spec_fn(char) -> bool, lo: int, hi: int)
    requires
        0 <= lo <= hi <= s.len(),
        forall|m: int| 0 <= m < lo ==> f(s[m]),
        lo == s.len() || !f(s[lo]),
        forall|m: int| hi <= m < s.len() ==> f(s[m]),
        hi == lo || !f(s[hi - 1]),
    ensures
        trim_by(s, f) == s.subrange(lo, hi),
{
    lemma_trim_start_skip(s, f, lo);
    let t = s.skip(lo);
    if lo < s.len() {
        assert(t[0] == s[lo]);
    }
    assert(trim_start_by(t, f) == t);
    assert forall|m: int| hi - lo <= m < t.len() implies f(t[m]) by {
        assert(t[m] == s[lo + m]);
    }
    lemma_trim_end_take(t, f, hi - lo);
    let u = t.take(hi - lo);
    if hi > lo {
        assert(u.last() == s[hi - 1]);
    }
    assert(trim_end_by(u, f) == u);
    assert(u =~= s.subrange(lo, hi));
}

/// `s.trim_matches` of the punctuation in [`is_punct`].
pub fn trim_punct(s: &[char]) -> (r: Vec<char>)
    ensures
        r@ == trim_by(s@, punct_pred()),
{
    let mut lo: usize = 0;
    while lo < s.len() && is_punct_char(s[lo])
        invariant
            lo <= s@.len(),
            forall|m: int| 0 <= m < lo ==> is_punct(#[trigger] s@[m]),
        decreases s@.len() - lo,
    {
        lo = lo + 1;
    }
    let mut hi: usize = s.len();
    while hi > lo && is_punct_char(s[hi - 1])
        invariant
            lo <= hi <= s@.len(),
            forall|m: int| hi <= m < s@.len() ==> is_punct(#[trigger] s@[m]),
        decreases hi,
    {
        hi = hi - 1;
    }
    proof {
        let f = punct_pred();
        assert forall|m: int| 0 <= m < lo implies f(s@[m]) by {}
        assert forall|m: int| hi <= m < s@.len() implies f(s@[m]) by {}
        lemma_trim_range(s@, f, lo as int, hi as int);
    }
    slice_of(s, lo, hi)
}

/// `s.trim_matches(|c| !c.is_numeric())`.
pub fn trim_non_numeric(s: &[char]) -> (r: Vec<char>)
    ensures
        r@ == trim_by(s@, not_numeric_pred()),
{
    let mut lo: usize = 0;
    while lo < s.len() && !is_numeric_char(s[lo])
        invariant
            lo <= s@.len(),
            forall|m: int| 0 <= m < lo ==> !unicode_numeric(#[trigger] s@[m]),
        decreases s@.len() - lo,
    {
        lo = lo + 1;
    }
    let mut hi: usize = s.len();
    while hi > lo && !is_numeric_char(s[hi - 1])
        invariant
            lo <= hi <= s@.len(),
            forall|m: int| hi <= m < s@.len() ==> !unicode_numeric(#[trigger] s@[m]),
        decreases hi,
    {
        hi = hi - 1;
    }
    proof {
        let f = not_numeric_pred();
        assert forall|m: int| 0 <= m < lo implies f(s@[m]) by {}
        assert forall|m: int| hi <= m < s@.len() implies f(s@[m]) by {}
        lemma_trim_range(s@, f, lo as int, hi as int);
    }
    slice_of(s, lo, hi)
}

/// `s.trim()`.
pub fn trim_exec(s: &[char]) -> (r: Vec<char>)
    ensures
        r@ == trim(s@),
{
    let mut lo: usize = 0;
    while lo < s.len() && is_ws_char(s[lo])
        invariant
            lo <= s@.len(),
            forall|m: int| 0 <= m < lo ==> is_ws(#[trigger] s@[m]),
        decreases s@.len() - lo,
    {
        lo = lo + 1;
    }
    let mut hi: usize = s.len();
    while hi > lo && is_ws_char(s[hi - 1])
        invariant
            lo <= hi <= s@.len(),
            forall|m: int| hi <= m < s@.len() ==> is_ws(#[trigger] s@[m]),
        decreases hi,
    {
        hi = hi - 1;
    }
    proof {
        let f = ws_pred();
        assert forall|m: int| 0 <= m < lo implies f(s@[m]) by {}
        assert forall|m: int| hi <= m < s@.len() implies f(s@[m]) by {}
        lemma_trim_range(s@, f, lo as int, hi as int);
    }
    slice_of(s, lo, hi)
}

/// Position of the first `c` in `s`.
pub open spec fn find_char(s: Seq<char>, c: char) -> Option<int>
    decreases s.len(),
{
    if s.len() == 0 {
        None
    } else if s[0] == c {
        Some(0)
    } else {
        match find_char(s.drop_first(), c) {
            Some(i) => Some(i + 1),
            None => None,
        }
    }
}

/// Position of the last `c` in `s`.
pub open spec fn rfind_char(s: Seq<char>, c: char) -> Option<int>
    decreases s.len(),
{
    if s.len() == 0 {
        None
    } else if s.last() == c {
        Some(s.len() - 1)
    } else {
        rfind_char(s.drop_last(), c)
    }
}

pub proof fn lemma_find_char(s: Seq<char>, c: char, k: int)
    requires
        0 <= k <= s.len(),
        forall|m: int| 0 <= m < k ==> s[m] != c,
    ensures
        k < s.len() && s[k] == c ==> find_char(s, c) == Some(k),
        k == s.len() ==> find_char(s, c) is None,
    decreases k,
{
    if k > 0 {
        lemma_find_char(s.drop_first(), c, k - 1);
    }
}

pub fn find_char_exec(s: &[char], c: char) -> (r: Option<usize>)
    ensures
        match r {
            Some(i) => find_char(s@, c) == Some(i as int) && i < s.len(),
            None => find_char(s@, c) is None,
        },
{
    let mut k: usize = 0;
    while k < s.len() && s[k] != c
        invariant
            k <= s@.len(),
            forall|m: int| 0 <= m < k ==> s@[m] != c,
        decreases s@.len() - k,
    {
        k = k + 1;
    }
    proof {
        lemma_find_char(s@, c, k as int);
    }
    if k < s.len() {
        Some(k)
    } else {
        None
    }
}

pub proof fn lemma_rfind_char(s: Seq<char>, c: char, k: int)
    requires
        0 <= k <= s.len(),
        forall|m: int| k <= m < s.len() ==> s[m] != c,
    ensures
        k > 0 && s[k - 1] == c ==> rfind_char(s, c) == Some(k - 1),
        k == 0 ==> rfind_char(s, c) is None,
    decreases s.len() - k,
{
    if k < s.len() {
        lemma_rfind_char(s.drop_last(), c, k);
    }
}

pub fn rfind_char_exec(s: &[char], c: char) -> (r: Option<usize>)
    ensures
        match r {
            Some(i) => rfind_char(s@, c) == Some(i as int) && i < s.len(),
            None => rfind_char(s@, c) is None,
        },
{
    let mut k: usize = s.len();
    while k > 0 && s[k - 1] != c
        invariant
            k <= s@.len(),
            forall|m: int| k <= m < s@.len() ==> s@[m] != c,
        decreases k,
    {
        k = k - 1;
    }
    proof {
        lemma_rfind_char(s@, c, k as int);
    }
    if k > 0 {
        Some(k - 1)
    } else {
        None
    }
}

/// Whether two character sequences are equal.
pub fn chars_eq(a: &[char], b: &[char]) -> (r: bool)
    ensures
        r == (a@ == b@),
{
    if a.len() != b.len() {
        return false;
    }
    let mut i: usize = 0;
    while i < a.len()
        invariant
            a@.len() == b@.len(),
            i <= a@.len(),
            forall|m: int| 0 <= m < i ==> a@[m] == b@[m],
        decreases a@.len() - i,
    {
        if a[i] != b[i] {
            return false;
        }
        i = i + 1;
    }
    assert(a@ =~= b@);
    true
}


/// A non-empty run of ASCII digits whose value fits in a `u64`.
pub open spec fn parse_digits_u64(d: Seq<char>) -> Option<u64> {
    if d.len() > 0 && all_digits(d) && digits_value(d) <= u64::MAX {
        Some(digits_value(d) as u64)
    } else {
        None
    }
}

/// `str::parse::<u64>`.
pub open spec fn parse_u64(s: Seq<char>) -> Option<u64> {
    parse_digits_u64(strip_plus(s))
}

/// The value of the digits of `d` as a `u64`, or `None` when a character
/// is not a digit or the value exceeds `u64::MAX`.
fn digits_u64(d: &[char]) -> (r: Option<u64>)
    ensures
        match r {
            Some(v) => all_digits(d@) && v == digits_value(d@),
            None => !all_digits(d@) || digits_value(d@) > u64::MAX,
        },
{
    let mut value: u64 = 0;
    let mut i: usize = 0;
    while i < d.len()
        invariant
            i <= d@.len(),
            value == digits_value(d@.take(i as int)),
            forall|m: int| 0 <= m < i ==> is_digit(d@[m]),
        decreases d@.len() - i,
    {
        let c = d[i];
        let u = c as u32;
        if !(48 <= u && u <= 57) {
            assert(!is_digit(d@[i as int]));
            return None;
        }
        proof {
            assert(d@.take(i + 1).drop_last() =~= d@.take(i as int));
            assert(d@.take(i + 1).last() == c);
        }
        let digit = (u - 48) as u64;
        if value > (u64::MAX - digit) / 10 {
            proof {
                assert(value * 10 + digit > u64::MAX) by (nonlinear_arith)
                    requires
                        value > (u64::MAX - digit) / 10,
                        digit <= 9,
                ;
                lemma_digits_value_grows(d@, i + 1);
            }
            return None;
        }
        value = value * 10 + digit;
        i = i + 1;
    }
    assert(d@.take(i as int) =~= d@);
    Some(value)
}

pub fn parse_u64_exec(s: &[char]) -> (r: Option<u64>)
    ensures
        r == parse_u64(s@),
{
    let start: usize = if s.len() > 0 && s[0] == '+' {
        1
    } else {
        0
    };
    let d = slice_of(s, start, s.len());
    assert(d@ =~= strip_plus(s@));
    if d.len() == 0 {
        return None;
    }
    digits_u64(d.as_slice())
}

/// `str::parse::<i32>`: an optional sign, then at least one ASCII digit,
/// with a value in the `i32` range.
pub open spec fn parse_i32(s: Seq<char>) -> Option<i32> {
    if s.len() > 0 && s[0] == '-' {
        let d = s.drop_first();
        if d.len() > 0 && all_digits(d) && digits_value(d) <= 0x8000_0000 {
            Some((0 - digits_value(d)) as i32)
        } else {
            None
        }
    } else {
        let d = strip_plus(s);
        if d.len() > 0 && all_digits(d) && digits_value(d) <= 0x7fff_ffff {
            Some(digits_value(d) as i32)
        } else {
            None
        }
    }
}

pub fn parse_i32_exec(s: &[char]) -> (r: Option<i32>)
    ensures
        r == parse_i32(s@),
{
    let negative = s.len() > 0 && s[0] == '-';
    let start: usize = if s.len() > 0 && (s[0] == '-' || s[0] == '+') {
        1
    } else {
        0
    };
    let d = slice_of(s, start, s.len());
    if negative {
        assert(d@ =~= s@.drop_first());
    } else {
        assert(d@ =~= strip_plus(s@));
    }
    if d.len() == 0 {
        return None;
    }
    match digits_u64(d.as_slice()) {
        Some(v) => {
            if negative {
                if v <= 0x8000_0000 {
                    let n: i64 = 0 - (v as i64);
                    Some(n as i32)
                } else {
                    None
                }
            } else {
                if v <= 0x7fff_ffff {
                    Some(v as i32)
                } else {
                    None
                }
            }
        },
        None => None,
    }
}

/// The decimal digit character for `d < 10`.
pub open spec fn digit_char(d: nat) -> char {
    (48 + d) as char
}

/// The decimal representation of `n`, without leading zeros.
pub open spec fn dec(n: nat) -> Seq<char>
    decreases n,
{
    if n < 10 {
        seq![digit_char(n)]
    } else {
        dec(n / 10).push(digit_char(n % 10))
    }
}

/// The decimal representation of `n` is a non-empty run of digits whose
/// value is `n`.
pub proof fn lemma_dec(n: nat)
    ensures
        dec(n).len() > 0,
        all_digits(dec(n)),
        digits_value(dec(n)) == n,
    decreases n,
{
    if n < 10 {
        assert(dec(n) == seq![digit_char(n)]);
        assert(digit_char(n) as u32 == 48 + n);
        assert(seq![digit_char(n)].drop_last() =~= Seq::<char>::empty());
        assert(digits_value(Seq::<char>::empty()) == 0);
        assert(digits_value(dec(n)) == digits_value(Seq::<char>::empty()) * 10 + digit_value(
            digit_char(n),
        ));
    } else {
        lemma_dec(n / 10);
        let d = dec(n / 10);
        assert(dec(n) == d.push(digit_char(n % 10)));
        assert(digit_char(n % 10) as u32 == 48 + n % 10);
        assert(d.push(digit_char(n % 10)).drop_last() =~= d);
        vstd::arithmetic::div_mod::lemma_fundamental_div_mod(n as int, 10);
        assert(digits_value(dec(n)) == digits_value(d) * 10 + digit_value(digit_char(n % 10)));
        assert(digit_value(digit_char(n % 10)) == n % 10);
        assert((n / 10) * 10 == 10 * (n / 10)) by {
            vstd::arithmetic::mul::lemma_mul_is_commutative((n / 10) as int, 10);
        }
        assert forall|i: int| 0 <= i < dec(n).len() implies is_digit(#[trigger] dec(n)[i]) by {
            if i < d.len() {
                assert(dec(n)[i] == d[i]);
            }
        }
    }
}

/// Reading back the decimal representation of a port gives the port.
pub proof fn lemma_parse_u16_dec(p: u16)
    ensures
        parse_u16(dec(p as nat)) == Some(p),
{
    lemma_dec(p as nat);
    assert(is_digit(dec(p as nat)[0]));
    assert(strip_plus(dec(p as nat)) == dec(p as nat));
}

/// Appends the decimal representation of `n` to `out`.
pub fn push_dec(out: &mut Vec<char>, n: u64)
    ensures
        final(out)@ == old(out)@ + dec(n as nat),
    decreases n,
{
    if n >= 10 {
        push_dec(out, n / 10);
    }
    let d: u8 = (n % 10) as u8;
    out.push((48u8 + d) as char);
    proof {
        if n < 10 {
            assert(old(out)@ + dec(n as nat) =~= final(out)@) by {
                assert(final(out)@ =~= old(out)@.push(digit_char(n as nat)));
            }
        }
    }
    assert(final(out)@ =~= old(out)@ + dec(n as nat));
}


/// Appends the characters `s` to `out`.
pub fn append_chars(out: &mut Vec<char>, s: &[char])
    ensures
        final(out)@ == old(out)@ + s@,
{
    let mut i: usize = 0;
    while i < s.len()
        invariant
            i <= s@.len(),
            out@ == old(out)@ + s@.take(i as int),
        decreases s@.len() - i,
    {
        out.push(s[i]);
        i = i + 1;
        assert(out@ =~= old(out)@ + s@.take(i as int));
    }
    assert(s@.take(s@.len() as int) =~= s@);
}

// ---------------------------------------------------------------- conversion

/// The characters of `s`, in order.
pub fn chars_of(s: &str) -> (r: Vec<char>)
    ensures
        r@ == s@,
{
    let mut out: Vec<char> = Vec::new();
    for c in it: s.chars()
        invariant
            out@ == it.seq().take(it.index() as int),
            it.seq() == s@,
    {
        out.push(c);
    }
    out
}

// ---------------------------------------------------------------- lists of strings

/// The first position of `name` in `names`.
pub open spec fn index_of(names: Seq<Seq<char>>, name: Seq<char>) -> Option<int>
    decreases names.len(),
{
    if names.len() == 0 {
        None
    } else if names.last() == name {
        match index_of(names.drop_last(), name) {
            Some(i) => Some(i),
            None => Some(names.len() - 1),
        }
    } else {
        index_of(names.drop_last(), name)
    }
}

/// The views of a list of strings.
pub open spec fn string_views(v: Seq<String>) -> Seq<Seq<char>> {
    v.map_values(|s: String| s@)
}

pub proof fn lemma_index_of(names: Seq<Seq<char>>, name: Seq<char>, k: int)
    requires
        0 <= k <= names.len(),
        forall|m: int| 0 <= m < k ==> names[m] != name,
    ensures
        k < names.len() && names[k] == name ==> index_of(names, name) == Some(k),
        k == names.len() ==> index_of(names, name) is None,
    decreases names.len(),
{
    if names.len() > 0 {
        if k < names.len() {
            if k < names.len() - 1 {
                lemma_index_of(names.drop_last(), name, k);
            } else if names[k] == name {
                lemma_index_of(names.drop_last(), name, k);
            }
        } else {
            lemma_index_of(names.drop_last(), name, k - 1);
        }
    }
}

/// Whether two strings hold the same characters.
pub fn str_eq(a: &str, b: &str) -> (r: bool)
    ensures
        r == (a@ == b@),
{
    let x = chars_of(a);
    let y = chars_of(b);
    chars_eq(x.as_slice(), y.as_slice())
}

/// The place of `name` in `names`, if it is there.
pub fn position_of(names: &[String], name: &str) -> (r: Option<usize>)
    ensures
        match r {
            Some(i) => index_of(string_views(names@), name@) == Some(i as int) && i < names@.len(),
            None => index_of(string_views(names@), name@) is None,
        },
{
    let ghost v = string_views(names@);
    let mut k: usize = 0;
    while k < names.len()
        invariant
            k <= names@.len(),
            v == string_views(names@),
            forall|m: int| 0 <= m < k ==> v[m] != name@,
        decreases names@.len() - k,
    {
        if str_eq(names[k].as_str(), name) {
            proof {
                lemma_index_of(v, name@, k as int);
            }
            return Some(k);
        }
        k = k + 1;
    }
    proof {
        lemma_index_of(v, name@, k as int);
    }
    None
}

// ---------------------------------------------------------------- splitting

/// The pieces of `s` between occurrences of `c` (`str::split` with a char):
/// one more piece than there are separators.
pub open spec fn split_char(s: Seq<char>, c: char) -> Seq<Seq<char>>
    decreases s.len(),
{
    if s.len() == 0 {
        seq![seq![]]
    } else {
        let f = split_char(s.drop_last(), c);
        if s.last() == c {
            f.push(seq![])
        } else {
            f.update(f.len() - 1, f.last().push(s.last()))
        }
    }
}

/// `split_char` never gives an empty list.
pub proof fn lemma_split_char_nonempty(s: Seq<char>, c: char)
    ensures
        split_char(s, c).len() >= 1,
    decreases s.len(),
{
    if s.len() > 0 {
        lemma_split_char_nonempty(s.drop_last(), c);
    }
}

// ---------------------------------------------------------------- joining

/// `parts` joined with `sep` between them.
pub open spec fn joined(parts: Seq<Seq<char>>, sep: Seq<char>) -> Seq<char>
    decreases parts.len(),
{
    if parts.len() == 0 {
        seq![]
    } else if parts.len() == 1 {
        parts[0]
    } else {
        joined(parts.drop_last(), sep) + sep + parts.last()
    }
}

/// Appends `parts` joined with `sep` to `out`.
pub fn push_joined(out: &mut Vec<char>, parts: &[Vec<char>], sep: &str)
    ensures
        final(out)@ == old(out)@ + joined(parts@.map_values(|p: Vec<char>| p@), sep@),
{
    let ghost v = parts@.map_values(|p: Vec<char>| p@);
    let ghost start = out@;
    let mut k: usize = 0;
    while k < parts.len()
        invariant
            k <= parts@.len(),
            v == parts@.map_values(|p: Vec<char>| p@),
            out@ == start + joined(v.take(k as int), sep@),
        decreases parts@.len() - k,
    {
        assert(v.take(k + 1).drop_last() =~= v.take(k as int));
        if k > 0 {
            push_str(out, sep);
        } else {
            assert(v.take(0) =~= Seq::<Seq<char>>::empty());
        }
        append_chars(out, parts[k].as_slice());
        k = k + 1;
        assert(out@ =~= start + joined(v.take(k as int), sep@));
    }
    assert(v.take(k as int) =~= v);
}

// ---------------------------------------------------------------- UTF-8 sizes

/// The number of bytes that `c` takes in UTF-8.
pub open spec fn char_utf8_len(c: char) -> nat {
    if (c as u32) < 0x80 {
        1
    } else if (c as u32) < 0x800 {
        2
    } else if (c as u32) < 0x10000 {
        3
    } else {
        4
    }
}

/// The number of bytes that `s` takes in UTF-8 (`str::len`).
pub open spec fn utf8_len(s: Seq<char>) -> nat
    decreases s.len(),
{
    if s.len() == 0 {
        0
    } else {
        utf8_len(s.drop_last()) + char_utf8_len(s.last())
    }
}

/// A prefix never takes more bytes than a longer prefix, and each
/// character takes at least one.
pub proof fn lemma_utf8_len_prefix(s: Seq<char>, i: int, j: int)
    requires
        0 <= i <= j <= s.len(),
    ensures
        utf8_len(s.take(i)) + (j - i) <= utf8_len(s.take(j)),
    decreases j - i,
{
    if i < j {
        lemma_utf8_len_prefix(s, i, j - 1);
        assert(s.take(j).drop_last() =~= s.take(j - 1));
    }
}

/// The UTF-8 size of a concatenation is the sum of the sizes.
pub proof fn lemma_utf8_len_concat(a: Seq<char>, b: Seq<char>)
    ensures
        utf8_len(a + b) == utf8_len(a) + utf8_len(b),
    decreases b.len(),
{
    if b.len() > 0 {
        lemma_utf8_len_concat(a, b.drop_last());
        assert((a + b).drop_last() =~= a + b.drop_last());
    } else {
        assert(a + b =~= a);
    }
}

/// The number of leading characters of `s` that take exactly `n` bytes.
pub open spec fn byte_cut(s: Seq<char>, n: nat) -> int {
    choose|k: int| 0 <= k <= s.len() && utf8_len(s.take(k)) == n
}

pub proof fn lemma_byte_cut_unique(s: Seq<char>, n: nat, k: int)
    requires
        0 <= k <= s.len(),
        utf8_len(s.take(k)) == n,
    ensures
        byte_cut(s, n) == k,
{
    let c = byte_cut(s, n);
    assert(0 <= c <= s.len() && utf8_len(s.take(c)) == n);
    if c < k {
        lemma_utf8_len_prefix(s, c, k);
    } else if k < c {
        lemma_utf8_len_prefix(s, k, c);
    }
}

/// The UTF-8 size of the first `k` characters of `s`.
pub fn utf8_prefix_len(s: &[char], k: usize) -> (r: u128)
    requires
        k <= s@.len(),
    ensures
        r == utf8_len(s@.take(k as int)),
        r <= 4 * k,
{
    let mut acc: u128 = 0;
    let mut i: usize = 0;
    while i < k
        invariant
            i <= k <= s@.len(),
            acc == utf8_len(s@.take(i as int)),
            acc <= 4 * i,
        decreases k - i,
    {
        assert(s@.take(i + 1).drop_last() =~= s@.take(i as int));
        acc = acc + char_utf8_len_exec(s[i]) as u128;
        i = i + 1;
    }
    acc
}

/// The number of leading characters of `s` that take exactly `n` bytes,
/// if a character boundary lies there.
pub fn char_index_at_byte(s: &[char], n: u128) -> (r: Option<usize>)
    requires
        n <= u128::MAX - 4,
    ensures
        match r {
            Some(k) => k <= s@.len() && utf8_len(s@.take(k as int)) == n && k == byte_cut(s@, n as nat),
            None => !exists|k: int| 0 <= k <= s@.len() && utf8_len(s@.take(k)) == n,
        },
{
    let mut acc: u128 = 0;
    let mut i: usize = 0;
    while i < s.len() && acc < n
        invariant
            i <= s@.len(),
            n <= u128::MAX - 4,
            acc <= n + 4,
            acc == utf8_len(s@.take(i as int)),
            forall|k: int| 0 <= k < i ==> utf8_len(s@.take(k)) < n,
        decreases s@.len() - i,
    {
        assert(s@.take(i + 1).drop_last() =~= s@.take(i as int));
        proof {
            lemma_utf8_len_prefix(s@, i as int, i as int);
        }
        acc = acc + char_utf8_len_exec(s[i]) as u128;
        i = i + 1;
    }
    if acc == n {
        proof {
            lemma_byte_cut_unique(s@, n as nat, i as int);
        }
        Some(i)
    } else {
        assert forall|k: int| 0 <= k <= s@.len() implies utf8_len(s@.take(k)) != n by {
            if k > i {
                lemma_utf8_len_prefix(s@, i as int, k);
            }
            if k == i && i == s@.len() {
            }
        }
        None
    }
}

pub fn char_utf8_len_exec(c: char) -> (r: usize)
    ensures
        r == char_utf8_len(c),
{
    let u: u32 = c as u32;
    if u < 0x80 {
        1
    } else if u < 0x800 {
        2
    } else if u < 0x10000 {
        3
    } else {
        4
    }
}

/// Appends the characters of `s` to `out`.
pub fn push_str(out: &mut Vec<char>, s: &str)
    ensures
        final(out)@ == old(out)@ + s@,
{
    let cs = chars_of(s);
    append_chars(out, cs.as_slice());
}

/// What `str::to_lowercase` returns for a string: the Unicode lowercase
/// mapping of each character, which can change the length.
pub uninterp spec fn unicode_lowercase(s: Seq<char>) -> Seq<char>;

/// `str::to_lowercase`. Its result is `unicode_lowercase` of the argument;
/// the Unicode case tables it follows are not restated here.
#[verifier::external_body]
pub(crate) fn to_lowercase(s: &str) -> (r: String)
    ensures
        r@ == unicode_lowercase(s@),
{
    s.to_lowercase()
}

/// Appends one character to a `String` (`String::push`).
#[verifier::external_body]
fn push_char(s: &mut String, c: char)
    ensures
        final(s)@ == old(s)@.push(c),
{
    s.push(c);
}

/// The string made of the characters `v`.
pub fn string_of(v: &[char]) -> (r: String)
    ensures
        r@ == v@,
{
    let mut out = String::new();
    let mut i: usize = 0;
    while i < v.len()
        invariant
            i <= v@.len(),
            out@ == v@.take(i as int),
        decreases v@.len() - i,
    {
        push_char(&mut out, v[i]);
        i = i + 1;
        assert(out@ =~= v@.take(i as int));
    }
    assert(v@.take(v@.len() as int) =~= v@);
    out
}

} // verus!
