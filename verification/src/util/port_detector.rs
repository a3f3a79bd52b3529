//! Finds the ports and URLs a dev server announces in its terminal output,
//! and decides which one the process's badge shows.
use vstd::prelude::*;
use vstd::hash_map::StringHashMap;
use crate::text::{
    lemma_dec, lemma_find_char, lemma_parse_u16_dec, lemma_rfind_char,
    is_ws, lemma_text_lines_two,
    append_chars, byte_cut, char_index_at_byte, chars_eq, chars_of, contains_infix, dec, find_char,
    find_char_exec, find_infix, find_str, has_infix, is_digit, is_digit_char, lemma_find_str_some,
    lines_of, lower, lower_of, not_numeric_pred, parse_u16, parse_u16_exec, punct_pred, push_dec,
    rfind_char, rfind_char_exec, slice_of, starts_with, starts_with_exec, string_of,
    take_while_numeric, take_while_numeric_exec, text_lines, to_lowercase, trim, trim_by, trim_end,
    trim_end_len, trim_exec, trim_non_numeric, trim_punct, trim_start, trim_start_idx,
    unicode_lowercase, utf8_len, utf8_prefix_len, views, words, words_of,
};

verus! {

broadcast use vstd::string::group_string_axioms;

/// A port found in a process's output.
#[derive(Clone, Debug)]
pub struct DetectedPort {
    pub port: u16,
    pub url: Option<String>,
    /// Whether the URL/port points at the machine the process runs on
    /// (localhost/127.0.0.1/0.0.0.0) rather than some other host.
    pub local: bool,
    /// Whether the URL came from a line labeled as the primary page —
    /// beats local detections for the badge.
    pub preferred: bool,
}

/// A [`DetectedPort`] as a mathematical value.
pub struct DetectedPortView {
    pub port: u16,
    pub url: Option<Seq<char>>,
    pub local: bool,
    pub preferred: bool,
}

impl View for DetectedPort {
    type V = DetectedPortView;

    open spec fn view(&self) -> DetectedPortView {
        DetectedPortView {
            port: self.port,
            url: match self.url {
                Some(u) => Some(u@),
                None => None,
            },
            local: self.local,
            preferred: self.preferred,
        }
    }
}

pub open spec fn dps(v: Seq<DetectedPort>) -> Seq<DetectedPortView> {
    v.map_values(|d: DetectedPort| d@)
}

impl DetectedPort {
    /// A copy with the same view.
    pub fn duplicate(&self) -> (r: DetectedPort)
        ensures
            r@ == self@,
    {
        DetectedPort {
            port: self.port,
            url: match &self.url {
                Some(u) => Some(u.clone()),
                None => None,
            },
            local: self.local,
            preferred: self.preferred,
        }
    }
}

// ------------------------------------------------------------ vocabulary

/// Bracket-prefix tags (concurrently-style `[name]`) that identify a build-tool line.
pub open spec fn tool_prefixes() -> Seq<Seq<char>> {
    seq![
        "vite"@,
        "webpack"@,
        "parcel"@,
        "esbuild"@,
        "turbopack"@,
        "rollup"@,
        "snowpack"@,
    ]
}

/// Line labels that mark a URL as the process's primary user-facing page,
/// matched case-insensitively as substrings.
pub open spec fn preferred_labels() -> Seq<Seq<char>> {
    seq!["preview url"@]
}

/// Content phrases that identify a build-tool line even without a bracket
/// prefix, matched case-insensitively as substrings.
pub open spec fn tool_phrases() -> Seq<Seq<char>> {
    seq![
        "vite v"@,
        "[hmr]"@,
        "webpack-dev-server"@,
        "is in use, trying another"@,
        "→ local:"@,
        "➜  local:"@,
        "➜ local:"@,
        "proxy server started"@,
        "graphiql server started"@,
        "econnrefused"@,
        "unreachable target"@,
    ]
}

fn tool_prefixes_exec() -> (r: Vec<Vec<char>>)
    ensures
        views(r@) == tool_prefixes(),
{
    let r = vec![
        chars_of("vite"),
        chars_of("webpack"),
        chars_of("parcel"),
        chars_of("esbuild"),
        chars_of("turbopack"),
        chars_of("rollup"),
        chars_of("snowpack"),
    ];
    assert(views(r@) =~= tool_prefixes());
    r
}

fn preferred_labels_exec() -> (r: Vec<Vec<char>>)
    ensures
        views(r@) == preferred_labels(),
{
    let r = vec![chars_of("preview url")];
    assert(views(r@) =~= preferred_labels());
    r
}

fn tool_phrases_exec() -> (r: Vec<Vec<char>>)
    ensures
        views(r@) == tool_phrases(),
{
    let r = vec![
        chars_of("vite v"),
        chars_of("[hmr]"),
        chars_of("webpack-dev-server"),
        chars_of("is in use, trying another"),
        chars_of("→ local:"),
        chars_of("➜  local:"),
        chars_of("➜ local:"),
        chars_of("proxy server started"),
        chars_of("graphiql server started"),
        chars_of("econnrefused"),
        chars_of("unreachable target"),
    ];
    assert(views(r@) =~= tool_phrases());
    r
}

/// Some element of `pats` occurs in `s`.
pub open spec fn has_any_infix(s: Seq<char>, pats: Seq<Seq<char>>) -> bool {
    exists|i: int| 0 <= i < pats.len() && #[trigger] has_infix(s, pats[i])
}

fn has_any_infix_exec(s: &[char], pats: &Vec<Vec<char>>) -> (r: bool)
    ensures
        r == has_any_infix(s@, views(pats@)),
{
    let mut i: usize = 0;
    while i < pats.len()
        invariant
            i <= pats@.len(),
            forall|j: int| 0 <= j < i ==> !has_infix(s@, #[trigger] views(pats@)[j]),
        decreases pats@.len() - i,
    {
        if contains_infix(s, pats[i].as_slice()) {
            assert(has_infix(s@, views(pats@)[i as int]));
            return true;
        }
        i = i + 1;
    }
    false
}

fn contains_seq(pats: &Vec<Vec<char>>, s: &[char]) -> (r: bool)
    ensures
        r == views(pats@).contains(s@),
{
    let mut i: usize = 0;
    while i < pats.len()
        invariant
            i <= pats@.len(),
            forall|j: int| 0 <= j < i ==> #[trigger] views(pats@)[j] != s@,
        decreases pats@.len() - i,
    {
        if chars_eq(pats[i].as_slice(), s) {
            assert(views(pats@)[i as int] == s@);
            return true;
        }
        i = i + 1;
    }
    false
}

// ------------------------------------------------------------ line kinds

/// The lower-cased, trimmed tag of a line that starts with `[tag]`.
pub open spec fn bracket_tag(line: Seq<char>) -> Option<Seq<char>> {
    let t = trim_start(line);
    if t.len() > 0 && t[0] == '[' {
        match find_str(t.drop_first(), seq![']']) {
            Some(close) => Some(lower(trim(t.drop_first().take(close)))),
            None => None,
        }
    } else {
        None
    }
}

/// A build-tool line: a known `[tag]` prefix or a known phrase.
pub open spec fn is_tool_line(line: Seq<char>) -> bool {
    ||| (bracket_tag(line) matches Some(tag) && tool_prefixes().contains(tag))
    ||| has_any_infix(lower(trim_start(line)), tool_phrases())
}

/// A line labeled as the primary user-facing page.
pub open spec fn is_preferred_line(line: Seq<char>) -> bool {
    has_any_infix(lower(line), preferred_labels())
}

fn is_preferred_line_exec(line: &[char]) -> (r: bool)
    ensures
        r == is_preferred_line(line@),
{
    let lw = lower_of(line);
    has_any_infix_exec(lw.as_slice(), &preferred_labels_exec())
}

fn is_tool_line_exec(line: &[char]) -> (r: bool)
    ensures
        r == is_tool_line(line@),
{
    let start = trim_start_idx(line);
    let t = slice_of(line, start, line.len());
    assert(t@ =~= trim_start(line@));
    if t.len() > 0 && t[0] == '[' {
        let rest = slice_of(t.as_slice(), 1, t.len());
        assert(rest@ =~= t@.drop_first());
        let close = vec![']'];
        match find_infix(rest.as_slice(), close.as_slice()) {
            Some(close_idx) => {
                let inner = slice_of(rest.as_slice(), 0, close_idx);
                assert(inner@ =~= rest@.take(close_idx as int));
                let tag = lower_of(trim_exec(inner.as_slice()).as_slice());
                assert(close@ =~= seq![']']);
                assert(bracket_tag(line@) == Some(tag@));
                if contains_seq(&tool_prefixes_exec(), tag.as_slice()) {
                    return true;
                }
            },
            None => {
                assert(close@ =~= seq![']']);
            },
        }
    }
    let lw = lower_of(t.as_slice());
    has_any_infix_exec(lw.as_slice(), &tool_phrases_exec())
}

// ------------------------------------------------------------ URLs

/// One of the host names that point at the machine the process runs on.
pub open spec fn is_local_host(host: Seq<char>) -> bool {
    host == "localhost"@ || host == "127.0.0.1"@ || host == "0.0.0.0"@
}

fn is_local_host_exec(host: &[char]) -> (r: bool)
    ensures
        r == is_local_host(host@),
{
    chars_eq(host, chars_of("localhost").as_slice()) || chars_eq(
        host,
        chars_of("127.0.0.1").as_slice(),
    ) || chars_eq(host, chars_of("0.0.0.0").as_slice())
}

/// The `host:port` part of an `http(s)://` URL with the scheme's default
/// port, or `None` without one of those schemes.
pub open spec fn url_authority(url: Seq<char>) -> Option<(Seq<char>, u16)> {
    if starts_with(url, "http://"@) {
        Some((before_slash(url.skip("http://"@.len() as int)), 80u16))
    } else if starts_with(url, "https://"@) {
        Some((before_slash(url.skip("https://"@.len() as int)), 443u16))
    } else {
        None
    }
}

/// The part of `s` before its first `/` (`split('/').next()`).
pub open spec fn before_slash(s: Seq<char>) -> Seq<char> {
    match find_char(s, '/') {
        Some(i) => s.take(i),
        None => s,
    }
}

/// Host and port of an `http(s)://` URL: the port after the last `:` of
/// the authority, or the scheme's default. `None` when the scheme is
/// neither, or the text after the last `:` is not a `u16`.
pub open spec fn url_host_port(url: Seq<char>) -> Option<(Seq<char>, u16)> {
    match url_authority(url) {
        Some((hp, default_port)) => match rfind_char(hp, ':') {
            Some(i) => match parse_u16(hp.skip(i + 1)) {
                Some(port) => Some((hp.take(i), port)),
                None => None,
            },
            None => Some((hp, default_port)),
        },
        None => None,
    }
}

pub struct HostPort {
    pub host: Vec<char>,
    pub port: u16,
}

/// Host and port of an `http(s)://` URL (see [`url_host_port`]).
pub fn extract_host_port_from_url(url: &[char]) -> (r: Option<HostPort>)
    ensures
        match r {
            Some(hp) => url_host_port(url@) == Some((hp.host@, hp.port)),
            None => url_host_port(url@) is None,
        },
{
    let http = chars_of("http://");
    let https = chars_of("https://");
    let (rest, default_port) = if starts_with_exec(url, http.as_slice()) {
        (slice_of(url, http.len(), url.len()), 80u16)
    } else if starts_with_exec(url, https.as_slice()) {
        (slice_of(url, https.len(), url.len()), 443u16)
    } else {
        return None;
    };
    assert(rest@ =~= url@.skip(http@.len() as int) || rest@ =~= url@.skip(https@.len() as int));
    let hp = match find_char_exec(rest.as_slice(), '/') {
        Some(i) => slice_of(rest.as_slice(), 0, i),
        None => rest,
    };
    assert(url_authority(url@) == Some((hp@, default_port))) by {
        if starts_with(url@, "http://"@) {
            assert(rest@ =~= url@.skip(http@.len() as int));
        } else {
            assert(rest@ =~= url@.skip(https@.len() as int));
        }
        match find_char(rest@, '/') {
            Some(i) => assert(hp@ =~= rest@.take(i)),
            None => {},
        }
    }
    match rfind_char_exec(hp.as_slice(), ':') {
        Some(i) => {
            let after = slice_of(hp.as_slice(), i + 1, hp.len());
            assert(after@ =~= hp@.skip(i + 1));
            match parse_u16_exec(after.as_slice()) {
                Some(port) => {
                    let host = slice_of(hp.as_slice(), 0, i);
                    assert(host@ =~= hp@.take(i as int));
                    Some(HostPort { host, port })
                },
                None => None,
            }
        },
        None => Some(HostPort { host: hp, port: default_port }),
    }
}

// ------------------------------------------------------------ words

/// The URL a bare `localhost:`/`0.0.0.0:`/`127.0.0.1:` port is opened at.
pub open spec fn local_url(port: u16) -> Seq<char> {
    "http://localhost:"@ + dec(port as nat)
}

pub open spec fn local_detection(port: u16) -> DetectedPortView {
    DetectedPortView { port, url: Some(local_url(port)), local: true, preferred: false }
}

fn local_detection_exec(port: u16) -> (r: DetectedPort)
    ensures
        r@ == local_detection(port),
{
    let mut url = chars_of("http://localhost:");
    push_dec(&mut url, port as u64);
    DetectedPort { port, url: Some(string_of(url.as_slice())), local: true, preferred: false }
}

/// What one whitespace-separated word (punctuation already trimmed) says:
/// an `http(s)://` URL with its host's locality, or a bare local
/// `host:port`.
pub open spec fn word_detection(word: Seq<char>) -> Option<DetectedPortView> {
    if starts_with(word, "http://"@) || starts_with(word, "https://"@) {
        match url_host_port(word) {
            Some((host, port)) => Some(
                DetectedPortView {
                    port,
                    url: Some(word),
                    local: is_local_host(host),
                    preferred: false,
                },
            ),
            None => None,
        }
    } else if starts_with(word, "localhost:"@) {
        match parse_u16(trim_by(word.skip("localhost:"@.len() as int), not_numeric_pred())) {
            Some(port) => Some(local_detection(port)),
            None => None,
        }
    } else if starts_with(word, "0.0.0.0:"@) || starts_with(word, "127.0.0.1:"@) {
        match find_char(word, ':') {
            Some(i) => match parse_u16(trim_by(word.skip(i + 1), not_numeric_pred())) {
                Some(port) => Some(local_detection(port)),
                None => None,
            },
            None => None,
        }
    } else {
        None
    }
}

fn word_detection_exec(word: &[char]) -> (r: Option<DetectedPort>)
    ensures
        match r {
            Some(d) => word_detection(word@) == Some(d@),
            None => word_detection(word@) is None,
        },
{
    let http = chars_of("http://");
    let https = chars_of("https://");
    if starts_with_exec(word, http.as_slice()) || starts_with_exec(word, https.as_slice()) {
        match extract_host_port_from_url(word) {
            Some(hp) => {
                let local = is_local_host_exec(hp.host.as_slice());
                return Some(
                    DetectedPort {
                        port: hp.port,
                        url: Some(string_of(word)),
                        local,
                        preferred: false,
                    },
                );
            },
            None => return None,
        }
    }
    let lh = chars_of("localhost:");
    if starts_with_exec(word, lh.as_slice()) {
        let rest = slice_of(word, lh.len(), word.len());
        assert(rest@ =~= word@.skip("localhost:"@.len() as int));
        let digits = trim_non_numeric(rest.as_slice());
        return match parse_u16_exec(digits.as_slice()) {
            Some(port) => Some(local_detection_exec(port)),
            None => None,
        };
    }
    let any = chars_of("0.0.0.0:");
    let loop_back = chars_of("127.0.0.1:");
    if starts_with_exec(word, any.as_slice()) || starts_with_exec(word, loop_back.as_slice()) {
        return match find_char_exec(word, ':') {
            Some(i) => {
                let rest = slice_of(word, i + 1, word.len());
                assert(rest@ =~= word@.skip(i + 1));
                let digits = trim_non_numeric(rest.as_slice());
                match parse_u16_exec(digits.as_slice()) {
                    Some(port) => Some(local_detection_exec(port)),
                    None => None,
                }
            },
            None => None,
        };
    }
    None
}

/// Detections of a sequence of words, split into local and remote ones,
/// each in word order.
pub open spec fn scan_words(ws: Seq<Seq<char>>) -> (Seq<DetectedPortView>, Seq<DetectedPortView>)
    decreases ws.len(),
{
    if ws.len() == 0 {
        (seq![], seq![])
    } else {
        let (l, r) = scan_words(ws.drop_last());
        match word_detection(trim_by(ws.last(), punct_pred())) {
            Some(d) => if d.local {
                (l.push(d), r)
            } else {
                (l, r.push(d))
            },
            None => (l, r),
        }
    }
}

/// Some detection in `ds` has port `port`.
pub open spec fn has_port_in(ds: Seq<DetectedPortView>, port: u16) -> bool {
    exists|i: int| 0 <= i < ds.len() && (#[trigger] ds[i]).port == port
}

/// Where, in bytes, the text after the first `port ` of `lowered` starts
/// (`find` on the lowercased line, then the pattern's 5 bytes).
pub open spec fn phrase_offset_in(lowered: Seq<char>) -> Option<nat> {
    match find_str(lowered, "port "@) {
        Some(i) => Some(utf8_len(lowered.take(i)) + 5),
        None => None,
    }
}

/// `line` can be sliced at that offset: a character of the line ends there.
pub open spec fn port_phrase_ok_in(line: Seq<char>, lowered: Seq<char>) -> bool {
    match phrase_offset_in(lowered) {
        Some(off) => exists|k: int| 0 <= k <= line.len() && utf8_len(line.take(k)) == off,
        None => true,
    }
}

/// The number after the first `port ` of `lowered`, read in `line`: the
/// leading numeric characters of `line` from that byte offset on.
pub open spec fn port_phrase_in(line: Seq<char>, lowered: Seq<char>) -> Option<u16> {
    match phrase_offset_in(lowered) {
        Some(off) => parse_u16(take_while_numeric(line.skip(byte_cut(line, off)))),
        None => None,
    }
}

/// The line can be sliced after the `port ` of its lowercase.
/// (Lowercasing can change the UTF-8 size of what comes before.)
pub open spec fn port_phrase_ok(line: Seq<char>) -> bool {
    port_phrase_ok_in(line, unicode_lowercase(line))
}

/// The number after the first (case-insensitive) `port ` of a line.
#[verifier::opaque]
pub open spec fn port_phrase(line: Seq<char>) -> Option<u16> {
    port_phrase_in(line, unicode_lowercase(line))
}

/// The local and remote ports one log line announces: its URLs and bare
/// local `host:port` words, then a `port N` phrase whose number no word of
/// the line already gave.
pub open spec fn scan_line(line: Seq<char>) -> (Seq<DetectedPortView>, Seq<DetectedPortView>) {
    let (l, r) = scan_words(words(line));
    match port_phrase(line) {
        Some(p) => if p > 0 && !has_port_in(l, p) && !has_port_in(r, p) {
            (l.push(local_detection(p)), r)
        } else {
            (l, r)
        },
        None => (l, r),
    }
}

fn has_port_in_exec(ds: &Vec<DetectedPort>, port: u16) -> (r: bool)
    ensures
        r == has_port_in(dps(ds@), port),
{
    let mut i: usize = 0;
    while i < ds.len()
        invariant
            i <= ds@.len(),
            forall|j: int| 0 <= j < i ==> (#[trigger] dps(ds@)[j]).port != port,
        decreases ds@.len() - i,
    {
        if ds[i].port == port {
            assert(dps(ds@)[i as int].port == port);
            return true;
        }
        i = i + 1;
    }
    false
}

pub struct LineScan {
    pub local: Vec<DetectedPort>,
    pub remote: Vec<DetectedPort>,
}

fn scan_words_exec(ws: &Vec<Vec<char>>) -> (r: LineScan)
    ensures
        scan_words(views(ws@)) == (dps(r.local@), dps(r.remote@)),
{
    let mut local: Vec<DetectedPort> = Vec::new();
    let mut remote: Vec<DetectedPort> = Vec::new();
    let mut i: usize = 0;
    while i < ws.len()
        invariant
            i <= ws@.len(),
            scan_words(views(ws@).take(i as int)) == (dps(local@), dps(remote@)),
        decreases ws@.len() - i,
    {
        proof {
            assert(views(ws@).take(i + 1).drop_last() =~= views(ws@).take(i as int));
            assert(views(ws@).take(i + 1).last() == ws@[i as int]@);
        }
        let word = trim_punct(ws[i].as_slice());
        match word_detection_exec(word.as_slice()) {
            Some(d) => {
                if d.local {
                    let ghost before = local@;
                    local.push(d);
                    assert(dps(local@) =~= dps(before).push(local@.last()@));
                } else {
                    let ghost before = remote@;
                    remote.push(d);
                    assert(dps(remote@) =~= dps(before).push(remote@.last()@));
                }
            },
            None => {},
        }
        i = i + 1;
    }
    assert(views(ws@).take(ws@.len() as int) =~= views(ws@));
    LineScan { local, remote }
}

/// The byte offset after the first `port ` of `lowered`, if any.
fn phrase_offset_exec(lowered: &str) -> (r: Option<u128>)
    ensures
        match r {
            Some(off) => phrase_offset_in(lowered@) == Some(off as nat) && off <= u128::MAX - 4,
            None => phrase_offset_in(lowered@) is None,
        },
{
    let lw = chars_of(lowered);
    let pat = chars_of("port ");
    proof {
        reveal_strlit("port ");
    }
    match find_infix(lw.as_slice(), pat.as_slice()) {
        Some(idx) => {
            assert(idx + pat@.len() <= lw@.len());
            Some(utf8_prefix_len(lw.as_slice(), idx) + 5)
        },
        None => None,
    }
}

/// Whether `line` can be sliced after the `port ` found in its lowercase
/// `lowered`.
pub fn port_phrase_is_ok_in(line: &str, lowered: &str) -> (r: bool)
    ensures
        r == port_phrase_ok_in(line@, lowered@),
{
    match phrase_offset_exec(lowered) {
        Some(off) => {
            let cs = chars_of(line);
            char_index_at_byte(cs.as_slice(), off).is_some()
        },
        None => true,
    }
}

/// The port a `port N` phrase gives: found in the lowercased line
/// `lowered`, read at the same byte offset in `line`.
pub fn port_phrase_in_exec(line: &str, lowered: &str) -> (r: Option<u16>)
    requires
        port_phrase_ok_in(line@, lowered@),
    ensures
        r == port_phrase_in(line@, lowered@),
{
    match phrase_offset_exec(lowered) {
        Some(off) => {
            let cs = chars_of(line);
            match char_index_at_byte(cs.as_slice(), off) {
                Some(k) => {
                    let after = slice_of(cs.as_slice(), k, cs.len());
                    assert(after@ =~= line@.skip(k as int));
                    let digits = take_while_numeric_exec(after.as_slice());
                    parse_u16_exec(digits.as_slice())
                },
                None => {
                    assert(false);
                    None
                },
            }
        },
        None => None,
    }
}

fn port_phrase_exec(line: &[char]) -> (r: Option<u16>)
    requires
        port_phrase_ok(line@),
    ensures
        r == port_phrase(line@),
{
    let text = string_of(line);
    let lowered = to_lowercase(text.as_str());
    assert(port_phrase(line@) == port_phrase_in(line@, lowered@)) by {
        reveal(port_phrase);
    }
    port_phrase_in_exec(text.as_str(), lowered.as_str())
}

fn scan_line_exec(line: &[char]) -> (r: LineScan)
    requires
        port_phrase_ok(line@),
    ensures
        scan_line(line@) == (dps(r.local@), dps(r.remote@)),
{
    let ws = words_of(line);
    let LineScan { mut local, remote } = scan_words_exec(&ws);
    match port_phrase_exec(line) {
        Some(p) => {
            if p > 0 && !has_port_in_exec(&local, p) && !has_port_in_exec(&remote, p) {
                let ghost before = local@;
                local.push(local_detection_exec(p));
                assert(dps(local@) =~= dps(before).push(local@.last()@));
            }
        },
        None => {},
    }
    LineScan { local, remote }
}

// ------------------------------------------------------------ hard wraps

/// What [`join_hard_wraps`] carries from one row to the next.
pub struct JoinState {
    pub out: Seq<char>,
    /// Where the current logical line starts in `out`.
    pub last_start: nat,
    /// The previous row filled the terminal width.
    pub cont: bool,
    /// Leading spaces of the logical line being continued.
    pub indent: nat,
}

/// `Vec::truncate`/`String::truncate`.
pub open spec fn truncated(s: Seq<char>, n: nat) -> Seq<char> {
    if n < s.len() {
        s.take(n as int)
    } else {
        s
    }
}

/// Number of leading `' '` characters.
pub open spec fn leading_spaces(s: Seq<char>) -> nat
    decreases s.len(),
{
    if s.len() > 0 && s[0] == ' ' {
        1 + leading_spaces(s.drop_first())
    } else {
        0
    }
}

/// `s` without up to `n` leading `' '` characters.
pub open spec fn strip_spaces(s: Seq<char>, n: nat) -> Seq<char>
    decreases n,
{
    if n > 0 && s.len() > 0 && s[0] == ' ' {
        strip_spaces(s.drop_first(), (n - 1) as nat)
    } else {
        s
    }
}

/// A row of this width filled the terminal: `cols`, or one short of it.
pub open spec fn fills_row(width: nat, cols: nat) -> bool {
    width == cols || width + 1 == cols
}

pub open spec fn join_start() -> JoinState {
    JoinState { out: seq![], last_start: 0, cont: false, indent: 0 }
}

/// One row of terminal output, right-trimmed, joined onto what came before.
pub open spec fn join_step(st: JoinState, raw: Seq<char>, cols: nat) -> JoinState {
    let line = trim_end(raw);
    if st.cont && line.len() == 0 {
        JoinState {
            out: truncated(st.out, st.last_start),
            last_start: st.last_start,
            cont: false,
            indent: st.indent,
        }
    } else if st.cont {
        JoinState {
            out: st.out + strip_spaces(line, st.indent),
            last_start: st.last_start,
            cont: fills_row(line.len(), cols),
            indent: st.indent,
        }
    } else if st.out.len() > 0 {
        JoinState {
            out: st.out.push('\n') + line,
            last_start: st.out.len() + 1,
            cont: fills_row(line.len(), cols),
            indent: leading_spaces(line),
        }
    } else {
        JoinState {
            out: st.out + line,
            last_start: st.last_start,
            cont: fills_row(line.len(), cols),
            indent: leading_spaces(line),
        }
    }
}

pub open spec fn join_fold(rows: Seq<Seq<char>>, cols: nat) -> JoinState
    decreases rows.len(),
{
    if rows.len() == 0 {
        join_start()
    } else {
        join_step(join_fold(rows.drop_last(), cols), rows.last(), cols)
    }
}

/// `text` with rows hard-wrapped at `cols` re-joined into logical lines:
/// a row `cols` or `cols - 1` characters wide (after trimming trailing
/// whitespace) continues on the next row, whose leading spaces up to the
/// indent of the line it continues are dropped. A full row followed by a
/// blank row, or ending the text, is dropped with the logical line it
/// belongs to. With `cols < 2` or `cols == usize::MAX` the text is kept.
pub open spec fn joined(text: Seq<char>, cols: usize) -> Seq<char> {
    if cols < 2 || cols == usize::MAX {
        text
    } else {
        let st = join_fold(text_lines(text), cols as nat);
        if st.cont {
            truncated(st.out, st.last_start)
        } else {
            st.out
        }
    }
}

proof fn lemma_leading_spaces(s: Seq<char>, k: int)
    requires
        0 <= k <= s.len(),
        forall|m: int| 0 <= m < k ==> s[m] == ' ',
        k == s.len() || s[k] != ' ',
    ensures
        leading_spaces(s) == k,
    decreases k,
{
    if k > 0 {
        lemma_leading_spaces(s.drop_first(), k - 1);
    }
}

proof fn lemma_strip_spaces(s: Seq<char>, n: nat, k: int)
    requires
        0 <= k <= n,
        k <= s.len(),
        forall|m: int| 0 <= m < k ==> s[m] == ' ',
        k == n || k == s.len() || s[k] != ' ',
    ensures
        strip_spaces(s, n) == s.skip(k),
    decreases k,
{
    if k > 0 {
        lemma_strip_spaces(s.drop_first(), (n - 1) as nat, k - 1);
        assert(s.drop_first().skip(k - 1) =~= s.skip(k));
    } else {
        assert(s.skip(0) =~= s);
    }
}

fn join_rows(rows: &Vec<Vec<char>>, cols: usize) -> (r: Vec<char>)
    requires
        2 <= cols,
    ensures
        ({
            let st = join_fold(views(rows@), cols as nat);
            r@ == (if st.cont {
                truncated(st.out, st.last_start)
            } else {
                st.out
            })
        }),
{
    let mut out: Vec<char> = Vec::new();
    let mut last_start: usize = 0;
    let mut cont = false;
    let mut indent: usize = 0;
    let mut i: usize = 0;
    while i < rows.len()
        invariant
            2 <= cols,
            i <= rows@.len(),
            join_fold(views(rows@).take(i as int), cols as nat) == (JoinState {
                out: out@,
                last_start: last_start as nat,
                cont,
                indent: indent as nat,
            }),
        decreases rows@.len() - i,
    {
        proof {
            assert(views(rows@).take(i + 1).drop_last() =~= views(rows@).take(i as int));
            assert(views(rows@).take(i + 1).last() == rows@[i as int]@);
        }
        let raw = rows[i].as_slice();
        let n = trim_end_len(raw);
        let line = slice_of(raw, 0, n);
        assert(line@ =~= trim_end(raw@));
        let ghost prev = JoinState {
            out: out@,
            last_start: last_start as nat,
            cont,
            indent: indent as nat,
        };
        let ghost want = join_step(prev, raw@, cols as nat);
        if cont && n == 0 {
            out.truncate(last_start);
            cont = false;
            assert(out@ =~= want.out);
        } else {
            if cont {
                let mut k: usize = 0;
                while k < indent && k < n && line[k] == ' '
                    invariant
                        k <= indent,
                        k <= n,
                        n == line@.len(),
                        forall|m: int| 0 <= m < k ==> line@[m] == ' ',
                    decreases n - k,
                {
                    k = k + 1;
                }
                proof {
                    lemma_strip_spaces(line@, indent as nat, k as int);
                }
                let rest = slice_of(line.as_slice(), k, n);
                assert(rest@ =~= line@.skip(k as int));
                append_chars(&mut out, rest.as_slice());
                assert(out@ =~= want.out);
            } else {
                if out.len() > 0 {
                    out.push('\n');
                    last_start = out.len();
                }
                let mut k: usize = 0;
                while k < n && line[k] == ' '
                    invariant
                        k <= n,
                        n == line@.len(),
                        forall|m: int| 0 <= m < k ==> line@[m] == ' ',
                    decreases n - k,
                {
                    k = k + 1;
                }
                proof {
                    lemma_leading_spaces(line@, k as int);
                }
                indent = k;
                append_chars(&mut out, line.as_slice());
                assert(out@ =~= want.out);
            }
            cont = n == cols || n == cols - 1;
        }
        i = i + 1;
    }
    assert(views(rows@).take(rows@.len() as int) =~= views(rows@));
    if cont {
        let ghost before = out@;
        out.truncate(last_start);
        assert(out@ =~= truncated(before, last_start as nat));
    }
    out
}

/// Re-joins lines that were hard-wrapped at the terminal width (see
/// [`joined`]).
pub fn join_hard_wraps(text: &str, cols: usize) -> (r: String)
    ensures
        r@ == joined(text@, cols),
{
    let chars = chars_of(text);
    if cols < 2 || cols == usize::MAX {
        return string_of(chars.as_slice());
    }
    let rows = lines_of(chars.as_slice());
    let out = join_rows(&rows, cols);
    string_of(out.as_slice())
}

// ------------------------------------------------------------ scanning text

/// What a scan of several lines gathers.
pub struct ScanAcc {
    /// Detections on lines labeled as the primary page, marked preferred.
    pub preferred: Seq<DetectedPortView>,
    /// Local detections on lines that are not build-tool lines.
    pub local: Seq<DetectedPortView>,
    /// Remote detections on lines that are not build-tool lines.
    pub remote: Seq<DetectedPortView>,
    /// Every distinct local port, in first-seen order.
    pub seen: Seq<u16>,
}

/// `seen` extended by the ports of `ds` it does not hold yet, in order.
pub open spec fn harvest(seen: Seq<u16>, ds: Seq<DetectedPortView>) -> Seq<u16>
    decreases ds.len(),
{
    if ds.len() == 0 {
        seen
    } else {
        let s = harvest(seen, ds.drop_last());
        if s.contains(ds.last().port) {
            s
        } else {
            s.push(ds.last().port)
        }
    }
}

pub open spec fn mark_preferred(ds: Seq<DetectedPortView>) -> Seq<DetectedPortView> {
    ds.map_values(
        |d: DetectedPortView|
            DetectedPortView { port: d.port, url: d.url, local: d.local, preferred: true },
    )
}

/// "Port 5173 is in use, trying another one..." names another process's port.
pub open spec fn names_foreign_port(line: Seq<char>) -> bool {
    has_infix(lower(line), "is in use"@)
}

pub open spec fn scan_lines(lines: Seq<Seq<char>>, seen: Seq<u16>) -> ScanAcc
    decreases lines.len(),
{
    if lines.len() == 0 {
        ScanAcc { preferred: seq![], local: seq![], remote: seq![], seen }
    } else {
        let acc = scan_lines(lines.drop_last(), seen);
        let line = lines.last();
        if names_foreign_port(line) {
            acc
        } else {
            let (l, r) = scan_line(line);
            ScanAcc {
                preferred: if is_preferred_line(line) {
                    acc.preferred + mark_preferred(l + r)
                } else {
                    acc.preferred
                },
                local: if is_tool_line(line) {
                    acc.local
                } else {
                    acc.local + l
                },
                remote: if is_tool_line(line) {
                    acc.remote
                } else {
                    acc.remote + r
                },
                seen: harvest(acc.seen, l),
            }
        }
    }
}

/// Every line that is scanned for a `port N` phrase can be sliced after it.
pub open spec fn lines_ok(lines: Seq<Seq<char>>) -> bool {
    forall|i: int|
        0 <= i < lines.len() ==> names_foreign_port(#[trigger] lines[i]) || port_phrase_ok(lines[i])
}

/// `scan_output_wrapped` accepts `text` re-joined at `cols`.
pub open spec fn scan_text_ok(text: Seq<char>, cols: usize) -> bool {
    lines_ok(text_lines(joined(text, cols)))
}

/// Whether the `port N` phrase of `line`, if any, can be sliced after.
pub fn port_phrase_is_ok(line: &[char]) -> (r: bool)
    ensures
        r == port_phrase_ok(line@),
{
    let text = string_of(line);
    let lowered = to_lowercase(text.as_str());
    port_phrase_is_ok_in(text.as_str(), lowered.as_str())
}

/// Whether `scan_output_wrapped` accepts `text` at `cols`.
pub fn scan_text_is_ok(text: &str, cols: usize) -> (r: bool)
    ensures
        r == scan_text_ok(text@, cols),
{
    let joined_text = join_hard_wraps(text, cols);
    let chars = chars_of(joined_text.as_str());
    let lines = lines_of(chars.as_slice());
    let in_use = chars_of("is in use");
    let ghost ls = views(lines@);
    let mut i: usize = 0;
    while i < lines.len()
        invariant
            i <= lines@.len(),
            ls == views(lines@),
            ls == text_lines(joined(text@, cols)),
            in_use@ == "is in use"@,
            forall|j: int|
                0 <= j < i ==> names_foreign_port(#[trigger] ls[j]) || port_phrase_ok(ls[j]),
        decreases lines@.len() - i,
    {
        assert(ls[i as int] == lines@[i as int]@);
        let lw = lower_of(lines[i].as_slice());
        if !contains_infix(lw.as_slice(), in_use.as_slice()) && !port_phrase_is_ok(
            lines[i].as_slice(),
        ) {
            assert(!(names_foreign_port(ls[i as int]) || port_phrase_ok(ls[i as int])));
            assert(!lines_ok(ls));
            return false;
        }
        i = i + 1;
    }
    true
}

fn contains_u16(v: &Vec<u16>, x: u16) -> (r: bool)
    ensures
        r == v@.contains(x),
{
    let mut i: usize = 0;
    while i < v.len()
        invariant
            i <= v@.len(),
            forall|j: int| 0 <= j < i ==> v@[j] != x,
        decreases v@.len() - i,
    {
        if v[i] == x {
            assert(v@[i as int] == x);
            return true;
        }
        i = i + 1;
    }
    false
}

fn harvest_exec(seen: &mut Vec<u16>, ds: &Vec<DetectedPort>)
    ensures
        final(seen)@ == harvest(old(seen)@, dps(ds@)),
{
    let mut i: usize = 0;
    while i < ds.len()
        invariant
            i <= ds@.len(),
            seen@ == harvest(old(seen)@, dps(ds@).take(i as int)),
        decreases ds@.len() - i,
    {
        proof {
            assert(dps(ds@).take(i + 1).drop_last() =~= dps(ds@).take(i as int));
            assert(dps(ds@).take(i + 1).last() == ds@[i as int]@);
        }
        let p = ds[i].port;
        if !contains_u16(seen, p) {
            seen.push(p);
        }
        i = i + 1;
    }
    assert(dps(ds@).take(ds@.len() as int) =~= dps(ds@));
}

fn push_all(dst: &mut Vec<DetectedPort>, src: &Vec<DetectedPort>, preferred: bool)
    ensures
        dps(final(dst)@) == dps(old(dst)@) + (if preferred {
            mark_preferred(dps(src@))
        } else {
            dps(src@)
        }),
{
    let mut i: usize = 0;
    while i < src.len()
        invariant
            i <= src@.len(),
            dps(dst@) == dps(old(dst)@) + (if preferred {
                mark_preferred(dps(src@).take(i as int))
            } else {
                dps(src@).take(i as int)
            }),
        decreases src@.len() - i,
    {
        let d = src[i].duplicate();
        let ghost before = dst@;
        if preferred {
            dst.push(DetectedPort { port: d.port, url: d.url, local: d.local, preferred: true });
        } else {
            dst.push(d);
        }
        proof {
            assert(dps(dst@) =~= dps(before).push(dst@.last()@));
            assert(dps(src@).take(i + 1) =~= dps(src@).take(i as int).push(src@[i as int]@));
            if preferred {
                assert(mark_preferred(dps(src@).take(i + 1)) =~= mark_preferred(
                    dps(src@).take(i as int),
                ).push(dst@.last()@));
            }
        }
        i = i + 1;
        proof {
            if preferred {
                assert(dps(dst@) =~= dps(old(dst)@) + mark_preferred(dps(src@).take(i as int)));
            } else {
                assert(dps(dst@) =~= dps(old(dst)@) + dps(src@).take(i as int));
            }
        }
    }
    assert(dps(src@).take(src@.len() as int) =~= dps(src@));
}

pub struct ScanVecs {
    pub preferred: Vec<DetectedPort>,
    pub local: Vec<DetectedPort>,
    pub remote: Vec<DetectedPort>,
    pub seen: Vec<u16>,
}

pub open spec fn scan_vecs_view(s: ScanVecs) -> ScanAcc {
    ScanAcc {
        preferred: dps(s.preferred@),
        local: dps(s.local@),
        remote: dps(s.remote@),
        seen: s.seen@,
    }
}

fn scan_lines_exec(lines: &Vec<Vec<char>>, seen: Vec<u16>) -> (r: ScanVecs)
    requires
        lines_ok(views(lines@)),
    ensures
        scan_vecs_view(r) == scan_lines(views(lines@), seen@),
{
    let ghost seen0 = seen@;
    let mut acc = ScanVecs { preferred: Vec::new(), local: Vec::new(), remote: Vec::new(), seen };
    let in_use = chars_of("is in use");
    let mut i: usize = 0;
    assert(views(lines@).take(0) =~= Seq::<Seq<char>>::empty());
    assert(scan_vecs_view(acc).preferred =~= Seq::<DetectedPortView>::empty());
    assert(scan_vecs_view(acc).local =~= Seq::<DetectedPortView>::empty());
    assert(scan_vecs_view(acc).remote =~= Seq::<DetectedPortView>::empty());
    while i < lines.len()
        invariant
            i <= lines@.len(),
            in_use@ == "is in use"@,
            lines_ok(views(lines@)),
            scan_vecs_view(acc) == scan_lines(views(lines@).take(i as int), seen0),
        decreases lines@.len() - i,
    {
        proof {
            assert(views(lines@).take(i + 1).drop_last() =~= views(lines@).take(i as int));
            assert(views(lines@).take(i + 1).last() == lines@[i as int]@);
        }
        let line = lines[i].as_slice();
        let lw = lower_of(line);
        if !contains_infix(lw.as_slice(), in_use.as_slice()) {
            assert(views(lines@)[i as int] == lines@[i as int]@);
            let ls = scan_line_exec(line);
            harvest_exec(&mut acc.seen, &ls.local);
            if is_preferred_line_exec(line) {
                push_all(&mut acc.preferred, &ls.local, true);
                push_all(&mut acc.preferred, &ls.remote, true);
                proof {
                    let l = dps(ls.local@);
                    let r = dps(ls.remote@);
                    assert(mark_preferred(l + r) =~= mark_preferred(l) + mark_preferred(r));
                }
            }
            if !is_tool_line_exec(line) {
                push_all(&mut acc.local, &ls.local, false);
                push_all(&mut acc.remote, &ls.remote, false);
            }
            proof {
                assert(scan_vecs_view(acc).preferred =~= scan_lines(
                    views(lines@).take(i + 1),
                    seen0,
                ).preferred);
                assert(scan_vecs_view(acc) == scan_lines(views(lines@).take(i + 1), seen0));
            }
        }
        i = i + 1;
    }
    assert(views(lines@).take(lines@.len() as int) =~= views(lines@));
    acc
}

// ------------------------------------------------------------ the detector

/// Ports detected per process, and every local port each process printed.
pub struct PortDetector {
    ports: StringHashMap<Vec<DetectedPort>>,
    /// Every distinct local port seen in a process's output — including
    /// build-tool lines that are excluded from the badge choice. Remote
    /// projects tunnel all of these.
    seen_local: StringHashMap<Vec<u16>>,
}

/// A [`PortDetector`] as a mathematical value: the badge candidates of each
/// process (first one shown) and its local ports in first-seen order. A
/// process with nothing recorded has no entry.
pub struct PortDetectorView {
    pub ports: Map<Seq<char>, Seq<DetectedPortView>>,
    pub seen: Map<Seq<char>, Seq<u16>>,
}

impl View for PortDetector {
    type V = PortDetectorView;

    closed spec fn view(&self) -> PortDetectorView {
        PortDetectorView {
            ports: Map::new(
                |k: Seq<char>| self.ports@.contains_key(k) && self.ports@[k]@.len() > 0,
                |k: Seq<char>| dps(self.ports@[k]@),
            ),
            seen: Map::new(
                |k: Seq<char>| self.seen_local@.contains_key(k) && self.seen_local@[k]@.len() > 0,
                |k: Seq<char>| self.seen_local@[k]@,
            ),
        }
    }
}

/// The detection a process's badge shows.
pub open spec fn badge(v: PortDetectorView, name: Seq<char>) -> Option<DetectedPortView> {
    if v.ports.contains_key(name) {
        Some(v.ports[name][0])
    } else {
        None
    }
}

/// The badge is final: a local port, or a labeled preferred URL.
pub open spec fn badge_is_final(v: PortDetectorView, name: Seq<char>) -> bool {
    match badge(v, name) {
        Some(d) => d.local || d.preferred,
        None => false,
    }
}

/// The local ports seen for a process, in first-seen order.
pub open spec fn seen_of(v: PortDetectorView, name: Seq<char>) -> Seq<u16> {
    if v.seen.contains_key(name) {
        v.seen[name]
    } else {
        seq![]
    }
}

/// The detector after scanning `text` (rows hard-wrapped at `cols`) of
/// process `name`. Local ports are always harvested. The badge is kept
/// once final; otherwise the preferred detections win, then the local
/// ones, then the remote ones — these only when no badge exists yet.
pub open spec fn after_scan(
    v: PortDetectorView,
    name: Seq<char>,
    text: Seq<char>,
    cols: usize,
) -> PortDetectorView {
    let acc = scan_lines(text_lines(joined(text, cols)), seen_of(v, name));
    PortDetectorView {
        ports: if badge_is_final(v, name) {
            v.ports
        } else if acc.preferred.len() > 0 {
            v.ports.insert(name, acc.preferred)
        } else if acc.local.len() > 0 {
            v.ports.insert(name, acc.local)
        } else if acc.remote.len() > 0 && !v.ports.contains_key(name) {
            v.ports.insert(name, acc.remote)
        } else {
            v.ports
        },
        seen: if acc.seen.len() > 0 {
            v.seen.insert(name, acc.seen)
        } else {
            v.seen
        },
    }
}

fn copy_u16s(v: &Vec<u16>) -> (r: Vec<u16>)
    ensures
        r@ == v@,
{
    let mut out: Vec<u16> = Vec::new();
    let mut i: usize = 0;
    while i < v.len()
        invariant
            i <= v@.len(),
            out@ == v@.take(i as int),
        decreases v@.len() - i,
    {
        out.push(v[i]);
        i = i + 1;
        assert(out@ =~= v@.take(i as int));
    }
    assert(v@.take(v@.len() as int) =~= v@);
    out
}

impl Default for PortDetector {
    fn default() -> (r: Self)
        ensures
            r@.ports == Map::<Seq<char>, Seq<DetectedPortView>>::empty(),
            r@.seen == Map::<Seq<char>, Seq<u16>>::empty(),
    {
        Self::new()
    }
}

impl PortDetector {
    pub fn new() -> (r: Self)
        ensures
            r@.ports == Map::<Seq<char>, Seq<DetectedPortView>>::empty(),
            r@.seen == Map::<Seq<char>, Seq<u16>>::empty(),
    {
        let r = PortDetector { ports: StringHashMap::new(), seen_local: StringHashMap::new() };
        assert(r@.ports =~= Map::<Seq<char>, Seq<DetectedPortView>>::empty());
        assert(r@.seen =~= Map::<Seq<char>, Seq<u16>>::empty());
        r
    }

    /// Returns true once any port (local or provisional remote) is known.
    pub fn has_port(&self, process_name: &str) -> (r: bool)
        ensures
            r == self@.ports.contains_key(process_name@),
    {
        match self.ports.get(process_name) {
            Some(v) => v.len() > 0,
            None => false,
        }
    }

    /// Returns true when the badge points at a genuinely local port — the
    /// gate for tunnelling and the port badge.
    pub fn has_local_port(&self, process_name: &str) -> (r: bool)
        ensures
            r == (badge(self@, process_name@) matches Some(d) && d.local),
    {
        match self.ports.get(process_name) {
            Some(v) => v.len() > 0 && v[0].local,
            None => false,
        }
    }

    /// Returns true once the badge is final — a local port locked, or a
    /// labeled preferred URL won. A plain remote-URL fallback stays
    /// provisional so a later local URL can replace it.
    pub fn badge_final(&self, process_name: &str) -> (r: bool)
        ensures
            r == badge_is_final(self@, process_name@),
    {
        match self.ports.get(process_name) {
            Some(v) => v.len() > 0 && (v[0].local || v[0].preferred),
            None => false,
        }
    }

    /// All distinct local ports seen in this process's output, in
    /// first-seen order — the full set a remote project needs tunnelled.
    pub fn all_local_ports(&self, process_name: &str) -> (r: Vec<u16>)
        ensures
            r@ == seen_of(self@, process_name@),
    {
        match self.seen_local.get(process_name) {
            Some(v) => copy_u16s(v),
            None => Vec::new(),
        }
    }

    /// Forget the port for a process so the next scan re-detects.
    pub fn clear(&mut self, process_name: &str)
        ensures
            final(self)@.ports == old(self)@.ports.remove(process_name@),
            final(self)@.seen == old(self)@.seen.remove(process_name@),
    {
        self.ports.remove(process_name);
        self.seen_local.remove(process_name);
        assert(self@.ports =~= old(self)@.ports.remove(process_name@));
        assert(self@.seen =~= old(self)@.seen.remove(process_name@));
    }

    /// Scan complete logical lines.
    pub fn scan_output(&mut self, process_name: &str, text: &str)
        requires
            scan_text_ok(text@, usize::MAX),
        ensures
            final(self)@ == after_scan(old(self)@, process_name@, text@, usize::MAX),
    {
        self.scan_output_wrapped(process_name, text, usize::MAX);
    }

    /// Like [`Self::scan_output`], but first re-joins lines hard-wrapped at
    /// `cols`.
    pub fn scan_output_wrapped(&mut self, process_name: &str, text: &str, cols: usize)
        requires
            scan_text_ok(text@, cols),
        ensures
            final(self)@ == after_scan(old(self)@, process_name@, text@, cols),
    {
        let joined_text = join_hard_wraps(text, cols);
        let chars = chars_of(joined_text.as_str());
        let lines = lines_of(chars.as_slice());
        let badge_locked = self.badge_final(process_name);
        let had_port = self.has_port(process_name);
        let seen0: Vec<u16> = match self.seen_local.get(process_name) {
            Some(v) => copy_u16s(v),
            None => Vec::new(),
        };
        let ghost v0 = self@;
        assert(seen0@ =~= seen_of(v0, process_name@));
        assert(views(lines@) == text_lines(joined(text@, cols)));
        let ScanVecs { preferred, local, remote, seen } = scan_lines_exec(&lines, seen0);
        let ghost acc = scan_lines(text_lines(joined(text@, cols)), seen_of(v0, process_name@));
        assert(acc == ScanAcc {
            preferred: dps(preferred@),
            local: dps(local@),
            remote: dps(remote@),
            seen: seen@,
        });
        let ghost want = after_scan(v0, process_name@, text@, cols);
        if seen.len() > 0 {
            self.seen_local.insert(process_name.to_owned(), seen);
        }
        assert(self@.seen =~= want.seen);
        if badge_locked {
            assert(self@.ports =~= want.ports);
            return;
        }
        if preferred.len() > 0 {
            self.ports.insert(process_name.to_owned(), preferred);
        } else if local.len() > 0 {
            self.ports.insert(process_name.to_owned(), local);
        } else if remote.len() > 0 && !had_port {
            self.ports.insert(process_name.to_owned(), remote);
        }
        assert(self@.ports =~= want.ports);
    }

    /// Scans like [`Self::scan_output_wrapped`] when every line it would
    /// read a `port N` phrase from can be sliced after the phrase, and
    /// returns `true`; otherwise changes nothing and returns `false` (where
    /// the byte slicing of such a line would panic).
    pub fn scan_output_checked(&mut self, process_name: &str, text: &str, cols: usize) -> (r: bool)
        ensures
            r == scan_text_ok(text@, cols),
            r ==> final(self)@ == after_scan(old(self)@, process_name@, text@, cols),
            !r ==> final(self)@ == old(self)@,
    {
        if scan_text_is_ok(text, cols) {
            if cols == usize::MAX {
                self.scan_output(process_name, text);
            } else {
                self.scan_output_wrapped(process_name, text, cols);
            }
            true
        } else {
            false
        }
    }

    pub fn get_port(&self, process_name: &str) -> (r: Option<u16>)
        ensures
            r == (match badge(self@, process_name@) {
                Some(d) => Some(d.port),
                None => None,
            }),
    {
        match self.ports.get(process_name) {
            Some(v) => if v.len() > 0 {
                Some(v[0].port)
            } else {
                None
            },
            None => None,
        }
    }

    pub fn get_url(&self, process_name: &str) -> (r: Option<&str>)
        ensures
            match r {
                Some(u) => badge(self@, process_name@) matches Some(d) && d.url == Some(u@),
                None => match badge(self@, process_name@) {
                    Some(d) => d.url is None,
                    None => true,
                },
            },
    {
        match self.ports.get(process_name) {
            Some(v) => if v.len() > 0 {
                match &v[0].url {
                    Some(u) => Some(u.as_str()),
                    None => None,
                }
            } else {
                None
            },
            None => None,
        }
    }
}

// ------------------------------------------------------------ remapping

/// `rest` with every occurrence of `needle` that is not followed by an
/// ASCII digit replaced by `repl`, scanning left to right; an occurrence
/// followed by a digit is kept and the scan resumes after it.
pub open spec fn remap(rest: Seq<char>, needle: Seq<char>, repl: Seq<char>) -> Seq<char>
    decreases rest.len(),
{
    match find_str(rest, needle) {
        Some(i) => if needle.len() > 0 {
            let end = i + needle.len();
            proof {
                lemma_find_str_some(rest, needle);
            }
            let tail = rest.skip(end);
            let head = if tail.len() > 0 && is_digit(tail[0]) {
                rest.take(end)
            } else {
                rest.take(i) + repl
            };
            head + remap(tail, needle, repl)
        } else {
            rest
        },
        None => rest,
    }
}

/// `":"` followed by the decimal port number.
pub open spec fn colon_port(port: u16) -> Seq<char> {
    seq![':'] + dec(port as nat)
}

/// The URL with `:{from}` rewritten to `:{to}` wherever the port number
/// actually ends there.
pub open spec fn remapped_url(url: Seq<char>, from: u16, to: u16) -> Seq<char> {
    remap(url, colon_port(from), colon_port(to))
}

fn colon_port_exec(port: u16) -> (r: Vec<char>)
    ensures
        r@ == colon_port(port),
        r@.len() > 0,
{
    let mut v = vec![':'];
    push_dec(&mut v, port as u64);
    assert(v@ =~= colon_port(port));
    v
}

/// Rewrite `:{from}` to `:{to}` in a URL, but only where the port number
/// actually ends there — a plain string replace would corrupt
/// `http://localhost:8080` when remapping port 80.
pub fn remap_url_port(url: &str, from: u16, to: u16) -> (r: String)
    ensures
        r@ == remapped_url(url@, from, to),
{
    let needle = colon_port_exec(from);
    let repl = colon_port_exec(to);
    let chars = chars_of(url);
    let mut out: Vec<char> = Vec::new();
    let mut pos: usize = 0;
    assert(chars@.skip(0) =~= chars@);
    assert(out@ + chars@ =~= chars@);
    while pos <= chars.len()
        invariant
            pos <= chars@.len(),
            needle@.len() > 0,
            chars@ == url@,
            needle@ == colon_port(from),
            repl@ == colon_port(to),
            out@ + remap(chars@.skip(pos as int), needle@, repl@) == remap(chars@, needle@, repl@),
        decreases chars@.len() - pos,
    {
        let rest = slice_of(chars.as_slice(), pos, chars.len());
        assert(rest@ =~= chars@.skip(pos as int));
        match find_infix(rest.as_slice(), needle.as_slice()) {
            Some(i) => {
                let ghost old_out = out@;
                let end = i + needle.len();
                let next_is_digit = end < rest.len() && is_digit_char(rest[end]);
                let ghost tail = rest@.skip(end as int);
                proof {
                    if end < rest@.len() {
                        assert(tail[0] == rest@[end as int]);
                    }
                    assert(next_is_digit == (tail.len() > 0 && is_digit(tail[0])));
                    let head_spec = if tail.len() > 0 && is_digit(tail[0]) {
                        rest@.take(end as int)
                    } else {
                        rest@.take(i as int) + repl@
                    };
                    assert(remap(rest@, needle@, repl@) == head_spec + remap(tail, needle@, repl@));
                }
                if next_is_digit {
                    let head = slice_of(rest.as_slice(), 0, end);
                    append_chars(&mut out, head.as_slice());
                    assert(head@ =~= rest@.take(end as int));
                } else {
                    let head = slice_of(rest.as_slice(), 0, i);
                    append_chars(&mut out, head.as_slice());
                    append_chars(&mut out, repl.as_slice());
                    assert(head@ =~= rest@.take(i as int));
                }
                assert(chars@.skip(pos + end) =~= tail);
                assert(out@ + remap(tail, needle@, repl@) =~= old_out + remap(rest@, needle@, repl@));
                pos = pos + end;
            },
            None => {
                let ghost before = out@;
                append_chars(&mut out, rest.as_slice());
                assert(remap(rest@, needle@, repl@) == rest@);
                assert(out@ == remap(chars@, needle@, repl@));
                assert(chars@ == url@);
                assert(needle@ == colon_port(from));
                return string_of(out.as_slice());
            },
        }
    }
    assert(false);
    string_of(out.as_slice())
}

// ------------------------------------------------------------ laws

/// Once a process's badge is final — a local port, or a labeled preferred
/// URL — no later scan of that process changes its badge candidates.
pub proof fn law_final_badge_is_sticky(
    v: PortDetectorView,
    name: Seq<char>,
    text: Seq<char>,
    cols: usize,
)
    requires
        badge_is_final(v, name),
    ensures
        after_scan(v, name, text, cols).ports == v.ports,
{
}

proof fn lemma_harvest_extends(seen: Seq<u16>, ds: Seq<DetectedPortView>)
    ensures
        harvest(seen, ds).len() >= seen.len(),
        harvest(seen, ds).take(seen.len() as int) == seen,
        seen.no_duplicates() ==> harvest(seen, ds).no_duplicates(),
        forall|i: int| 0 <= i < ds.len() && ds[i].local ==> harvest(seen, ds).contains(ds[i].port),
    decreases ds.len(),
{
    if ds.len() > 0 {
        lemma_harvest_extends(seen, ds.drop_last());
        let s = harvest(seen, ds.drop_last());
        if !s.contains(ds.last().port) {
            assert(s.push(ds.last().port).take(seen.len() as int) =~= s.take(seen.len() as int));
            assert(s.push(ds.last().port)[s.len() as int] == ds.last().port);
        }
        assert forall|i: int| 0 <= i < ds.len() && ds[i].local implies harvest(
            seen,
            ds,
        ).contains(ds[i].port) by {
            if i < ds.len() - 1 {
                assert(ds.drop_last()[i] == ds[i]);
                let j = choose|j: int| 0 <= j < s.len() && s[j] == ds[i].port;
                if !s.contains(ds.last().port) {
                    assert(s.push(ds.last().port)[j] == ds[i].port);
                }
            } else {
                if !s.contains(ds.last().port) {
                    assert(s.push(ds.last().port)[s.len() as int] == ds.last().port);
                }
            }
        }
    } else {
        assert(seen.take(seen.len() as int) =~= seen);
    }
}

/// All detections of a scan have the kind their list stands for.
pub open spec fn scan_kinds(acc: ScanAcc) -> bool {
    &&& forall|i: int| 0 <= i < acc.preferred.len() ==> (#[trigger] acc.preferred[i]).preferred
    &&& forall|i: int| 0 <= i < acc.local.len() ==> (#[trigger] acc.local[i]).local
    &&& forall|i: int| 0 <= i < acc.remote.len() ==> !(#[trigger] acc.remote[i]).local
}

proof fn lemma_scan_words_kinds(ws: Seq<Seq<char>>)
    ensures
        forall|i: int| 0 <= i < scan_words(ws).0.len() ==> (#[trigger] scan_words(ws).0[i]).local,
        forall|i: int|
            0 <= i < scan_words(ws).1.len() ==> !(#[trigger] scan_words(ws).1[i]).local,
    decreases ws.len(),
{
    if ws.len() > 0 {
        lemma_scan_words_kinds(ws.drop_last());
    }
}

proof fn lemma_scan_line_kinds(line: Seq<char>)
    ensures
        forall|i: int| 0 <= i < scan_line(line).0.len() ==> (#[trigger] scan_line(line).0[i]).local,
        forall|i: int|
            0 <= i < scan_line(line).1.len() ==> !(#[trigger] scan_line(line).1[i]).local,
{
    lemma_scan_words_kinds(words(line));
}

proof fn lemma_scan_lines(lines: Seq<Seq<char>>, seen: Seq<u16>)
    ensures
        scan_kinds(scan_lines(lines, seen)),
        scan_lines(lines, seen).seen.len() >= seen.len(),
        scan_lines(lines, seen).seen.take(seen.len() as int) == seen,
        seen.no_duplicates() ==> scan_lines(lines, seen).seen.no_duplicates(),
        forall|i: int|
            0 <= i < scan_lines(lines, seen).local.len() ==> scan_lines(lines, seen).seen.contains(
                #[trigger] scan_lines(lines, seen).local[i].port,
            ),
        forall|i: int|
            0 <= i < scan_lines(lines, seen).preferred.len() && (#[trigger] scan_lines(
                lines,
                seen,
            ).preferred[i]).local ==> scan_lines(lines, seen).seen.contains(
                scan_lines(lines, seen).preferred[i].port,
            ),
    decreases lines.len(),
{
    if lines.len() == 0 {
        assert(seen.take(seen.len() as int) =~= seen);
    } else {
        lemma_scan_lines(lines.drop_last(), seen);
        let acc = scan_lines(lines.drop_last(), seen);
        let line = lines.last();
        if !names_foreign_port(line) {
            let (l, r) = scan_line(line);
            lemma_scan_line_kinds(line);
            lemma_harvest_extends(acc.seen, l);
            let s = harvest(acc.seen, l);
            assert(s.take(seen.len() as int) =~= s.take(acc.seen.len() as int).take(
                seen.len() as int,
            ));
            let now = scan_lines(lines, seen);
            assert forall|i: int| 0 <= i < now.preferred.len() implies (
            #[trigger] now.preferred[i]).preferred && (now.preferred[i].local ==> now.seen.contains(
                now.preferred[i].port,
            )) by {
                if i >= acc.preferred.len() {
                    let k = i - acc.preferred.len();
                    assert(now.preferred[i] == mark_preferred(l + r)[k]);
                    if now.preferred[i].local {
                        assert((l + r)[k].local);
                        if k >= l.len() {
                            assert((l + r)[k] == r[k - l.len()]);
                        } else {
                            assert((l + r)[k] == l[k]);
                        }
                    }
                } else if now.preferred[i].local {
                    let j = choose|j: int|
                        0 <= j < acc.seen.len() && acc.seen[j] == now.preferred[i].port;
                    assert(s.take(acc.seen.len() as int)[j] == acc.seen[j]);
                    assert(s[j] == now.preferred[i].port);
                }
            }
            assert forall|i: int| 0 <= i < now.local.len() implies (#[trigger] now.local[i]).local
                && now.seen.contains(now.local[i].port) by {
                if i < acc.local.len() {
                    let j = choose|j: int| 0 <= j < acc.seen.len() && acc.seen[j] == now.local[i].port;
                    assert(s.take(acc.seen.len() as int)[j] == acc.seen[j]);
                    assert(s[j] == now.local[i].port);
                } else {
                    assert(now.local[i] == l[i - acc.local.len()]);
                }
            }
            assert forall|i: int| 0 <= i < now.remote.len() implies !(
            #[trigger] now.remote[i]).local by {
                if i >= acc.remote.len() {
                    assert(now.remote[i] == r[i - acc.remote.len()]);
                }
            }
        }
    }
}

/// A scan that finds a labeled preferred URL, or a local port on a line
/// that is not a build-tool line, leaves the process's badge final.
pub proof fn law_local_or_preferred_detection_finalizes(
    v: PortDetectorView,
    name: Seq<char>,
    text: Seq<char>,
    cols: usize,
)
    requires
        ({
            let acc = scan_lines(text_lines(joined(text, cols)), seen_of(v, name));
            acc.preferred.len() > 0 || acc.local.len() > 0
        }),
    ensures
        badge_is_final(after_scan(v, name, text, cols), name),
{
    lemma_scan_lines(text_lines(joined(text, cols)), seen_of(v, name));
}

/// A provisional badge (a remote URL) is not replaced by another remote
/// URL: with no preferred or local detection, a scan leaves the badge of a
/// process that already has one as it was.
pub proof fn law_remote_fallback_keeps_existing_badge(
    v: PortDetectorView,
    name: Seq<char>,
    text: Seq<char>,
    cols: usize,
)
    requires
        v.ports.contains_key(name),
        ({
            let acc = scan_lines(text_lines(joined(text, cols)), seen_of(v, name));
            acc.preferred.len() == 0 && acc.local.len() == 0
        }),
    ensures
        after_scan(v, name, text, cols).ports == v.ports,
{
}

/// Harvesting local ports is monotonic and keeps them distinct: the ports
/// seen before a scan stay, in order, at the front, and every local port
/// that a scan puts on the badge list is among the harvested ones.
pub proof fn law_local_ports_accumulate(
    v: PortDetectorView,
    name: Seq<char>,
    text: Seq<char>,
    cols: usize,
)
    ensures
        ({
            let before = seen_of(v, name);
            let after = seen_of(after_scan(v, name, text, cols), name);
            &&& after.len() >= before.len()
            &&& after.take(before.len() as int) == before
            &&& before.no_duplicates() ==> after.no_duplicates()
        }),
        after_scan(v, name, text, cols).ports.contains_key(name) && badge(
            after_scan(v, name, text, cols),
            name,
        ).unwrap().local && !badge_is_final(v, name) ==> seen_of(
            after_scan(v, name, text, cols),
            name,
        ).contains(badge(after_scan(v, name, text, cols), name).unwrap().port),
{
    let acc = scan_lines(text_lines(joined(text, cols)), seen_of(v, name));
    lemma_scan_lines(text_lines(joined(text, cols)), seen_of(v, name));
    let w = after_scan(v, name, text, cols);
    if acc.seen.len() == 0 {
        assert(seen_of(v, name).len() == 0);
    }
    if w.ports.contains_key(name) && badge(w, name).unwrap().local && !badge_is_final(v, name) {
        if acc.preferred.len() > 0 {
            assert(acc.seen.contains(acc.preferred[0].port));
        } else if acc.local.len() > 0 {
            assert(acc.seen.contains(acc.local[0].port));
        } else if acc.remote.len() > 0 && !v.ports.contains_key(name) {
            assert(!acc.remote[0].local);
        }
    }
}

/// A scan of one process leaves every other process as it was.
pub proof fn law_scans_are_per_process(
    v: PortDetectorView,
    name: Seq<char>,
    other: Seq<char>,
    text: Seq<char>,
    cols: usize,
)
    requires
        other != name,
    ensures
        badge(after_scan(v, name, text, cols), other) == badge(v, other),
        seen_of(after_scan(v, name, text, cols), other) == seen_of(v, other),
{
}

/// Clearing a process makes the next scan start over: after `clear`, a
/// scan leaves that process exactly as the same scan leaves it in a
/// detector that never saw it.
pub proof fn law_clear_then_scan_starts_over(
    v: PortDetectorView,
    fresh: PortDetectorView,
    name: Seq<char>,
    text: Seq<char>,
    cols: usize,
)
    requires
        !fresh.ports.contains_key(name),
        !fresh.seen.contains_key(name),
    ensures
        ({
            let cleared = PortDetectorView {
                ports: v.ports.remove(name),
                seen: v.seen.remove(name),
            };
            &&& badge(after_scan(cleared, name, text, cols), name) == badge(
                after_scan(fresh, name, text, cols),
                name,
            )
            &&& seen_of(after_scan(cleared, name, text, cols), name) == seen_of(
                after_scan(fresh, name, text, cols),
                name,
            )
        }),
{
}

proof fn lemma_remap_same(rest: Seq<char>, needle: Seq<char>)
    ensures
        remap(rest, needle, needle) == rest,
    decreases rest.len(),
{
    match find_str(rest, needle) {
        Some(i) => if needle.len() > 0 {
            lemma_find_str_some(rest, needle);
            let end = i + needle.len();
            let tail = rest.skip(end);
            lemma_remap_same(tail, needle);
            assert(rest.take(i) + needle =~= rest.take(end));
            assert(rest.take(end) + tail =~= rest);
        },
        None => {},
    }
}

/// An `http://` URL naming the local machine — `localhost`, `127.0.0.1`
/// or `0.0.0.0` — with a port, is a local detection of that port, whatever
/// the port.
pub proof fn law_loopback_urls_are_local(host: Seq<char>, port: u16)
    requires
        host == "localhost"@ || host == "127.0.0.1"@ || host == "0.0.0.0"@,
    ensures
        word_detection("http://"@ + host + ":"@ + dec(port as nat)) == Some(
            DetectedPortView {
                port,
                url: Some("http://"@ + host + ":"@ + dec(port as nat)),
                local: true,
                preferred: false,
            },
        ),
{
    reveal_strlit("http://");
    reveal_strlit("https://");
    reveal_strlit(":");
    reveal_strlit("localhost");
    reveal_strlit("127.0.0.1");
    reveal_strlit("0.0.0.0");
    let d = dec(port as nat);
    lemma_dec(port as nat);
    lemma_parse_u16_dec(port);
    let hp = host + ":"@ + d;
    let w = "http://"@ + hp;
    assert("http://"@ + host + ":"@ + d =~= w);
    assert(w.take(7) =~= "http://"@);
    assert(starts_with(w, "http://"@));
    assert(w.skip(7) =~= hp);
    let h = host.len() as int;
    assert(hp[h] == ':');
    assert(forall|m: int| 0 <= m < h ==> hp[m] == host[m]);
    assert(forall|m: int| h < m < hp.len() ==> hp[m] == d[m - h - 1]);
    assert forall|m: int| 0 <= m < hp.len() implies hp[m] != '/' by {
        if m > h {
            assert(is_digit(d[m - h - 1]));
        }
    }
    lemma_find_char(hp, '/', hp.len() as int);
    assert(before_slash(hp) == hp);
    assert forall|m: int| h + 1 <= m < hp.len() implies hp[m] != ':' by {
        assert(is_digit(d[m - h - 1]));
    }
    lemma_rfind_char(hp, ':', h + 1);
    assert(hp.skip(h + 1) =~= d);
    assert(hp.take(h) =~= host);
    assert(url_host_port(w) == Some((host, port)));
}

/// A row one character short of the terminal width (a wrap that some
/// CLIs make one column early), followed by a shorter non-blank row,
/// continues on it: the two rows become one logical line. Rows here hold
/// no line break, do not end in whitespace, and the first does not start
/// with a space.
pub proof fn law_row_one_short_of_the_width_continues(r1: Seq<char>, r2: Seq<char>, cols: usize)
    requires
        2 <= cols < usize::MAX,
        r1.len() + 1 == cols,
        r1[0] != ' ',
        !is_ws(r1.last()),
        !r1.contains('\n'),
        0 < r2.len(),
        r2.len() + 1 < cols,
        !is_ws(r2.last()),
        !r2.contains('\n'),
    ensures
        joined(r1 + seq!['\n'] + r2, cols) == r1 + r2,
{
    lemma_text_lines_two(r1, r2);
    let rows = r1 + seq!['\n'] + r2;
    assert(trim_end(r1) == r1);
    assert(trim_end(r2) == r2);
    assert(leading_spaces(r1) == 0);
    assert(strip_spaces(r2, 0) == r2);
    let ls = seq![r1, r2];
    assert(ls.drop_last() =~= seq![r1]);
    assert(seq![r1].drop_last() =~= Seq::<Seq<char>>::empty());
    assert(join_fold(Seq::<Seq<char>>::empty(), cols as nat) == join_start());
    assert(seq![r1].last() == r1 && ls.last() == r2);
    assert(join_fold(seq![r1], cols as nat) == join_step(join_start(), r1, cols as nat));
    assert(Seq::<char>::empty() + r1 =~= r1);
    let st1 = join_fold(seq![r1], cols as nat);
    assert(join_fold(ls, cols as nat) == join_step(st1, r2, cols as nat));
    assert(st1.out =~= r1);
    assert(st1.cont);
    assert(st1.indent == 0);
    let st2 = join_fold(ls, cols as nat);
    assert(st2.out =~= r1 + r2);
    assert(!st2.cont);
}

/// A row whose width is the terminal width continues on the next row.
pub proof fn law_full_width_row_continues(r1: Seq<char>, r2: Seq<char>, cols: usize)
    requires
        2 <= cols < usize::MAX,
        r1.len() == cols,
        r1[0] != ' ',
        !is_ws(r1.last()),
        !r1.contains('\n'),
        0 < r2.len(),
        r2.len() + 1 < cols,
        !is_ws(r2.last()),
        !r2.contains('\n'),
    ensures
        joined(r1 + seq!['\n'] + r2, cols) == r1 + r2,
{
    lemma_text_lines_two(r1, r2);
    assert(trim_end(r1) == r1);
    assert(trim_end(r2) == r2);
    assert(leading_spaces(r1) == 0);
    assert(strip_spaces(r2, 0) == r2);
    let ls = seq![r1, r2];
    assert(ls.drop_last() =~= seq![r1]);
    assert(seq![r1].drop_last() =~= Seq::<Seq<char>>::empty());
    assert(join_fold(Seq::<Seq<char>>::empty(), cols as nat) == join_start());
    assert(seq![r1].last() == r1 && ls.last() == r2);
    assert(join_fold(seq![r1], cols as nat) == join_step(join_start(), r1, cols as nat));
    assert(Seq::<char>::empty() + r1 =~= r1);
    let st1 = join_fold(seq![r1], cols as nat);
    assert(join_fold(ls, cols as nat) == join_step(st1, r2, cols as nat));
    assert(st1.out =~= r1);
    let st2 = join_fold(ls, cols as nat);
    assert(st2.out =~= r1 + r2);
}

/// Remapping a port to itself leaves a URL unchanged.
pub proof fn law_remap_to_same_port_is_identity(url: Seq<char>, port: u16)
    ensures
        remapped_url(url, port, port) == url,
{
    lemma_remap_same(url, colon_port(port));
}

/// A URL without `:{from}` in it is not changed by remapping `from`.
pub proof fn law_remap_without_port_is_identity(url: Seq<char>, from: u16, to: u16)
    requires
        !has_infix(url, colon_port(from)),
    ensures
        remapped_url(url, from, to) == url,
{
    lemma_find_str_some(url, colon_port(from));
}

} // verus!
