//! Reading the form of the add/edit command dialogs.
use vstd::prelude::*;
use crate::text::{lemma_split_char_nonempty, split_char, string_of, trim, trim_exec};

verus! {

/// The trimmed, non-empty pieces of `fields`, in order.
pub open spec fn kept_patterns(fields: Seq<Seq<char>>) -> Seq<Seq<char>>
    decreases fields.len(),
{
    if fields.len() == 0 {
        seq![]
    } else {
        let rest = kept_patterns(fields.drop_last());
        if trim(fields.last()).len() == 0 {
            rest
        } else {
            rest.push(trim(fields.last()))
        }
    }
}

/// The watch patterns typed as a comma-separated list.
pub open spec fn watch_patterns_spec(text: Seq<char>) -> Seq<Seq<char>> {
    kept_patterns(split_char(text, ','))
}

/// Adds the trimmed `piece` to `out` unless it is blank.
fn keep_piece(out: &mut Vec<String>, piece: &[char])
    ensures
        final(out)@.map_values(|s: String| s@) == if trim(piece@).len() == 0 {
            old(out)@.map_values(|s: String| s@)
        } else {
            old(out)@.map_values(|s: String| s@).push(trim(piece@))
        },
{
    let t = trim_exec(piece);
    if t.len() > 0 {
        let ghost before = out@;
        out.push(string_of(t.as_slice()));
        assert(out@.map_values(|s: String| s@) =~= before.map_values(|s: String| s@).push(t@));
    }
}

/// The comma-separated globs of the watch field, trimmed, blanks dropped.
pub fn parse_watch_patterns(text: &str) -> (r: Vec<String>)
    ensures
        r@.map_values(|s: String| s@) == watch_patterns_spec(text@),
{
    let mut out: Vec<String> = Vec::new();
    let mut cur: Vec<char> = Vec::new();
    let ghost s = text@;
    assert(s.take(0) =~= Seq::<char>::empty());
    for c in it: text.chars()
        invariant
            it.seq() == s,
            split_char(s.take(it.index() as int), ',').len() >= 1,
            cur@ == split_char(s.take(it.index() as int), ',').last(),
            out@.map_values(|x: String| x@) == kept_patterns(
                split_char(s.take(it.index() as int), ',').drop_last(),
            ),
    {
        let ghost k = it.index() as int;
        let ghost f = split_char(s.take(k), ',');
        assert(s.take(k + 1).drop_last() =~= s.take(k));
        assert(s.take(k + 1).last() == c);
        if c == ',' {
            keep_piece(&mut out, cur.as_slice());
            cur = Vec::new();
            let ghost g = split_char(s.take(k + 1), ',');
            assert(g == f.push(seq![]));
            assert(g.drop_last() =~= f);
            assert(f =~= f.drop_last().push(f.last()));
        } else {
            cur.push(c);
            let ghost g = split_char(s.take(k + 1), ',');
            assert(g.drop_last() =~= f.drop_last());
        }
        proof {
            lemma_split_char_nonempty(s.take(k + 1), ',');
        }
    }
    assert(s.take(s.len() as int) =~= s);
    let ghost f = split_char(s, ',');
    keep_piece(&mut out, cur.as_slice());
    assert(f =~= f.drop_last().push(f.last()));
    out
}

} // verus!
