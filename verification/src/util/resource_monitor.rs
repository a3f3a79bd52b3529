//! Per-process CPU bookkeeping, and the reading of the `/proc` texts it
//! samples.
use vstd::prelude::*;
use std::collections::HashMap;
use vstd::std_specs::iter::IteratorSpec;
use crate::text::{
    chars_of, lines_of, parse_i32, parse_i32_exec, parse_u64, parse_u64_exec, rfind_char,
    rfind_char_exec, slice_of, text_lines, views, words, words_of,
};

verus! {

broadcast use {vstd::std_specs::hash::group_hash_axioms, vstd::string::group_string_axioms};

/// Tick counts of each process at its previous sample.
pub struct ResourceMonitor {
    prev_ticks: HashMap<i32, (u64, u64)>,
}

impl View for ResourceMonitor {
    /// pid -> (process ticks, total ticks) at the previous sample.
    type V = Map<i32, (u64, u64)>;

    closed spec fn view(&self) -> Map<i32, (u64, u64)> {
        self.prev_ticks@
    }
}

fn contains_i32(v: &[i32], x: i32) -> (r: bool)
    ensures
        r == v@.contains(x),
{
    let mut i: usize = 0;
    while i < v.len()
        invariant
            i <= v@.len(),
            forall|j: int| 0 <= j < i ==> v@[j] != x,
        decreases v@.len() - i,
    {
        if v[i] == x {
            assert(v@[i as int] == x);
            return true;
        }
        i = i + 1;
    }
    false
}

impl Default for ResourceMonitor {
    fn default() -> (r: Self)
        ensures
            r@ == Map::<i32, (u64, u64)>::empty(),
    {
        Self::new()
    }
}

impl ResourceMonitor {
    pub fn new() -> (r: Self)
        ensures
            r@ == Map::<i32, (u64, u64)>::empty(),
    {
        ResourceMonitor { prev_ticks: HashMap::new() }
    }

    /// The processes with a previous sample.
    pub fn tracked_pids(&self) -> (r: Vec<i32>)
        ensures
            r@.to_set() == self@.dom(),
            r@.no_duplicates(),
    {
        let mut out: Vec<i32> = Vec::new();
        let ghost ks = vstd::std_specs::hash::spec_keys_iter(&self.prev_ticks).remaining().unref();
        for k in it: self.prev_ticks.keys()
            invariant
                it.seq().unref() == ks,
                out@ == ks.take(it.index() as int),
                ks.to_set() == self@.dom(),
                ks.no_duplicates(),
        {
            out.push(*k);
        }
        assert(out@ =~= ks);
        out
    }

    /// Clean up stale entries: keep the samples of the processes in
    /// `alive_pids` (those whose `/proc/<pid>` entry still exists), forget
    /// the rest.
    pub fn remove_stale(&mut self, alive_pids: &[i32])
        ensures
            final(self)@ == old(self)@.restrict(alive_pids@.to_set()),
    {
        let pids = self.tracked_pids();
        let mut i: usize = 0;
        while i < pids.len()
            invariant
                i <= pids@.len(),
                pids@.to_set() == old(self)@.dom(),
                pids@.no_duplicates(),
                forall|k: i32| #[trigger]
                    self@.contains_key(k) ==> old(self)@.contains_key(k) && self@[k] == old(self)@[k],
                forall|k: i32|
                    old(self)@.contains_key(k) && alive_pids@.contains(k) ==> #[trigger] self@.contains_key(k),
                forall|j: int|
                    0 <= j < i && !alive_pids@.contains(pids@[j]) ==> !self@.contains_key(#[trigger] pids@[j]),
                forall|j: int| i <= j < pids@.len() ==> self@.contains_key(#[trigger] pids@[j]),
            decreases pids@.len() - i,
        {
            let pid = pids[i];
            let found = contains_i32(alive_pids, pid);
            if !found {
                self.prev_ticks.remove(&pid);
            }
            i = i + 1;
        }
        assert(self@ =~= old(self)@.restrict(alive_pids@.to_set())) by {
            assert forall|k: i32| #[trigger] self@.contains_key(k) <==> old(self)@.restrict(
                alive_pids@.to_set(),
            ).contains_key(k) by {
                if old(self)@.contains_key(k) && !alive_pids@.contains(k) {
                    assert(pids@.to_set().contains(k));
                    let j = choose|j: int| 0 <= j < pids@.len() && #[trigger] pids@[j] == k;
                    assert(!self@.contains_key(pids@[j]));
                }
            }
        }
    }

    /// Records a process's tick counts and returns how far each advanced
    /// since its previous sample (saturating at zero), or `None` for its
    /// first sample.
    pub fn record_ticks(&mut self, pid: i32, process_ticks: u64, total_ticks: u64) -> (r: Option<
        (u64, u64),
    >)
        ensures
            final(self)@ == old(self)@.insert(pid, (process_ticks, total_ticks)),
            r == (if old(self)@.contains_key(pid) {
                let (p, t) = old(self)@[pid];
                Some(
                    (
                        if process_ticks >= p {
                            (process_ticks - p) as u64
                        } else {
                            0u64
                        },
                        if total_ticks >= t {
                            (total_ticks - t) as u64
                        } else {
                            0u64
                        },
                    ),
                )
            } else {
                None
            }),
    {
        let r = match self.prev_ticks.get(&pid) {
            Some(prev) => {
                let (prev_proc, prev_total) = *prev;
                Some((process_ticks.saturating_sub(prev_proc), total_ticks.saturating_sub(prev_total)))
            },
            None => None,
        };
        self.prev_ticks.insert(pid, (process_ticks, total_ticks));
        r
    }
}

// ------------------------------------------------------------ /proc texts

/// What follows the `comm` field of a `/proc/<pid>/stat` text: the text
/// two characters after its last `)`.
pub open spec fn stat_rest(stat: Seq<char>) -> Option<Seq<char>> {
    match rfind_char(stat, ')') {
        Some(i) => Some(stat.skip(i + 2)),
        None => None,
    }
}

/// The text after the last `)` can be sliced two bytes on: a character
/// follows the `)`, and it is ASCII.
pub open spec fn stat_text_sliceable(stat: Seq<char>) -> bool {
    match rfind_char(stat, ')') {
        Some(i) => i + 1 < stat.len() && (stat[i + 1] as u32) < 128,
        None => true,
    }
}

/// Whether `stat_times` and `stat_ppid` accept `stat`.
pub fn stat_text_is_sliceable(stat: &str) -> (r: bool)
    ensures
        r == stat_text_sliceable(stat@),
{
    let chars = chars_of(stat);
    match rfind_char_exec(chars.as_slice(), ')') {
        Some(i) => i + 1 < chars.len() && (chars[i + 1] as u32) < 128,
        None => true,
    }
}

/// utime and stime (fields 14 and 15) of a `/proc/<pid>/stat` text.
pub open spec fn stat_times_spec(stat: Seq<char>) -> Option<(u64, u64)> {
    match stat_rest(stat) {
        Some(rest) => {
            let f = words(rest);
            if f.len() < 13 {
                None
            } else {
                match (parse_u64(f[11]), parse_u64(f[12])) {
                    (Some(u), Some(s)) => Some((u, s)),
                    _ => None,
                }
            }
        },
        None => None,
    }
}

/// The parent pid (field 4) of a `/proc/<pid>/stat` text.
pub open spec fn stat_ppid_spec(stat: Seq<char>) -> Option<i32> {
    match stat_rest(stat) {
        Some(rest) => {
            let f = words(rest);
            if f.len() > 1 {
                parse_i32(f[1])
            } else {
                None
            }
        },
        None => None,
    }
}

fn stat_fields(stat: &str) -> (r: Option<Vec<Vec<char>>>)
    requires
        stat_text_sliceable(stat@),
    ensures
        match r {
            Some(f) => stat_rest(stat@) matches Some(rest) && views(f@) == words(rest),
            None => stat_rest(stat@) is None,
        },
{
    let chars = chars_of(stat);
    match rfind_char_exec(chars.as_slice(), ')') {
        Some(i) => {
            let rest = slice_of(chars.as_slice(), i + 2, chars.len());
            assert(rest@ =~= chars@.skip(i + 2));
            Some(words_of(rest.as_slice()))
        },
        None => None,
    }
}

/// utime and stime of a `/proc/<pid>/stat` text.
pub fn stat_times(stat: &str) -> (r: Option<(u64, u64)>)
    requires
        stat_text_sliceable(stat@),
    ensures
        r == stat_times_spec(stat@),
{
    match stat_fields(stat) {
        Some(f) => {
            if f.len() < 13 {
                None
            } else {
                assert(views(f@)[11] == f@[11]@ && views(f@)[12] == f@[12]@);
                match (parse_u64_exec(f[11].as_slice()), parse_u64_exec(f[12].as_slice())) {
                    (Some(u), Some(s)) => Some((u, s)),
                    _ => None,
                }
            }
        },
        None => None,
    }
}

/// The parent pid of a `/proc/<pid>/stat` text.
pub fn stat_ppid(stat: &str) -> (r: Option<i32>)
    requires
        stat_text_sliceable(stat@),
    ensures
        r == stat_ppid_spec(stat@),
{
    match stat_fields(stat) {
        Some(f) => {
            if f.len() > 1 {
                assert(views(f@)[1] == f@[1]@);
                parse_i32_exec(f[1].as_slice())
            } else {
                None
            }
        },
        None => None,
    }
}

/// The pid a `/proc` directory entry names (`str::parse::<i32>`).
pub fn parse_pid(name: &str) -> (r: Option<i32>)
    ensures
        r == parse_i32(name@),
{
    parse_i32_exec(chars_of(name).as_slice())
}

/// Resident pages (the second field) of a `/proc/<pid>/statm` text.
pub open spec fn statm_resident_spec(statm: Seq<char>) -> Option<u64> {
    let f = words(statm);
    if f.len() > 1 {
        parse_u64(f[1])
    } else {
        None
    }
}

pub fn statm_resident_pages(statm: &str) -> (r: Option<u64>)
    ensures
        r == statm_resident_spec(statm@),
{
    let f = words_of(chars_of(statm).as_slice());
    if f.len() > 1 {
        assert(views(f@)[1] == f@[1]@);
        parse_u64_exec(f[1].as_slice())
    } else {
        None
    }
}

/// The values of the fields that parse as `u64`, in order.
pub open spec fn parsed_u64s(f: Seq<Seq<char>>) -> Seq<u64>
    decreases f.len(),
{
    if f.len() == 0 {
        seq![]
    } else {
        match parse_u64(f.last()) {
            Some(v) => parsed_u64s(f.drop_last()).push(v),
            None => parsed_u64s(f.drop_last()),
        }
    }
}

/// The tick counters of the aggregate `cpu` line of `/proc/stat`: the
/// numeric fields after the first on its first line; `None` without a
/// line.
pub open spec fn cpu_ticks_spec(proc_stat: Seq<char>) -> Option<Seq<u64>> {
    let ls = text_lines(proc_stat);
    if ls.len() == 0 {
        None
    } else if words(ls[0]).len() == 0 {
        Some(seq![])
    } else {
        Some(parsed_u64s(words(ls[0]).drop_first()))
    }
}

pub fn cpu_ticks(proc_stat: &str) -> (r: Option<Vec<u64>>)
    ensures
        match r {
            Some(v) => cpu_ticks_spec(proc_stat@) == Some(v@),
            None => cpu_ticks_spec(proc_stat@) is None,
        },
{
    let ls = lines_of(chars_of(proc_stat).as_slice());
    if ls.len() == 0 {
        return None;
    }
    assert(views(ls@)[0] == ls@[0]@);
    let f = words_of(ls[0].as_slice());
    let mut out: Vec<u64> = Vec::new();
    if f.len() == 0 {
        assert(out@ =~= Seq::<u64>::empty());
        return Some(out);
    }
    let ghost fs = views(f@).drop_first();
    let mut i: usize = 1;
    assert(fs.take(0) =~= Seq::<Seq<char>>::empty());
    while i < f.len()
        invariant
            1 <= i <= f@.len(),
            fs == views(f@).drop_first(),
            out@ == parsed_u64s(fs.take(i - 1)),
        decreases f@.len() - i,
    {
        proof {
            assert(fs.take(i as int).drop_last() =~= fs.take(i - 1));
            assert(fs.take(i as int).last() == f@[i as int]@);
        }
        match parse_u64_exec(f[i].as_slice()) {
            Some(v) => out.push(v),
            None => {},
        }
        i = i + 1;
    }
    assert(fs.take(f@.len() - 1) =~= fs);
    Some(out)
}

// ------------------------------------------------------------ process trees

/// The children of `parent` among `(pid, ppid)` entries, in entry order.
pub open spec fn children_of(entries: Seq<(i32, i32)>, parent: i32) -> Seq<i32>
    decreases entries.len(),
{
    if entries.len() == 0 {
        seq![]
    } else if entries.last().1 == parent {
        children_of(entries.drop_last(), parent).push(entries.last().0)
    } else {
        children_of(entries.drop_last(), parent)
    }
}

/// The children of each process of `level`, level after level in order.
pub open spec fn next_level(entries: Seq<(i32, i32)>, level: Seq<i32>) -> Seq<i32>
    decreases level.len(),
{
    if level.len() == 0 {
        seq![]
    } else {
        next_level(entries, level.drop_last()) + children_of(entries, level.last())
    }
}

/// The processes `depth` generations below `root`, in breadth-first order.
pub open spec fn tree_level(entries: Seq<(i32, i32)>, root: i32, depth: nat) -> Seq<i32>
    decreases depth,
{
    if depth == 0 {
        seq![root]
    } else {
        next_level(entries, tree_level(entries, root, (depth - 1) as nat))
    }
}

/// The first `depth` generations of the tree rooted at `root`, in
/// breadth-first order.
pub open spec fn levels_upto(entries: Seq<(i32, i32)>, root: i32, depth: nat) -> Seq<i32>
    decreases depth,
{
    if depth == 0 {
        seq![]
    } else {
        levels_upto(entries, root, (depth - 1) as nat) + tree_level(entries, root, (depth - 1) as nat)
    }
}

/// Once a generation is empty, every later one is, and the tree is complete.
pub proof fn lemma_empty_level_stays(entries: Seq<(i32, i32)>, root: i32, k: nat, j: nat)
    requires
        tree_level(entries, root, k).len() == 0,
        k <= j,
    ensures
        tree_level(entries, root, j).len() == 0,
        levels_upto(entries, root, j) == levels_upto(entries, root, k),
    decreases j - k,
{
    if k < j {
        lemma_empty_level_stays(entries, root, k, (j - 1) as nat);
        assert(levels_upto(entries, root, j) =~= levels_upto(entries, root, (j - 1) as nat));
    }
}

/// The children of `parent` among the entries.
fn children_exec(entries: &[(i32, i32)], parent: i32, out: &mut Vec<i32>)
    ensures
        final(out)@ == old(out)@ + children_of(entries@, parent),
{
    let ghost start = out@;
    let mut k: usize = 0;
    while k < entries.len()
        invariant
            k <= entries@.len(),
            out@ == start + children_of(entries@.take(k as int), parent),
        decreases entries@.len() - k,
    {
        assert(entries@.take(k + 1).drop_last() =~= entries@.take(k as int));
        let (pid, ppid) = entries[k];
        if ppid == parent {
            out.push(pid);
        }
        k = k + 1;
        assert(out@ =~= start + children_of(entries@.take(k as int), parent));
    }
    assert(entries@.take(k as int) =~= entries@);
}

/// The pids of the process tree rooted at `root_pid`, root first, in
/// breadth-first order, from `(pid, ppid)` entries in directory order; or
/// `None` when the tree is deeper than `max_depth` generations.
pub fn collect_process_tree(root_pid: i32, entries: &[(i32, i32)], max_depth: usize) -> (r: Option<
    Vec<i32>,
>)
    ensures
        match r {
            Some(v) => tree_level(entries@, root_pid, max_depth as nat).len() == 0 && v@
                == levels_upto(entries@, root_pid, max_depth as nat),
            None => tree_level(entries@, root_pid, max_depth as nat).len() > 0,
        },
{
    let mut result: Vec<i32> = Vec::new();
    result.push(root_pid);
    let mut cur: Vec<i32> = Vec::new();
    cur.push(root_pid);
    let mut depth: usize = 0;
    assert(levels_upto(entries@, root_pid, 0) =~= Seq::<i32>::empty());
    assert(tree_level(entries@, root_pid, 0) =~= seq![root_pid]);
    assert(levels_upto(entries@, root_pid, 1) =~= seq![root_pid]);
    while cur.len() > 0 && depth < max_depth
        invariant
            depth <= max_depth,
            cur@ == tree_level(entries@, root_pid, depth as nat),
            result@ == levels_upto(entries@, root_pid, (depth + 1) as nat),
        decreases max_depth - depth,
    {
        let mut next: Vec<i32> = Vec::new();
        let mut i: usize = 0;
        while i < cur.len()
            invariant
                i <= cur@.len(),
                next@ == next_level(entries@, cur@.take(i as int)),
            decreases cur@.len() - i,
        {
            assert(cur@.take(i + 1).drop_last() =~= cur@.take(i as int));
            children_exec(entries, cur[i], &mut next);
            i = i + 1;
        }
        assert(cur@.take(i as int) =~= cur@);
        let mut j: usize = 0;
        let ghost before = result@;
        while j < next.len()
            invariant
                j <= next@.len(),
                result@ == before + next@.take(j as int),
            decreases next@.len() - j,
        {
            result.push(next[j]);
            j = j + 1;
            assert(result@ =~= before + next@.take(j as int));
        }
        assert(next@.take(j as int) =~= next@);
        cur = next;
        depth = depth + 1;
    }
    if cur.len() > 0 {
        None
    } else {
        proof {
            lemma_empty_level_stays(entries@, root_pid, depth as nat, max_depth as nat);
            lemma_empty_level_stays(entries@, root_pid, depth as nat, (depth + 1) as nat);
        }
        Some(result)
    }
}

} // verus!
