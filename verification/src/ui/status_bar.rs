//! The texts of the status bar and of the git buttons: what each label,
//! tooltip and markup says for the counts it is given.
use vstd::prelude::*;
use crate::text::{
    has_infix, lemma_infix_of_concat,
    chars_of, dec, joined, push_dec, push_joined, push_str, slice_of, starts_with,
    starts_with_exec, string_of,
};

verus! {

broadcast use vstd::string::group_string_axioms;

// ---------------------------------------------------------------- counts

/// `"{name} {running}/{total}"` when the project has processes, else the
/// name; nothing without a project.
pub open spec fn project_label_spec(name: Option<Seq<char>>, running: nat, total: nat) -> Option<
    Seq<char>,
> {
    match name {
        Some(n) => if total > 0 {
            Some(n + " "@ + dec(running) + "/"@ + dec(total))
        } else {
            Some(n)
        },
        None => None,
    }
}

/// The label of the selected project, or `None` to hide it.
pub fn project_label(name: Option<&str>, running: usize, total: usize) -> (r: Option<String>)
    ensures
        match r {
            Some(s) => project_label_spec(
                match name {
                    Some(n) => Some(n@),
                    None => None,
                },
                running as nat,
                total as nat,
            ) == Some(s@),
            None => name is None,
        },
{
    match name {
        Some(n) => {
            let mut out = chars_of(n);
            if total > 0 {
                push_str(&mut out, " ");
                push_dec(&mut out, running as u64);
                push_str(&mut out, "/");
                push_dec(&mut out, total as u64);
            }
            Some(string_of(out.as_slice()))
        },
        None => None,
    }
}

/// The totals over all projects, shown when any process exists.
pub struct GlobalInfo {
    /// `Total {running}/{total}`.
    pub label: String,
    /// Whether the separator before the totals shows (a project is shown too).
    pub separator: bool,
    /// One line per project with running processes, when any runs.
    pub tooltip: Option<String>,
}

/// One tooltip line per project that runs something: `"{project}: {a}, {b}"`.
pub open spec fn running_lines(names: Seq<(Seq<char>, Seq<Seq<char>>)>) -> Seq<Seq<char>>
    decreases names.len(),
{
    if names.len() == 0 {
        seq![]
    } else if names.last().1.len() == 0 {
        running_lines(names.drop_last())
    } else {
        running_lines(names.drop_last()).push(
            names.last().0 + ": "@ + joined(names.last().1, ", "@),
        )
    }
}

/// The views of the running-process lists.
pub open spec fn running_views(v: Seq<(String, Vec<String>)>) -> Seq<(Seq<char>, Seq<Seq<char>>)> {
    v.map_values(|e: (String, Vec<String>)| (e.0@, e.1@.map_values(|s: String| s@)))
}

/// The tooltip of the totals: the running lines, one per line.
pub open spec fn global_tooltip_spec(names: Seq<(Seq<char>, Seq<Seq<char>>)>) -> Seq<char> {
    joined(running_lines(names), "\n"@)
}

/// Appends `items` joined with `sep` to `out`.
fn push_joined_strings(out: &mut Vec<char>, items: &[String], sep: &str)
    ensures
        final(out)@ == old(out)@ + joined(items@.map_values(|s: String| s@), sep@),
{
    let mut parts: Vec<Vec<char>> = Vec::new();
    let mut k: usize = 0;
    while k < items.len()
        invariant
            k <= items@.len(),
            parts@.map_values(|p: Vec<char>| p@) == items@.take(k as int).map_values(
                |s: String| s@,
            ),
        decreases items@.len() - k,
    {
        let ghost before = parts@;
        parts.push(chars_of(items[k].as_str()));
        assert(parts@.map_values(|p: Vec<char>| p@) =~= before.map_values(|p: Vec<char>| p@).push(
            items@[k as int]@,
        ));
        assert(items@.take(k + 1).map_values(|s: String| s@) =~= items@.take(k as int).map_values(
            |s: String| s@,
        ).push(items@[k as int]@));
        k = k + 1;
        assert(parts@.map_values(|p: Vec<char>| p@) =~= items@.take(k as int).map_values(
            |s: String| s@,
        ));
    }
    assert(items@.take(k as int) =~= items@);
    push_joined(out, parts.as_slice(), sep);
}

/// The tooltip lines for the running processes of each project.
fn tooltip_lines(names: &[(String, Vec<String>)]) -> (r: Vec<Vec<char>>)
    ensures
        r@.map_values(|p: Vec<char>| p@) == running_lines(running_views(names@)),
{
    let ghost v = running_views(names@);
    let mut lines: Vec<Vec<char>> = Vec::new();
    let mut k: usize = 0;
    while k < names.len()
        invariant
            k <= names@.len(),
            v == running_views(names@),
            lines@.map_values(|p: Vec<char>| p@) == running_lines(v.take(k as int)),
        decreases names@.len() - k,
    {
        assert(v.take(k + 1).drop_last() =~= v.take(k as int));
        let entry = &names[k];
        assert(v.take(k + 1).last() == v[k as int]);
        if entry.1.len() > 0 {
            let mut line = chars_of(entry.0.as_str());
            push_str(&mut line, ": ");
            push_joined_strings(&mut line, entry.1.as_slice(), ", ");
            lines.push(line);
        }
        k = k + 1;
        assert(lines@.map_values(|p: Vec<char>| p@) =~= running_lines(v.take(k as int)));
    }
    assert(v.take(k as int) =~= v);
    lines
}

/// What the totals show: nothing when no process exists; else the label,
/// the separator when a project is shown, and the running lines as a
/// tooltip when something runs.
pub fn global_info(
    running: usize,
    total: usize,
    has_project: bool,
    running_names: &[(String, Vec<String>)],
) -> (r: Option<GlobalInfo>)
    ensures
        match r {
            Some(g) => {
                &&& total > 0
                &&& g.label@ == "Total "@ + dec(running as nat) + "/"@ + dec(total as nat)
                &&& g.separator == has_project
                &&& match g.tooltip {
                    Some(t) => running > 0 && t@ == global_tooltip_spec(
                        running_views(running_names@),
                    ),
                    None => running == 0,
                }
            },
            None => total == 0,
        },
{
    if total == 0 {
        return None;
    }
    let mut label = chars_of("Total ");
    push_dec(&mut label, running as u64);
    push_str(&mut label, "/");
    push_dec(&mut label, total as u64);
    let tooltip = if running > 0 {
        let lines = tooltip_lines(running_names);
        let mut t: Vec<char> = Vec::new();
        push_joined(&mut t, lines.as_slice(), "\n");
        assert(t@ =~= global_tooltip_spec(running_views(running_names@)));
        Some(string_of(t.as_slice()))
    } else {
        None
    };
    Some(GlobalInfo { label: string_of(label.as_slice()), separator: has_project, tooltip })
}

// ---------------------------------------------------------------- git

/// The markup of the commits to pull (amber, down arrow) and to push
/// (green, up arrow); nothing when in sync.
pub open spec fn git_sync_markup_spec(ahead: nat, behind: nat) -> Option<Seq<char>> {
    let pull = "<span foreground='#d29922'>\u{2193}"@ + dec(behind) + "</span>"@;
    let push = "<span foreground='#73c991'>\u{2191}"@ + dec(ahead) + "</span>"@;
    if ahead == 0 && behind == 0 {
        None
    } else if ahead == 0 {
        Some(pull)
    } else if behind == 0 {
        Some(push)
    } else {
        Some(pull + " "@ + push)
    }
}

/// The sync counters of the git chip, or `None` to hide them.
pub fn git_sync_markup(ahead: usize, behind: usize) -> (r: Option<String>)
    ensures
        match r {
            Some(s) => git_sync_markup_spec(ahead as nat, behind as nat) == Some(s@),
            None => git_sync_markup_spec(ahead as nat, behind as nat) is None,
        },
{
    if ahead == 0 && behind == 0 {
        return None;
    }
    let mut out: Vec<char> = Vec::new();
    if behind > 0 {
        push_str(&mut out, "<span foreground='#d29922'>\u{2193}");
        push_dec(&mut out, behind as u64);
        push_str(&mut out, "</span>");
    }
    if ahead > 0 {
        if behind > 0 {
            push_str(&mut out, " ");
        }
        push_str(&mut out, "<span foreground='#73c991'>\u{2191}");
        push_dec(&mut out, ahead as u64);
        push_str(&mut out, "</span>");
    }
    assert(Some(out@) =~= git_sync_markup_spec(ahead as nat, behind as nat));
    Some(string_of(out.as_slice()))
}

/// The tooltip of the sync chip.
pub open spec fn git_sync_tooltip_spec(ahead: nat, behind: nat) -> Seq<char> {
    if ahead == 0 && behind == 0 {
        "Pull & Push (in sync \u{2014} click to fetch)"@
    } else if behind == 0 {
        "Pull & Push ("@ + dec(ahead) + " to push)"@
    } else if ahead == 0 {
        "Pull & Push ("@ + dec(behind) + " to pull)"@
    } else {
        "Pull & Push ("@ + dec(ahead) + " to push, "@ + dec(behind) + " to pull)"@
    }
}

/// The tooltip of the sync chip.
pub fn git_sync_tooltip(ahead: usize, behind: usize) -> (r: String)
    ensures
        r@ == git_sync_tooltip_spec(ahead as nat, behind as nat),
{
    let mut out: Vec<char> = Vec::new();
    if ahead == 0 && behind == 0 {
        push_str(&mut out, "Pull & Push (in sync \u{2014} click to fetch)");
    } else if behind == 0 {
        push_str(&mut out, "Pull & Push (");
        push_dec(&mut out, ahead as u64);
        push_str(&mut out, " to push)");
    } else if ahead == 0 {
        push_str(&mut out, "Pull & Push (");
        push_dec(&mut out, behind as u64);
        push_str(&mut out, " to pull)");
    } else {
        push_str(&mut out, "Pull & Push (");
        push_dec(&mut out, ahead as u64);
        push_str(&mut out, " to push, ");
        push_dec(&mut out, behind as u64);
        push_str(&mut out, " to pull)");
    }
    assert(out@ =~= git_sync_tooltip_spec(ahead as nat, behind as nat));
    string_of(out.as_slice())
}

/// The tooltip of the changes chip: the changed files with their line
/// counts and the untracked files, when there are any.
pub open spec fn diffstat_tooltip_spec(files: nat, added: nat, removed: nat, untracked: nat) -> Seq<
    char,
> {
    let changed = dec(files) + " files: +"@ + dec(added) + " \u{2212}"@ + dec(removed);
    let new_files = dec(untracked) + " untracked"@;
    if files == 0 && untracked == 0 {
        "Git Changes"@
    } else {
        "Git Changes"@ + " ("@ + (if untracked == 0 {
            changed
        } else if files == 0 {
            new_files
        } else {
            changed + ", "@ + new_files
        }) + ")"@
    }
}

/// The tooltip of the changes chip.
pub fn diffstat_tooltip(files: usize, added: usize, removed: usize, untracked: usize) -> (r:
    String)
    ensures
        r@ == diffstat_tooltip_spec(files as nat, added as nat, removed as nat, untracked as nat),
{
    let mut out: Vec<char> = Vec::new();
    push_str(&mut out, "Git Changes");
    if files > 0 || untracked > 0 {
        push_str(&mut out, " (");
        if files > 0 {
            push_dec(&mut out, files as u64);
            push_str(&mut out, " files: +");
            push_dec(&mut out, added as u64);
            push_str(&mut out, " \u{2212}");
            push_dec(&mut out, removed as u64);
        }
        if untracked > 0 {
            if files > 0 {
                push_str(&mut out, ", ");
            }
            push_dec(&mut out, untracked as u64);
            push_str(&mut out, " untracked");
        }
        push_str(&mut out, ")");
    }
    assert(out@ =~= diffstat_tooltip_spec(
        files as nat,
        added as nat,
        removed as nat,
        untracked as nat,
    ));
    string_of(out.as_slice())
}

/// The mark shown before the branch name.
pub open spec fn branch_mark() -> Seq<char> {
    "\u{2387} "@
}

/// The label of the branch chip.
pub fn branch_label(branch: &str) -> (r: String)
    ensures
        r@ == branch_mark() + branch@,
{
    let mut out = chars_of("\u{2387} ");
    push_str(&mut out, branch);
    string_of(out.as_slice())
}

/// The branch a chip label names: the label without its mark.
pub open spec fn branch_of_label_spec(label: Seq<char>) -> Seq<char> {
    if starts_with(label, branch_mark()) {
        label.skip(branch_mark().len() as int)
    } else {
        label
    }
}

/// The branch a chip label names (`strip_prefix`, else the whole label).
pub fn branch_of_label(label: &str) -> (r: String)
    ensures
        r@ == branch_of_label_spec(label@),
{
    let l = chars_of(label);
    let mark = chars_of("\u{2387} ");
    if starts_with_exec(l.as_slice(), mark.as_slice()) {
        let rest = slice_of(l.as_slice(), mark.len(), l.len());
        assert(rest@ =~= l@.skip(mark@.len() as int));
        string_of(rest.as_slice())
    } else {
        label.to_string()
    }
}

/// Reading a branch back off its chip label gives the branch.
pub proof fn law_branch_label_round_trip(branch: Seq<char>)
    ensures
        branch_of_label_spec(branch_mark() + branch) == branch,
{
    let l = branch_mark() + branch;
    assert(l.take(branch_mark().len() as int) =~= branch_mark());
    assert(l.skip(branch_mark().len() as int) =~= branch);
}

/// The label of the Push button and whether it can be pressed.
pub fn push_button(ahead: usize) -> (r: (String, bool))
    ensures
        r.1 == (ahead > 0),
        r.0@ == if ahead > 0 {
            "Push ("@ + dec(ahead as nat) + ")"@
        } else {
            "Push"@
        },
{
    let mut out = chars_of("Push");
    if ahead > 0 {
        push_str(&mut out, " (");
        push_dec(&mut out, ahead as u64);
        push_str(&mut out, ")");
        proof {
            reveal_strlit("Push");
            reveal_strlit(" (");
            reveal_strlit("Push (");
        }
        assert(out@ =~= "Push ("@ + dec(ahead as nat) + ")"@);
    }
    (string_of(out.as_slice()), ahead > 0)
}

/// The label of the Pull button and whether it shows.
pub fn pull_button(behind: usize) -> (r: (String, bool))
    ensures
        r.1 == (behind > 0),
        r.0@ == if behind > 0 {
            "Pull ("@ + dec(behind as nat) + ")"@
        } else {
            "Pull"@
        },
{
    let mut out = chars_of("Pull");
    if behind > 0 {
        push_str(&mut out, " (");
        push_dec(&mut out, behind as u64);
        push_str(&mut out, ")");
        proof {
            reveal_strlit("Pull");
            reveal_strlit(" (");
            reveal_strlit("Pull (");
        }
        assert(out@ =~= "Pull ("@ + dec(behind as nat) + ")"@);
    }
    (string_of(out.as_slice()), behind > 0)
}

/// The tooltip of the browser button.
pub fn url_tooltip(url: &str) -> (r: String)
    ensures
        r@ == "Open "@ + url@,
{
    let mut out = chars_of("Open ");
    push_str(&mut out, url);
    string_of(out.as_slice())
}

/// The label of the update button.
pub fn update_label(latest_version: &str) -> (r: String)
    ensures
        r@ == "Update available: v"@ + latest_version@,
{
    let mut out = chars_of("Update available: v");
    push_str(&mut out, latest_version);
    string_of(out.as_slice())
}

/// The amber counter of commits to pull.
pub open spec fn pull_span(behind: nat) -> Seq<char> {
    "<span foreground='#d29922'>\u{2193}"@ + dec(behind) + "</span>"@
}

/// The green counter of commits to push.
pub open spec fn push_span(ahead: nat) -> Seq<char> {
    "<span foreground='#73c991'>\u{2191}"@ + dec(ahead) + "</span>"@
}

/// The sync counters are hidden only when the branch is in sync; commits
/// to pull show as the amber down-arrow count, commits to push as the green
/// up-arrow count, the pull count first.
pub proof fn law_sync_counters_show_what_is_pending(ahead: nat, behind: nat)
    ensures
        (git_sync_markup_spec(ahead, behind) is None) == (ahead == 0 && behind == 0),
        git_sync_markup_spec(ahead, behind) matches Some(m) ==> {
            &&& behind > 0 ==> has_infix(m, pull_span(behind))
            &&& ahead > 0 ==> has_infix(m, push_span(ahead))
            &&& behind > 0 ==> m.take(pull_span(behind).len() as int) == pull_span(behind)
        },
{
    let e = Seq::<char>::empty();
    if ahead == 0 && behind > 0 {
        lemma_infix_of_concat(e, pull_span(behind), e);
        assert(e + pull_span(behind) + e =~= pull_span(behind));
        assert(pull_span(behind).take(pull_span(behind).len() as int) =~= pull_span(behind));
    } else if behind == 0 && ahead > 0 {
        lemma_infix_of_concat(e, push_span(ahead), e);
        assert(e + push_span(ahead) + e =~= push_span(ahead));
    } else if ahead > 0 && behind > 0 {
        let m = pull_span(behind) + " "@ + push_span(ahead);
        lemma_infix_of_concat(e, pull_span(behind), " "@ + push_span(ahead));
        assert(e + pull_span(behind) + (" "@ + push_span(ahead)) =~= m);
        lemma_infix_of_concat(pull_span(behind) + " "@, push_span(ahead), e);
        assert(pull_span(behind) + " "@ + push_span(ahead) + e =~= m);
        assert(m.take(pull_span(behind).len() as int) =~= pull_span(behind));
    }
}

} // verus!
