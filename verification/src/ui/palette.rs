//! The entries of the command palette and how a typed query picks them:
//! an entry matches when its label, category or action, lowercased,
//! contains the lowercased query.
use vstd::prelude::*;
use crate::text::{chars_of, contains_infix, has_infix, to_lowercase, unicode_lowercase};

verus! {

broadcast use vstd::string::group_string_axioms;

/// One palette entry.
pub struct PaletteItem {
    pub category: String,
    pub label: String,
    pub icon: String,
    pub action: String,
}

/// A [`PaletteItem`] as a mathematical value.
pub struct PaletteItemView {
    pub category: Seq<char>,
    pub label: Seq<char>,
    pub icon: Seq<char>,
    pub action: Seq<char>,
}

impl View for PaletteItem {
    type V = PaletteItemView;

    open spec fn view(&self) -> PaletteItemView {
        PaletteItemView {
            category: self.category@,
            label: self.label@,
            icon: self.icon@,
            action: self.action@,
        }
    }
}

/// The views of a list of entries.
pub open spec fn item_views(v: Seq<PaletteItem>) -> Seq<PaletteItemView> {
    v.map_values(|i: PaletteItem| i@)
}

/// An entry with the given texts.
pub open spec fn item(category: Seq<char>, label: Seq<char>, icon: Seq<char>, action: Seq<char>)
    -> PaletteItemView {
    PaletteItemView { category, label, icon, action }
}

impl PaletteItem {
    /// An entry made of the four texts.
    pub fn new(category: &str, label: &str, icon: &str, action: &str) -> (r: PaletteItem)
        ensures
            r@ == item(category@, label@, icon@, action@),
    {
        PaletteItem {
            category: category.to_string(),
            label: label.to_string(),
            icon: icon.to_string(),
            action: action.to_string(),
        }
    }

    /// A copy with the same view.
    pub fn duplicate(&self) -> (r: PaletteItem)
        ensures
            r@ == self@,
    {
        PaletteItem {
            category: self.category.clone(),
            label: self.label.clone(),
            icon: self.icon.clone(),
            action: self.action.clone(),
        }
    }
}

// ---------------------------------------------------------------- entries

/// The entries the palette starts with, in the sidebar's order: agents,
/// commands, terminals, SSH, then projects and bulk actions.
pub open spec fn default_items_spec() -> Seq<PaletteItemView> {
    seq![
        item("AGENT"@, "New Codex agent"@, "ai-brain-symbolic"@, "new_agent:codex"@),
        item("AGENT"@, "New Gemini agent"@, "ai-brain-symbolic"@, "new_agent:gemini"@),
        item("AGENT"@, "New OpenCode agent"@, "ai-brain-symbolic"@, "new_agent:opencode"@),
        item("AGENT"@, "New custom agent"@, "ai-brain-symbolic"@, "new_custom_agent"@),
        item("COMMAND"@, "New command"@, "list-add-symbolic"@, "add_process"@),
        item("TERMINAL"@, "New terminal tab"@, "utilities-terminal-symbolic"@, "new_terminal"@),
        item("SSH"@, "New SSH connection"@, "network-server-symbolic"@, "new_ssh"@),
        item(
            "PROJECT"@,
            "New project (open directory)"@,
            "folder-open-symbolic"@,
            "add_project"@,
        ),
        item("ACTIONS"@, "Stop all processes"@, "media-playback-stop-symbolic"@, "stop_all"@),
        item("ACTIONS"@, "Restart all processes"@, "view-refresh-symbolic"@, "restart_all"@),
    ]
}

/// The entries the palette starts with.
pub fn default_items() -> (r: Vec<PaletteItem>)
    ensures
        item_views(r@) == default_items_spec(),
{
    let mut v: Vec<PaletteItem> = Vec::new();
    v.push(PaletteItem::new("AGENT", "New Codex agent", "ai-brain-symbolic", "new_agent:codex"));
    v.push(PaletteItem::new("AGENT", "New Gemini agent", "ai-brain-symbolic", "new_agent:gemini"));
    v.push(
        PaletteItem::new("AGENT", "New OpenCode agent", "ai-brain-symbolic", "new_agent:opencode"),
    );
    v.push(PaletteItem::new("AGENT", "New custom agent", "ai-brain-symbolic", "new_custom_agent"));
    v.push(PaletteItem::new("COMMAND", "New command", "list-add-symbolic", "add_process"));
    v.push(
        PaletteItem::new("TERMINAL", "New terminal tab", "utilities-terminal-symbolic", "new_terminal"),
    );
    v.push(PaletteItem::new("SSH", "New SSH connection", "network-server-symbolic", "new_ssh"));
    v.push(
        PaletteItem::new(
            "PROJECT",
            "New project (open directory)",
            "folder-open-symbolic",
            "add_project",
        ),
    );
    v.push(
        PaletteItem::new("ACTIONS", "Stop all processes", "media-playback-stop-symbolic", "stop_all"),
    );
    v.push(
        PaletteItem::new("ACTIONS", "Restart all processes", "view-refresh-symbolic", "restart_all"),
    );
    assert(item_views(v@) =~= default_items_spec());
    v
}

/// The category of the entries that jump to a running process.
pub open spec fn navigation_category() -> Seq<char> {
    "NAVIGATION"@
}

/// The entry that jumps to the process `name`.
pub open spec fn navigation_item(name: Seq<char>) -> PaletteItemView {
    item(navigation_category(), "Switch to "@ + name, "go-jump-symbolic"@, "switch:"@ + name)
}

/// The entry that jumps to the process `name`.
pub fn navigation_entry(name: &str) -> (r: PaletteItem)
    ensures
        r@ == navigation_item(name@),
{
    let mut label = "Switch to ".to_string();
    label.append(name);
    let mut action = "switch:".to_string();
    action.append(name);
    PaletteItem {
        category: "NAVIGATION".to_string(),
        label,
        icon: "go-jump-symbolic".to_string(),
        action,
    }
}

/// `items` without the entries of category `NAVIGATION`, in order.
pub open spec fn without_navigation(items: Seq<PaletteItemView>) -> Seq<PaletteItemView>
    decreases items.len(),
{
    if items.len() == 0 {
        seq![]
    } else if items.last().category == navigation_category() {
        without_navigation(items.drop_last())
    } else {
        without_navigation(items.drop_last()).push(items.last())
    }
}

// ---------------------------------------------------------------- matching

/// An entry whose lowercased label, category and action are given matches
/// a lowercased query when one of them contains it.
pub open spec fn matches_lowered(
    label: Seq<char>,
    category: Seq<char>,
    action: Seq<char>,
    query: Seq<char>,
) -> bool {
    has_infix(label, query) || has_infix(category, query) || has_infix(action, query)
}

/// An entry matches a lowercased query.
pub open spec fn item_matches(it: PaletteItemView, query: Seq<char>) -> bool {
    matches_lowered(
        unicode_lowercase(it.label),
        unicode_lowercase(it.category),
        unicode_lowercase(it.action),
        query,
    )
}

/// The positions of the entries a lowercased query shows, in order: all of
/// them for an empty query, else those that match it.
pub open spec fn matched_indices(items: Seq<PaletteItemView>, query: Seq<char>) -> Seq<int>
    decreases items.len(),
{
    if items.len() == 0 {
        seq![]
    } else if query.len() == 0 || item_matches(items.last(), query) {
        matched_indices(items.drop_last(), query).push(items.len() - 1)
    } else {
        matched_indices(items.drop_last(), query)
    }
}

/// Whether lowercased texts of an entry match a lowercased query.
pub fn matches_lowered_exec(label: &str, category: &str, action: &str, query: &str) -> (r: bool)
    ensures
        r == matches_lowered(label@, category@, action@, query@),
{
    let q = chars_of(query);
    let l = chars_of(label);
    if contains_infix(l.as_slice(), q.as_slice()) {
        return true;
    }
    let c = chars_of(category);
    if contains_infix(c.as_slice(), q.as_slice()) {
        return true;
    }
    let a = chars_of(action);
    contains_infix(a.as_slice(), q.as_slice())
}

/// Whether an entry matches a lowercased query.
pub fn item_matches_query(it: &PaletteItem, query: &str) -> (r: bool)
    ensures
        r == item_matches(it@, query@),
{
    let l = to_lowercase(it.label.as_str());
    let c = to_lowercase(it.category.as_str());
    let a = to_lowercase(it.action.as_str());
    matches_lowered_exec(l.as_str(), c.as_str(), a.as_str(), query)
}

/// The positions of the entries that a lowercased query shows.
pub fn filter_items(items: &[PaletteItem], query: &str) -> (r: Vec<usize>)
    ensures
        r@.map_values(|i: usize| i as int) == matched_indices(item_views(items@), query@),
{
    let ghost v = item_views(items@);
    let all = query.unicode_len() == 0;
    let mut out: Vec<usize> = Vec::new();
    let mut k: usize = 0;
    while k < items.len()
        invariant
            k <= items@.len(),
            v == item_views(items@),
            all == (query@.len() == 0),
            out@.map_values(|i: usize| i as int) == matched_indices(v.take(k as int), query@),
        decreases items@.len() - k,
    {
        assert(v.take(k + 1).drop_last() =~= v.take(k as int));
        assert(v.take(k + 1).last() == items@[k as int]@);
        if all || item_matches_query(&items[k], query) {
            out.push(k);
        }
        k = k + 1;
        assert(out@.map_values(|i: usize| i as int) =~= matched_indices(v.take(k as int), query@));
    }
    assert(v.take(k as int) =~= v);
    out
}

// ---------------------------------------------------------------- the palette

/// The palette's entries.
pub struct PaletteModel {
    pub items: Vec<PaletteItem>,
}

impl View for PaletteModel {
    type V = Seq<PaletteItemView>;

    open spec fn view(&self) -> Seq<PaletteItemView> {
        item_views(self.items@)
    }
}

impl PaletteModel {
    /// A palette with the default entries.
    pub fn new() -> (r: PaletteModel)
        ensures
            r@ == default_items_spec(),
    {
        PaletteModel { items: default_items() }
    }

    /// Replaces all entries.
    pub fn set_items(&mut self, items: Vec<PaletteItem>)
        ensures
            final(self)@ == item_views(items@),
    {
        self.items = items;
    }

    /// Appends a jump entry for each process name, in order.
    pub fn add_navigation_items(&mut self, process_names: &[String])
        ensures
            final(self)@ == old(self)@ + process_names@.map_values(
                |n: String| navigation_item(n@),
            ),
    {
        let ghost start = self@;
        let mut k: usize = 0;
        while k < process_names.len()
            invariant
                k <= process_names@.len(),
                self@ == start + process_names@.take(k as int).map_values(
                    |n: String| navigation_item(n@),
                ),
            decreases process_names@.len() - k,
        {
            let e = navigation_entry(process_names[k].as_str());
            let ghost before = self.items@;
            self.items.push(e);
            assert(self@ =~= item_views(before).push(e@));
            assert(process_names@.take(k + 1).map_values(|n: String| navigation_item(n@))
                =~= process_names@.take(k as int).map_values(|n: String| navigation_item(n@)).push(
                navigation_item(process_names@[k as int]@),
            ));
            k = k + 1;
            assert(self@ =~= start + process_names@.take(k as int).map_values(
                |n: String| navigation_item(n@),
            ));
        }
        assert(process_names@.take(k as int) =~= process_names@);
    }

    /// Drops the jump entries, keeping the others in order.
    pub fn refresh(&mut self)
        ensures
            final(self)@ == without_navigation(old(self)@),
    {
        let ghost start = self@;
        let nav = chars_of("NAVIGATION");
        let mut kept: Vec<PaletteItem> = Vec::new();
        let mut k: usize = 0;
        while k < self.items.len()
            invariant
                k <= self.items@.len(),
                start == self@,
                nav@ == navigation_category(),
                item_views(kept@) == without_navigation(start.take(k as int)),
            decreases self.items@.len() - k,
        {
            assert(start.take(k + 1).drop_last() =~= start.take(k as int));
            assert(start.take(k + 1).last() == self.items@[k as int]@);
            let cat = chars_of(self.items[k].category.as_str());
            if !crate::text::chars_eq(cat.as_slice(), nav.as_slice()) {
                kept.push(self.items[k].duplicate());
            }
            k = k + 1;
            assert(item_views(kept@) =~= without_navigation(start.take(k as int)));
        }
        assert(start.take(k as int) =~= start);
        self.items = kept;
    }

    /// The positions of the entries shown for what is typed in the entry.
    pub fn results(&self, text: &str) -> (r: Vec<usize>)
        ensures
            r@.map_values(|i: usize| i as int) == matched_indices(self@, unicode_lowercase(text@)),
    {
        let q = to_lowercase(text);
        filter_items(self.items.as_slice(), q.as_str())
    }

    /// The action of the `index`-th entry shown for what is typed, if the
    /// list shows that many.
    pub fn activate(&self, text: &str, index: usize) -> (r: Option<String>)
        ensures
            match r {
                Some(a) => {
                    let m = matched_indices(self@, unicode_lowercase(text@));
                    &&& index < m.len()
                    &&& a@ == self@[m[index as int]].action
                },
                None => index >= matched_indices(self@, unicode_lowercase(text@)).len(),
            },
    {
        let shown = self.results(text);
        if index < shown.len() {
            let i = shown[index];
            assert(shown@.map_values(|j: usize| j as int)[index as int] == i as int);
            proof {
                lemma_matched_in_range(self@, unicode_lowercase(text@));
            }
            Some(self.items[i].action.clone())
        } else {
            None
        }
    }
}

/// Dropping the jump entries after adding some for a list of processes
/// gives back a palette that had none.
pub proof fn law_refresh_undoes_navigation(items: Seq<PaletteItemView>, names: Seq<Seq<char>>)
    requires
        without_navigation(items) == items,
    ensures
        without_navigation(items + names.map_values(|n: Seq<char>| navigation_item(n))) == items,
    decreases names.len(),
{
    let all = items + names.map_values(|n: Seq<char>| navigation_item(n));
    if names.len() > 0 {
        let shorter = names.drop_last();
        law_refresh_undoes_navigation(items, shorter);
        assert(all.drop_last() =~= items + shorter.map_values(|n: Seq<char>| navigation_item(n)));
        reveal_strlit("NAVIGATION");
    } else {
        assert(all =~= items);
    }
}

/// An empty query shows every entry, in order.
pub proof fn law_empty_query_shows_all(items: Seq<PaletteItemView>)
    ensures
        matched_indices(items, seq![]) == Seq::new(items.len(), |i: int| i),
    decreases items.len(),
{
    if items.len() > 0 {
        law_empty_query_shows_all(items.drop_last());
        assert(matched_indices(items, seq![]) =~= Seq::new(items.len(), |i: int| i));
    } else {
        assert(matched_indices(items, seq![]) =~= Seq::new(items.len(), |i: int| i));
    }
}

/// A typed (lowercased) query shows exactly the entries whose lowercased
/// label, category or action contains it — every entry for an empty
/// query — in their order, each once.
pub proof fn law_query_shows_exactly_the_matching_entries(
    items: Seq<PaletteItemView>,
    query: Seq<char>,
)
    ensures
        forall|i: int|
            0 <= i < items.len() ==> (matched_indices(items, query).contains(i) <==> (query.len()
                == 0 || has_infix(unicode_lowercase(items[i].label), query) || has_infix(
                unicode_lowercase(items[i].category),
                query,
            ) || has_infix(unicode_lowercase(items[i].action), query))),
        forall|j: int, k: int|
            0 <= j < k < matched_indices(items, query).len() ==> matched_indices(items, query)[j]
                < matched_indices(items, query)[k],
        forall|j: int|
            0 <= j < matched_indices(items, query).len() ==> 0 <= #[trigger] matched_indices(
                items,
                query,
            )[j] < items.len(),
    decreases items.len(),
{
    lemma_matched_in_range(items, query);
    if items.len() > 0 {
        let rest = items.drop_last();
        law_query_shows_exactly_the_matching_entries(rest, query);
        lemma_matched_in_range(rest, query);
        let m = matched_indices(items, query);
        let m0 = matched_indices(rest, query);
        let n = items.len() - 1;
        assert forall|i: int| 0 <= i < items.len() implies (m.contains(i) <==> (query.len() == 0
            || has_infix(unicode_lowercase(items[i].label), query) || has_infix(
            unicode_lowercase(items[i].category),
            query,
        ) || has_infix(unicode_lowercase(items[i].action), query))) by {
            if i < n {
                assert(rest[i] == items[i]);
                if m.contains(i) {
                    let j = choose|j: int| 0 <= j < m.len() && m[j] == i;
                    if j < m0.len() {
                        assert(m[j] == m0[j]);
                    }
                    assert(m0.contains(i));
                }
                if m0.contains(i) {
                    let j = choose|j: int| 0 <= j < m0.len() && m0[j] == i;
                    assert(m[j] == m0[j]);
                }
            } else {
                if m.contains(i) {
                    let j = choose|j: int| 0 <= j < m.len() && m[j] == i;
                    if j < m0.len() {
                        assert(m[j] == m0[j]);
                        assert(m0[j] < rest.len());
                    }
                }
                if query.len() == 0 || item_matches(items.last(), query) {
                    assert(m[m.len() - 1] == n);
                }
            }
        }
        assert forall|j: int, k: int| 0 <= j < k < m.len() implies m[j] < m[k] by {
            if k < m0.len() {
                assert(m[j] == m0[j] && m[k] == m0[k]);
            } else {
                assert(m[j] == m0[j]);
                assert(m0[j] < rest.len());
            }
        }
    }
}

/// Every shown position names an entry.
pub proof fn lemma_matched_in_range(items: Seq<PaletteItemView>, query: Seq<char>)
    ensures
        forall|j: int|
            0 <= j < matched_indices(items, query).len() ==> 0 <= #[trigger] matched_indices(
                items,
                query,
            )[j] < items.len(),
    decreases items.len(),
{
    if items.len() > 0 {
        lemma_matched_in_range(items.drop_last(), query);
        let m = matched_indices(items, query);
        let m0 = matched_indices(items.drop_last(), query);
        assert forall|j: int| 0 <= j < m.len() implies 0 <= #[trigger] m[j] < items.len() by {
            if j < m0.len() {
                assert(m[j] == m0[j]);
            }
        }
    }
}

} // verus!
