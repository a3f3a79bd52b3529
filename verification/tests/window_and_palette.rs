use tuxflow::ui::palette::{
    default_items, filter_items, matches_lowered_exec, navigation_entry, PaletteItem,
    PaletteModel,
};
use tuxflow::ui::window::{
    bracketed_paste, clipboard_decision, nth_in_groups, ClipRoute, parse_window_title, terminal_log_tail, project_of, relative_index, switch_target, title_cut_is_safe,
};

fn title(t: &str) -> Option<String> {
    assert!(title_cut_is_safe(t));
    parse_window_title(t)
}

#[test]
fn window_title_takes_the_part_after_the_last_colon() {
    assert_eq!(title("user@host: ~/src: vim").as_deref(), Some("vim"));
    assert_eq!(title("bash: npm run dev").as_deref(), Some("npm run dev"));
}

#[test]
fn window_title_takes_the_command_of_a_fish_title() {
    assert_eq!(title("cargo build - /home/me/proj").as_deref(), Some("cargo build"));
}

#[test]
fn window_title_keeps_a_plain_title_trimmed() {
    assert_eq!(title("  htop  ").as_deref(), Some("htop"));
}

#[test]
fn window_title_of_nothing_is_nothing() {
    assert_eq!(title(""), None);
    assert_eq!(title("   "), None);
    assert_eq!(title("host: ").as_deref(), Some("host:"));
    assert_eq!(title(" - /path").as_deref(), Some("- /path"));
}

#[test]
fn long_window_titles_are_cut_to_thirty_bytes() {
    let long = "abcdefghijklmnopqrstuvwxyz0123456789";
    let t = title(long).unwrap();
    assert_eq!(t, "abcdefghijklmnopqrstuvwxyz0...");
    assert_eq!(t.len(), 30);
    let exact = "abcdefghijklmnopqrstuvwxyz0123";
    assert_eq!(title(exact).as_deref(), Some(exact));
}

#[test]
fn a_long_title_cut_inside_a_character_is_refused() {
    // 26 ASCII bytes, then two-byte characters: byte 27 falls inside one.
    let t = format!("{}{}", "a".repeat(26), "\u{e9}".repeat(5));
    assert!(!title_cut_is_safe(&t));
    let ok = format!("{}{}", "a".repeat(25), "\u{e9}".repeat(5));
    assert!(title_cut_is_safe(&ok));
    assert_eq!(parse_window_title(&ok).unwrap(), format!("{}\u{e9}...", "a".repeat(25)));
}

#[test]
fn relative_index_wraps_both_ways() {
    assert_eq!(relative_index(0, 1, 3), 1);
    assert_eq!(relative_index(2, 1, 3), 0);
    assert_eq!(relative_index(0, -1, 3), 2);
    assert_eq!(relative_index(1, -4, 3), 0);
    assert_eq!(relative_index(0, 7, 3), 1);
}

#[test]
fn switch_target_starts_from_the_selection_or_the_first() {
    let names: Vec<String> = ["p::a", "p::b", "q::c"].iter().map(|s| s.to_string()).collect();
    assert_eq!(switch_target(&names, Some("p::b"), 1), Some(2));
    assert_eq!(switch_target(&names, Some("q::c"), 1), Some(0));
    assert_eq!(switch_target(&names, Some("gone"), -1), Some(2));
    assert_eq!(switch_target(&names, None, 1), Some(1));
    assert_eq!(switch_target(&[], Some("p::a"), 1), None);
}

#[test]
fn project_of_splits_at_the_first_separator() {
    assert_eq!(project_of("web::dev").as_deref(), Some("web"));
    assert_eq!(project_of("a::b::c").as_deref(), Some("a"));
    assert_eq!(project_of("plain"), None);
}

#[test]
fn palette_starts_with_the_default_entries() {
    let items = default_items();
    assert_eq!(items.len(), 10);
    assert_eq!(items[0].action, "new_agent:codex");
    assert_eq!(items[0].category, "AGENT");
    assert_eq!(items[7].label, "New project (open directory)");
    assert_eq!(items[9].action, "restart_all");
    assert_eq!(PaletteModel::new().items.len(), 10);
}

#[test]
fn palette_query_matches_label_category_or_action() {
    let items = default_items();
    assert_eq!(filter_items(&items, "ssh"), vec![6]);
    assert_eq!(filter_items(&items, "agent"), vec![0, 1, 2, 3]);
    assert_eq!(filter_items(&items, "stop_all"), vec![8]);
    assert_eq!(filter_items(&items, "").len(), 10);
    assert!(filter_items(&items, "zzz").is_empty());
}

#[test]
fn palette_lowercases_what_is_typed() {
    let p = PaletteModel::new();
    assert_eq!(p.results("SSH"), vec![6]);
    assert_eq!(p.results("Restart"), vec![9]);
    assert_eq!(p.activate("Restart", 0).as_deref(), Some("restart_all"));
    assert_eq!(p.activate("Restart", 1), None);
    assert_eq!(p.activate("", 4).as_deref(), Some("add_process"));
}

#[test]
fn matches_lowered_is_a_substring_test() {
    assert!(matches_lowered_exec("new terminal tab", "terminal", "new_terminal", "tab"));
    assert!(matches_lowered_exec("a", "b", "switch:web", "web"));
    assert!(!matches_lowered_exec("a", "b", "c", "d"));
    assert!(matches_lowered_exec("a", "b", "c", ""));
}

#[test]
fn navigation_entries_come_and_go() {
    let mut p = PaletteModel::new();
    p.add_navigation_items(&["web::dev".to_string(), "api::run".to_string()]);
    assert_eq!(p.items.len(), 12);
    let e = &p.items[10];
    assert_eq!(e.category, "NAVIGATION");
    assert_eq!(e.label, "Switch to web::dev");
    assert_eq!(e.icon, "go-jump-symbolic");
    assert_eq!(e.action, "switch:web::dev");
    assert_eq!(p.results("api::"), vec![11]);
    p.refresh();
    assert_eq!(p.items.len(), 10);
    assert_eq!(p.items[9].action, "restart_all");
}

#[test]
fn palette_items_can_be_replaced() {
    let mut p = PaletteModel::new();
    p.set_items(vec![PaletteItem::new("X", "Only", "icon", "only")]);
    assert_eq!(p.results("only"), vec![0]);
    let e = navigation_entry("x");
    assert_eq!(e.duplicate().action, "switch:x");
}

#[test]
fn terminal_log_tail_keeps_the_last_nonblank_lines() {
    assert_eq!(terminal_log_tail("a\n\n  \nb\r\nc\n", 2), "b\nc");
    assert_eq!(terminal_log_tail("a\nb", 5), "a\nb");
    assert_eq!(terminal_log_tail("", 3), "");
    assert_eq!(terminal_log_tail("a\nb", 0), "");
}

#[test]
fn composed_text_is_sent_as_a_bracketed_paste() {
    assert_eq!(bracketed_paste("hi", false).as_deref(), Some("\u{1b}[200~hi\u{1b}[201~"));
    assert_eq!(bracketed_paste("hi", true).as_deref(), Some("\u{1b}[200~\nhi\u{1b}[201~"));
    assert_eq!(bracketed_paste("", true), None);
}

#[test]
fn a_gesture_only_claims_a_fresh_buffer() {
    let six_s: u128 = 6_000_000_000;
    let one_s: u128 = 1_000_000_000;
    assert_eq!(clipboard_decision(ClipRoute::Selection, six_s, 7, Some(1)), (false, Some(1)));
    assert_eq!(clipboard_decision(ClipRoute::Selection, 5_000_000_000, 7, Some(1)), (true, Some(7)));
    assert_eq!(clipboard_decision(ClipRoute::ExplicitCopy, six_s, 7, Some(1)), (true, Some(7)));
    assert_eq!(clipboard_decision(ClipRoute::Selection, one_s, 7, Some(7)), (false, Some(7)));
    assert_eq!(clipboard_decision(ClipRoute::Selection, one_s, 7, None), (true, None));
}

#[test]
fn nth_running_process_counts_across_projects() {
    let groups = vec![
        vec!["a".to_string(), "b".to_string()],
        vec![],
        vec!["c".to_string()],
    ];
    assert_eq!(nth_in_groups(&groups, 0), Some((0, 0)));
    assert_eq!(nth_in_groups(&groups, 1), Some((0, 1)));
    assert_eq!(nth_in_groups(&groups, 2), Some((2, 0)));
    assert_eq!(nth_in_groups(&groups, 3), None);
}
