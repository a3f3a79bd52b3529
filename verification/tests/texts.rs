use tuxflow::ui::add_command_dialog::parse_watch_patterns;
use tuxflow::ui::path_completion::CompletionGeneration;
use tuxflow::ui::selection::ClickTracker;
use tuxflow::ui::sidebar::{
    count_label, port_label, row_state, section_order, status_css_class, FileStatus, ProcessStatus,
};
use tuxflow::ui::status_bar::{
    branch_label, branch_of_label, diffstat_tooltip, git_sync_markup, git_sync_tooltip,
    global_info, project_label, pull_button, push_button, update_label, url_tooltip,
};
use tuxflow::ui::terminal_theme::{
    rgb_channels, terminal_themes, theme_choices, theme_for, theme_index, theme_name,
};
use tuxflow::util::notifications::{
    agent_combo_index, agent_sound_at, sound_at, sound_combo_index, bundled_sounds, cached_file_name, crash_body, file_watch_restart_body, finish_body,
    resolve_sound, restart_body, DEFAULT_SOUND_ID,
};
use tuxflow::util::resource_monitor::{
    collect_process_tree, cpu_ticks, parse_pid, stat_ppid, stat_times, statm_resident_pages,
    ResourceMonitor,
};

#[test]
fn project_label_shows_counts_when_there_are_processes() {
    assert_eq!(project_label(Some("web"), 1, 3).as_deref(), Some("web 1/3"));
    assert_eq!(project_label(Some("web"), 0, 0).as_deref(), Some("web"));
    assert_eq!(project_label(None, 1, 3), None);
}

#[test]
fn global_info_lists_running_processes_per_project() {
    let names = vec![
        ("web".to_string(), vec!["dev".to_string(), "api".to_string()]),
        ("idle".to_string(), vec![]),
        ("docs".to_string(), vec!["serve".to_string()]),
    ];
    let g = global_info(3, 5, true, &names).unwrap();
    assert_eq!(g.label, "Total 3/5");
    assert!(g.separator);
    assert_eq!(g.tooltip.as_deref(), Some("web: dev, api\ndocs: serve"));
    let g = global_info(0, 5, false, &names).unwrap();
    assert!(!g.separator);
    assert_eq!(g.tooltip, None);
    assert!(global_info(0, 0, true, &names).is_none());
}

#[test]
fn git_sync_texts() {
    assert_eq!(git_sync_markup(0, 0), None);
    assert_eq!(
        git_sync_markup(2, 0).as_deref(),
        Some("<span foreground='#73c991'>\u{2191}2</span>")
    );
    assert_eq!(
        git_sync_markup(2, 3).as_deref(),
        Some("<span foreground='#d29922'>\u{2193}3</span> <span foreground='#73c991'>\u{2191}2</span>")
    );
    assert_eq!(git_sync_tooltip(0, 0), "Pull & Push (in sync \u{2014} click to fetch)");
    assert_eq!(git_sync_tooltip(4, 0), "Pull & Push (4 to push)");
    assert_eq!(git_sync_tooltip(0, 7), "Pull & Push (7 to pull)");
    assert_eq!(git_sync_tooltip(4, 7), "Pull & Push (4 to push, 7 to pull)");
}

#[test]
fn diffstat_tooltip_texts() {
    assert_eq!(diffstat_tooltip(0, 0, 0, 0), "Git Changes");
    assert_eq!(diffstat_tooltip(3, 10, 2, 0), "Git Changes (3 files: +10 \u{2212}2)");
    assert_eq!(diffstat_tooltip(0, 0, 0, 4), "Git Changes (4 untracked)");
    assert_eq!(diffstat_tooltip(1, 0, 5, 2), "Git Changes (1 files: +0 \u{2212}5, 2 untracked)");
}

#[test]
fn branch_label_round_trips() {
    assert_eq!(branch_label("main"), "\u{2387} main");
    assert_eq!(branch_of_label(&branch_label("feature/x")), "feature/x");
    assert_eq!(branch_of_label("plain"), "plain");
}

#[test]
fn git_buttons_and_misc_labels() {
    assert_eq!(push_button(2), ("Push (2)".to_string(), true));
    assert_eq!(push_button(0), ("Push".to_string(), false));
    assert_eq!(pull_button(1), ("Pull (1)".to_string(), true));
    assert_eq!(pull_button(0), ("Pull".to_string(), false));
    assert_eq!(url_tooltip("http://localhost:3000"), "Open http://localhost:3000");
    assert_eq!(update_label("1.2.3"), "Update available: v1.2.3");
    assert_eq!(count_label(2, 5), "2/5");
    assert_eq!(port_label(5173), ":5173");
}

#[test]
fn sections_keep_the_sidebar_order() {
    assert_eq!(section_order("AGENTS"), 0);
    assert_eq!(section_order("COMMANDS"), 1);
    assert_eq!(section_order("TERMINALS"), 2);
    assert_eq!(section_order("SSH"), 3);
    assert_eq!(section_order("other"), 4);
    assert_eq!(section_order("agents"), 4);
}

#[test]
fn watch_patterns_are_trimmed_and_blanks_dropped() {
    assert_eq!(parse_watch_patterns("src/**/*.rs, *.toml ,, "), vec!["src/**/*.rs", "*.toml"]);
    assert!(parse_watch_patterns("").is_empty());
    assert!(parse_watch_patterns(" , ,").is_empty());
    assert_eq!(parse_watch_patterns("one"), vec!["one"]);
}

#[test]
fn completion_results_of_an_older_keystroke_are_dropped() {
    let mut g = CompletionGeneration::new();
    let first = g.start();
    assert!(g.is_current(first));
    let second = g.start();
    assert!(!g.is_current(first));
    assert!(g.is_current(second));
    assert_eq!(second, first + 1);
}

#[test]
fn sounds_resolve_by_trimmed_id_or_fall_back() {
    let sounds = bundled_sounds();
    assert_eq!(sounds.len(), 18);
    assert_eq!(sounds[17].id, "sound18");
    assert_eq!(sounds[17].label, "Sound 18");
    assert_eq!(resolve_sound("sound7"), 6);
    assert_eq!(resolve_sound("  sound12\n"), 11);
    assert_eq!(resolve_sound("bell"), 0);
    assert_eq!(sounds[resolve_sound("")].id, DEFAULT_SOUND_ID);
    assert_eq!(cached_file_name("sound3"), "sound3.ogg");
}

#[test]
fn notification_bodies() {
    assert_eq!(crash_body("dev"), "dev: crashed");
    assert_eq!(restart_body("dev", 3), "dev: restarting (attempt 3)");
    assert_eq!(finish_body("build"), "build: finished");
    assert_eq!(file_watch_restart_body("api"), "api: file change \u{2192} restart");
}

#[test]
fn theme_tables() {
    let themes = terminal_themes();
    assert_eq!(themes.len(), 9);
    assert_eq!(theme_choices()[0], "Catppuccin Mocha (Default)");
    assert_eq!(theme_index("dracula"), 1);
    assert_eq!(theme_index("nope"), 0);
    assert_eq!(theme_name(1), "dracula");
    assert_eq!(theme_name(100), "catppuccin-mocha");
    for i in 0..9u32 {
        assert_eq!(theme_index(theme_name(i)), i);
    }
    assert_eq!(theme_for("nord").background, 0x2E3440);
    assert_eq!(theme_for("nope").name, "catppuccin-mocha");
    assert_eq!(rgb_channels(0x1E1E2E), (0x1E, 0x1E, 0x2E));
    assert_eq!(rgb_channels(0xFF8000), (255, 128, 0));
}

#[test]
fn click_tracker_publishes_drags_and_click_sequences() {
    let mut t = ClickTracker::new(400);
    assert!(!t.release(true), "no press at all");
    t.press(1_000, false);
    assert!(!t.release(false), "plain click");
    t.press(1_200, true);
    assert!(t.release(false), "double click");
    assert!(!t.release(true), "press already consumed");
    t.press(1_700, true);
    assert!(!t.release(false), "past the double-click interval");
    t.press(5_000, false);
    assert!(t.release(true), "drag");
}

#[test]
fn click_tracker_clock_may_wrap() {
    let mut t = ClickTracker::new(400);
    t.press(u32::MAX - 100, false);
    assert!(!t.release(false));
    t.press(99, true);
    assert!(t.release(false));
}

#[test]
fn proc_texts_are_parsed() {
    let stat = "1234 (my (odd) name) S 1 1234 1234 0 -1 4194560 100 0 0 0 25 7 0 0 20 0 1 0 100 0 0";
    assert_eq!(stat_times(stat), Some((25, 7)));
    assert_eq!(stat_ppid(stat), Some(1));
    assert_eq!(stat_times("no comm here"), None);
    assert_eq!(stat_times("1 (x) S 1"), None);
    assert_eq!(parse_pid("4321"), Some(4321));
    assert_eq!(parse_pid("self"), None);
    assert_eq!(statm_resident_pages("1000 250 30 1 0 100 0"), Some(250));
    assert_eq!(statm_resident_pages("1000"), None);
    assert_eq!(
        cpu_ticks("cpu  10 20 30 40\ncpu0 1 2 3 4\n"),
        Some(vec![10, 20, 30, 40])
    );
    assert_eq!(cpu_ticks(""), None);
}

#[test]
fn process_tree_is_breadth_first() {
    let entries = vec![(10, 1), (11, 10), (12, 10), (13, 11), (20, 1), (14, 12)];
    assert_eq!(collect_process_tree(10, &entries, 7), Some(vec![10, 11, 12, 13, 14]));
    assert_eq!(collect_process_tree(99, &entries, 7), Some(vec![99]));
    assert_eq!(collect_process_tree(10, &entries, 2), None);
    let cyclic = vec![(1, 2), (2, 1)];
    assert_eq!(collect_process_tree(1, &cyclic, 10), None);
}

#[test]
fn resource_monitor_tracks_tick_deltas() {
    let mut m = ResourceMonitor::new();
    assert_eq!(m.record_ticks(7, 100, 1_000), None);
    assert_eq!(m.record_ticks(7, 150, 1_400), Some((50, 400)));
    assert_eq!(m.record_ticks(7, 140, 1_300), Some((0, 0)));
    m.record_ticks(8, 1, 1);
    let mut pids = m.tracked_pids();
    pids.sort();
    assert_eq!(pids, vec![7, 8]);
    m.remove_stale(&[8]);
    assert_eq!(m.tracked_pids(), vec![8]);
}

#[test]
fn process_rows_follow_the_status() {
    let r = row_state(ProcessStatus::Restarting);
    assert!(r.running);
    assert_eq!(r.dot_class, "status-running");
    assert!(!r.clears_details);
    let c = row_state(ProcessStatus::Crashed);
    assert!(!c.running);
    assert_eq!(c.dot_class, "status-crashed");
    assert!(c.clears_details);
    assert_eq!(row_state(ProcessStatus::Stopped).dot_class, "status-stopped");
    assert!(row_state(ProcessStatus::Running).running);
}

#[test]
fn git_file_badges() {
    assert_eq!(status_css_class(FileStatus::Renamed), "git-status-modified");
    assert_eq!(status_css_class(FileStatus::Modified), "git-status-modified");
    assert_eq!(status_css_class(FileStatus::Added), "git-status-added");
    assert_eq!(status_css_class(FileStatus::Deleted), "git-status-deleted");
    assert_eq!(status_css_class(FileStatus::Untracked), "git-status-untracked");
}

#[test]
fn sound_dropdowns_map_to_sounds() {
    assert_eq!(sound_combo_index("sound5"), 4);
    assert_eq!(sound_combo_index(" sound5"), 0);
    assert_eq!(sound_combo_index("bell"), 0);
    assert_eq!(sound_at(4), Some("sound5"));
    assert_eq!(sound_at(18), None);
    assert_eq!(agent_combo_index(None), 0);
    assert_eq!(agent_combo_index(Some("sound1")), 1);
    assert_eq!(agent_combo_index(Some("bell")), 0);
    assert_eq!(agent_sound_at(0), None);
    assert_eq!(agent_sound_at(1), Some("sound1"));
    assert_eq!(agent_sound_at(18), Some("sound18"));
    assert_eq!(agent_sound_at(19), None);
}
