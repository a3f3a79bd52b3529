use tuxflow::util::port_detector::{
    join_hard_wraps, port_phrase_in_exec, port_phrase_is_ok_in, remap_url_port, PortDetector,
};

#[test]
fn a_plain_server_url_locks_the_badge() {
    let mut d = PortDetector::new();
    d.scan_output("web", "Server listening on http://localhost:3000\n");
    assert!(d.has_port("web"));
    assert!(d.has_local_port("web"));
    assert!(d.badge_final("web"));
    assert_eq!(d.get_port("web"), Some(3000));
    assert_eq!(d.get_url("web"), Some("http://localhost:3000"));
    assert_eq!(d.all_local_ports("web"), vec![3000]);
}

#[test]
fn nothing_is_known_before_a_scan() {
    let d = PortDetector::new();
    assert!(!d.has_port("web"));
    assert!(!d.has_local_port("web"));
    assert!(!d.badge_final("web"));
    assert_eq!(d.get_port("web"), None);
    assert_eq!(d.get_url("web"), None);
    assert!(d.all_local_ports("web").is_empty());
}

#[test]
fn build_tool_lines_are_harvested_but_never_badge() {
    let mut d = PortDetector::new();
    d.scan_output("dev", "  VITE v5.0.0  ready in 300 ms\n  \u{279c}  Local:   http://localhost:5173/\n");
    assert!(!d.has_port("dev"));
    assert_eq!(d.get_port("dev"), None);
    assert_eq!(d.all_local_ports("dev"), vec![5173]);
}

#[test]
fn bracketed_tool_tags_do_not_badge() {
    let mut d = PortDetector::new();
    d.scan_output("dev", "[vite] server at http://localhost:5173\n[api] listening on http://localhost:8000\n");
    assert_eq!(d.get_port("dev"), Some(8000));
    assert_eq!(d.all_local_ports("dev"), vec![5173, 8000]);
}

#[test]
fn a_port_in_use_line_names_someone_else() {
    let mut d = PortDetector::new();
    d.scan_output("dev", "Port 5173 is in use, trying another one...\n");
    assert!(!d.has_port("dev"));
    assert!(d.all_local_ports("dev").is_empty());
}

#[test]
fn a_bare_port_phrase_counts_as_local() {
    let mut d = PortDetector::new();
    d.scan_output("api", "Listening on port 8080\n");
    assert_eq!(d.get_port("api"), Some(8080));
    assert_eq!(d.get_url("api"), Some("http://localhost:8080"));
    assert!(d.badge_final("api"));
}

#[test]
fn localhost_and_loopback_words_count_as_local() {
    let mut d = PortDetector::new();
    d.scan_output("a", "bound to localhost:4000.\n");
    assert_eq!(d.get_url("a"), Some("http://localhost:4000"));
    let mut d = PortDetector::new();
    d.scan_output("b", "bound to 0.0.0.0:9000\n");
    assert_eq!(d.get_port("b"), Some(9000));
    assert_eq!(d.get_url("b"), Some("http://localhost:9000"));
}

#[test]
fn a_remote_url_is_provisional_until_a_local_one_appears() {
    let mut d = PortDetector::new();
    d.scan_output("app", "Log in at https://accounts.example.com/oauth?x=1\n");
    assert!(d.has_port("app"));
    assert!(!d.has_local_port("app"));
    assert!(!d.badge_final("app"));
    assert_eq!(d.get_port("app"), Some(443));
    assert_eq!(d.get_url("app"), Some("https://accounts.example.com/oauth?x=1"));

    // A second remote URL does not shadow the first.
    d.scan_output("app", "docs at http://docs.example.com/\n");
    assert_eq!(d.get_port("app"), Some(443));

    d.scan_output("app", "ready on http://localhost:3000\n");
    assert_eq!(d.get_port("app"), Some(3000));
    assert!(d.badge_final("app"));
}

#[test]
fn a_preview_url_beats_local_urls() {
    let mut d = PortDetector::new();
    d.scan_output(
        "shop",
        "GraphiQL URL: http://localhost:3457/graphiql\nPreview URL: https://admin.shopify.com/store/x/apps/y\n",
    );
    assert_eq!(d.get_url("shop"), Some("https://admin.shopify.com/store/x/apps/y"));
    assert!(d.badge_final("shop"));
    assert!(!d.has_local_port("shop"));
    assert_eq!(d.all_local_ports("shop"), vec![3457]);
}

#[test]
fn a_final_badge_is_sticky_but_ports_still_accumulate() {
    let mut d = PortDetector::new();
    d.scan_output("web", "http://localhost:3000\n");
    d.scan_output("web", "assets on http://localhost:4000\n");
    assert_eq!(d.get_port("web"), Some(3000));
    assert_eq!(d.all_local_ports("web"), vec![3000, 4000]);
    d.scan_output("web", "again http://localhost:3000\n");
    assert_eq!(d.all_local_ports("web"), vec![3000, 4000]);
}

#[test]
fn clear_forgets_a_process_only() {
    let mut d = PortDetector::new();
    d.scan_output("a", "http://localhost:3000\n");
    d.scan_output("b", "http://localhost:4000\n");
    d.clear("a");
    assert!(!d.has_port("a"));
    assert!(d.all_local_ports("a").is_empty());
    assert_eq!(d.get_port("b"), Some(4000));
    d.scan_output("a", "http://localhost:5000\n");
    assert_eq!(d.get_port("a"), Some(5000));
}

#[test]
fn a_url_wrapped_at_the_terminal_width_is_rejoined() {
    let mut d = PortDetector::new();
    d.scan_output_wrapped("web", "http://localhost:300\n0/app\n", 20);
    assert_eq!(d.get_port("web"), Some(3000));
    assert_eq!(d.get_url("web"), Some("http://localhost:3000/app"));
}

#[test]
fn join_hard_wraps_cases() {
    assert_eq!(join_hard_wraps("abc\ndef", 10), "abc\ndef");
    assert_eq!(join_hard_wraps("a  \nb", 1), "a  \nb");
    assert_eq!(join_hard_wraps("a  \nb", usize::MAX), "a  \nb");
    assert_eq!(join_hard_wraps("hello\n0123456789", 10), "hello\n");
    assert_eq!(join_hard_wraps("0123456789\n   \nnext", 10), "next");
    assert_eq!(join_hard_wraps(" 012345678\n 9xyz", 10), " 0123456789xyz");
    assert_eq!(join_hard_wraps("abc   \ndef", 10), "abc\ndef");
}

#[test]
fn remap_only_touches_whole_ports() {
    assert_eq!(remap_url_port("http://localhost:8080/x", 80, 9000), "http://localhost:8080/x");
    assert_eq!(remap_url_port("http://localhost:80/x", 80, 9000), "http://localhost:9000/x");
    assert_eq!(remap_url_port("http://localhost:3000", 3000, 3000), "http://localhost:3000");
    assert_eq!(remap_url_port("http://example.com/", 80, 81), "http://example.com/");
    assert_eq!(remap_url_port(":80:80", 80, 1), ":1:1");
}

#[test]
fn lowercasing_that_grows_a_line_shifts_the_port_phrase() {
    // `İ` lowercases to two characters, one byte longer: the number is read
    // one byte late, as the byte offsets of the lowercased line dictate.
    let mut d = PortDetector::new();
    assert!(d.scan_output_checked("x", "\u{130} port 8080\n", usize::MAX));
    assert_eq!(d.get_port("x"), Some(80));
    // Here the late offset falls inside `é`: such a text is refused.
    let mut d = PortDetector::new();
    assert!(!d.scan_output_checked("y", "\u{23a} port \u{e9}1\n", usize::MAX));
    assert!(!d.has_port("y"));
    // Plain text goes through the checked scan unchanged.
    let mut d = PortDetector::new();
    assert!(d.scan_output_checked("z", "http://localhost:300\n0/app\n", 20));
    assert_eq!(d.get_url("z"), Some("http://localhost:3000/app"));
}

#[test]
fn the_port_phrase_is_read_at_the_lowercase_offset() {
    assert_eq!(port_phrase_in_exec("Listening on Port 8080", "listening on port 8080"), Some(8080));
    assert_eq!(port_phrase_in_exec("\u{130} port 8080", "i\u{307} port 8080"), Some(80));
    assert_eq!(port_phrase_in_exec("no phrase", "no phrase"), None);
    assert_eq!(port_phrase_in_exec("port x", "port x"), None);
    assert!(!port_phrase_is_ok_in("\u{23a} port \u{e9}1", "\u{2c65} port \u{e9}1"));
    assert!(port_phrase_is_ok_in("\u{130} port 8080", "i\u{307} port 8080"));
}
