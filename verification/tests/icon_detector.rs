use tuxflow::util::icon_detector::{
    candidates, detect_icons_fs, is_glob_pattern, plain_candidates, project_icon_candidates,
    select_present, ProjectFs,
};

/// A favicon under `assets/` used to be invisible to detection even though
/// the same name is checked under `public/` and `static/`.
#[test]
fn assets_favicon_is_a_candidate() {
    let cands = candidates();
    for name in [
        "assets/favicon.svg",
        "assets/favicon.png",
        "assets/favicon.webp",
        "assets/favicon.ico",
    ] {
        assert!(cands.contains(&name), "{name} missing from CANDIDATES");
    }
}

#[test]
fn candidates_keep_their_priority_order() {
    let cands = candidates();
    assert_eq!(cands.len(), 47);
    assert_eq!(cands[0], "logo.svg");
    assert_eq!(cands[46], ".github/icon.png");
}

#[test]
fn glob_candidates_are_not_asked_of_a_remote_fs() {
    assert!(is_glob_pattern("data/icons/hicolor/scalable/apps/*.svg"));
    assert!(!is_glob_pattern("logo.svg"));
    let plain = plain_candidates();
    assert_eq!(plain.len(), 45);
    assert!(plain.iter().all(|c| !c.contains('*')));
    let all: Vec<&str> = candidates().into_iter().filter(|c| !c.contains('*')).collect();
    assert_eq!(plain, all);
}

#[test]
fn present_candidates_come_out_in_priority_order() {
    let plain = plain_candidates();
    let mut present = vec![false; plain.len()];
    let icon_png = plain.iter().position(|c| *c == "icon.png").unwrap();
    let assets_favicon = plain.iter().position(|c| *c == "assets/favicon.svg").unwrap();
    present[assets_favicon] = true;
    present[icon_png] = true;
    assert_eq!(select_present(&present), vec!["icon.png", "assets/favicon.svg"]);
}

#[test]
fn a_short_answer_selects_only_what_it_covers() {
    assert_eq!(select_present(&[true, false, true]), vec!["logo.svg", "logo.webp"]);
    assert!(select_present(&[]).is_empty());
}

struct FakeFs {
    files: Vec<&'static str>,
}

impl ProjectFs for FakeFs {
    fn exists_many_nonempty(&self, paths: &[&str]) -> Vec<bool> {
        paths.iter().map(|p| self.files.contains(p)).collect()
    }
}

#[test]
fn detect_icons_fs_reports_every_present_file() {
    let fs = FakeFs { files: vec!["public/favicon.ico", "logo.png", "README.md"] };
    assert_eq!(detect_icons_fs(&fs), vec!["logo.png", "public/favicon.ico"]);
    let empty = FakeFs { files: vec![] };
    assert!(detect_icons_fs(&empty).is_empty());
}

#[test]
fn project_editor_icon_candidates() {
    let c = project_icon_candidates();
    assert_eq!(c.len(), 16);
    assert_eq!(c[0], "favicon.svg");
    assert_eq!(c[15], "assets/icon.png");
}
