use flash::config::FlashConfig;
use flash::watch::{is_not_allow_dir, touches_build_output, IgnoreRule, WatchAction, WatchEvent, WatchLoop, DEBOUNCE_NANOS};

fn paths(ps: &[&str]) -> Vec<String> {
    ps.iter().map(|p| p.to_string()).collect()
}

fn config(dirs: &[&str]) -> FlashConfig {
    FlashConfig { dir: paths(dirs), observers: Vec::new() }
}

#[test]
fn excluded_when_a_path_contains_the_first_dir() {
    let c = config(&["target", "docs"]);
    assert!(is_not_allow_dir(&paths(&["/w/src/main.rs", "/w/target/debug/x"]), &c));
    assert!(!is_not_allow_dir(&paths(&["/w/src/main.rs"]), &c));
}

#[test]
fn only_the_first_configured_dir_is_consulted() {
    let c = config(&["target", "docs"]);
    assert!(!is_not_allow_dir(&paths(&["/w/docs/readme.md"]), &c));
}

#[test]
fn nothing_excluded_without_configured_dirs() {
    assert!(!is_not_allow_dir(&paths(&["/w/target/x"]), &config(&[])));
    assert!(!is_not_allow_dir(&Vec::new(), &config(&["target"])));
}

#[test]
fn empty_dir_entry_excludes_any_path() {
    assert!(is_not_allow_dir(&paths(&["/anything"]), &config(&[""])));
}

#[test]
fn build_output_marker() {
    assert!(touches_build_output(&paths(&["/w/target/debug/app"])));
    assert!(!touches_build_output(&paths(&["/w/target"])));
    assert!(!touches_build_output(&paths(&["/w/src/lib.rs"])));
}

#[test]
fn unicode_paths_match_by_characters() {
    let c = config(&["ção/"]);
    assert!(is_not_allow_dir(&paths(&["/w/configuração/a"]), &c));
    assert!(!is_not_allow_dir(&paths(&["/w/configuracao/a"]), &c));
}

#[test]
fn debounce_spaces_rebuilds() {
    let mut w = WatchLoop::new(IgnoreRule::BuildOutput, 0);
    assert_eq!(w.debounce, DEBOUNCE_NANOS);
    let change = WatchEvent::Modify { paths: paths(&["/w/src/a.rs"]) };
    assert_eq!(w.on_event(&change, DEBOUNCE_NANOS), WatchAction::Skip);
    assert_eq!(w.on_event(&change, DEBOUNCE_NANOS + 1), WatchAction::Rebuild);
    assert_eq!(w.last_processed, DEBOUNCE_NANOS + 1);
    assert_eq!(w.on_event(&change, 2 * DEBOUNCE_NANOS), WatchAction::Skip);
    assert_eq!(w.on_event(&change, 2 * DEBOUNCE_NANOS + 2), WatchAction::Rebuild);
}

#[test]
fn earlier_time_never_rebuilds() {
    let mut w = WatchLoop::new(IgnoreRule::BuildOutput, 10 * DEBOUNCE_NANOS);
    let change = WatchEvent::Modify { paths: paths(&["/w/src/a.rs"]) };
    assert_eq!(w.on_event(&change, 0), WatchAction::Skip);
    assert_eq!(w.last_processed, 10 * DEBOUNCE_NANOS);
}

#[test]
fn ignored_change_leaves_state() {
    let mut w = WatchLoop::new(IgnoreRule::ConfiguredDirs { dirs: paths(&["target"]) }, 0);
    let change = WatchEvent::Modify { paths: paths(&["/w/target/debug/app"]) };
    assert_eq!(w.on_event(&change, 100 * DEBOUNCE_NANOS), WatchAction::Skip);
    assert_eq!(w.last_processed, 0);
}

#[test]
fn other_events_and_failures() {
    let mut w = WatchLoop::new(IgnoreRule::BuildOutput, 0);
    assert_eq!(w.on_event(&WatchEvent::Other, 100 * DEBOUNCE_NANOS), WatchAction::Skip);
    let failure = WatchEvent::Failed { message: "boom".to_string() };
    assert_eq!(w.on_event(&failure, 100 * DEBOUNCE_NANOS), WatchAction::ReportError);
    assert_eq!(w.last_processed, 0);
}

#[test]
fn ignores_follows_the_rule() {
    let w = WatchLoop::new(IgnoreRule::ConfiguredDirs { dirs: paths(&["gen"]) }, 0);
    assert!(w.ignores(&paths(&["/w/gen/x"])));
    assert!(!w.ignores(&paths(&["/w/target/x"])));
    let b = WatchLoop::new(IgnoreRule::BuildOutput, 0);
    assert!(b.ignores(&paths(&["/w/target/x"])));
}

#[test]
fn change_after_quiet_period_rebuilds_and_resets() {
    let mut w = WatchLoop::new(IgnoreRule::ConfiguredDirs { dirs: paths(&["target"]) }, 7);
    let change = WatchEvent::Modify { paths: paths(&["/w/src/main.rs"]) };
    let t = 7 + DEBOUNCE_NANOS + 1;
    assert_eq!(w.on_event(&change, t), WatchAction::Rebuild);
    assert_eq!(w.last_processed, t);
    assert_eq!(w.on_event(&change, t + DEBOUNCE_NANOS), WatchAction::Skip);
    assert_eq!(w.last_processed, t);
}
