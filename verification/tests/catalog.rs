use flash::build_output::{has_exe_extension, has_exec_permission, is_build_artifact};
use flash::state::{get_executable, AppState, Artifact, Executable};

fn artifact(name: &str, path: &str, time: i128) -> Artifact {
    Artifact { name: name.to_string(), path: path.to_string(), time, hash: (time as u64) ^ 0xabcd }
}

fn exe(name: &str, path: &str, time: i128, need_update: bool) -> Executable {
    Executable { name: name.to_string(), path: path.to_string(), time, need_update, hash: 1 }
}

#[test]
fn new_state_needs_initial_build() {
    let state = AppState::default();
    assert!(state.crates.is_empty());
    assert!(state.needs_initial_build());
}

#[test]
fn state_with_executables_needs_no_initial_build() {
    let state = AppState { crates: vec![exe("a", "/t/a", 1, false)] };
    assert!(!state.needs_initial_build());
}

#[test]
fn get_executable_returns_first_match() {
    let exes = vec![exe("a", "/one", 1, false), exe("b", "/two", 2, true), exe("b", "/three", 3, false)];
    let found = get_executable(&exes, "b").unwrap();
    assert_eq!(found.path, "/two");
    assert_eq!(found.time, 2);
    assert!(found.need_update);
}

#[test]
fn get_executable_missing_name_is_none() {
    let exes = vec![exe("a", "/one", 1, false)];
    assert!(get_executable(&exes, "c").is_none());
    assert!(get_executable(&Vec::new(), "a").is_none());
}

#[test]
fn recording_new_artifact_appends_it_needing_update() {
    let mut state = AppState::default();
    state.record_artifact(&artifact("app", "/w/target/debug/app", 10));
    assert_eq!(state.crates.len(), 1);
    let e = &state.crates[0];
    assert_eq!(e.name, "app");
    assert_eq!(e.path, "/w/target/debug/app");
    assert_eq!(e.time, 10);
    assert_eq!(e.hash, 10 ^ 0xabcd);
    assert!(e.need_update);
}

#[test]
fn recording_newer_artifact_updates_in_place() {
    let mut state = AppState { crates: vec![exe("a", "/old/a", 5, false), exe("b", "/old/b", 5, false)] };
    state.record_artifact(&artifact("b", "/new/b", 7));
    assert_eq!(state.crates.len(), 2);
    assert_eq!(state.crates[1].path, "/new/b");
    assert_eq!(state.crates[1].time, 7);
    assert_eq!(state.crates[1].hash, 7 ^ 0xabcd);
    assert_eq!(state.crates[0].hash, 1);
    assert!(state.crates[1].need_update);
    assert_eq!(state.crates[0].path, "/old/a");
    assert!(!state.crates[0].need_update);
}

#[test]
fn recording_same_or_older_artifact_clears_need_update() {
    let mut state = AppState { crates: vec![exe("a", "/old/a", 5, true)] };
    state.record_artifact(&artifact("a", "/new/a", 5));
    assert!(!state.crates[0].need_update);
    assert_eq!(state.crates[0].path, "/new/a");
    state.record_artifact(&artifact("a", "/new/a", 3));
    assert!(!state.crates[0].need_update);
    assert_eq!(state.crates[0].time, 3);
}

#[test]
fn recording_twice_marks_up_to_date() {
    let mut state = AppState::default();
    let a = artifact("app", "/p/app", 42);
    state.record_artifact(&a);
    state.record_artifact(&a);
    assert_eq!(state.crates.len(), 1);
    assert!(!state.crates[0].need_update);
    assert_eq!(state.crates[0].time, 42);
}

#[test]
fn recording_updates_only_first_of_duplicate_names() {
    let mut state = AppState { crates: vec![exe("d", "/1", 1, false), exe("d", "/2", 1, false)] };
    state.record_artifact(&artifact("d", "/3", 9));
    assert_eq!(state.crates[0].path, "/3");
    assert_eq!(state.crates[1].path, "/2");
}

#[test]
fn recording_a_build_in_order() {
    let mut state = AppState { crates: vec![exe("a", "/a", 1, false)] };
    let build = vec![artifact("b", "/b", 2), artifact("a", "/a", 3), artifact("c", "/c", -4)];
    state.record_artifacts(&build);
    let names: Vec<&str> = state.crates.iter().map(|e| e.name.as_str()).collect();
    assert_eq!(names, vec!["a", "b", "c"]);
    assert!(state.crates.iter().all(|e| e.need_update));
    assert_eq!(state.crates[2].time, -4);
}

#[test]
fn replacing_the_catalogue_drops_old_entries() {
    let mut state = AppState { crates: vec![exe("old", "/old", 1, false)] };
    state.replace_all(&vec![artifact("x", "/x", 1)]);
    assert_eq!(state.crates.len(), 1);
    assert_eq!(state.crates[0].name, "x");
    assert!(state.crates[0].need_update);
}

#[test]
fn clone_keeps_every_field() {
    let mut e = exe("n", "/p", -7, true);
    e.hash = 99;
    let c = e.clone();
    assert_eq!(c.hash, 99);
    assert_eq!(c.name, "n");
    assert_eq!(c.path, "/p");
    assert_eq!(c.time, -7);
    assert!(c.need_update);
}

#[test]
fn exec_permission_bits() {
    assert!(has_exec_permission(0o755));
    assert!(has_exec_permission(0o100));
    assert!(has_exec_permission(0o010));
    assert!(has_exec_permission(0o001));
    assert!(!has_exec_permission(0o644));
    assert!(!has_exec_permission(0));
}

#[test]
fn build_artifact_needs_file_and_exec_bits() {
    assert!(is_build_artifact(true, Some(0o755)));
    assert!(!is_build_artifact(false, Some(0o755)));
    assert!(!is_build_artifact(true, Some(0o644)));
    assert!(!is_build_artifact(true, None));
}

#[test]
fn exe_extension_by_name() {
    assert!(has_exe_extension("app.exe"));
    assert!(has_exe_extension("a.b.exe"));
    assert!(has_exe_extension("..exe"));
    assert!(has_exe_extension("ação.exe"));
    assert!(!has_exe_extension(".exe"));
    assert!(!has_exe_extension("exe"));
    assert!(!has_exe_extension("app.EXE"));
    assert!(!has_exe_extension("app.exe.txt"));
    assert!(!has_exe_extension(""));
}
