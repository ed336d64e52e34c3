use flash::observers_handle::{plan_deliveries, plan_delivery, Delivery, Observer};
use flash::state::{AppState, Artifact, Executable};

fn exe(name: &str, time: i128, need_update: bool) -> Executable {
    Executable { name: name.to_string(), path: format!("/t/{}", name), time, need_update, hash: 0 }
}

fn observer(name: &str, executable: &str, deps: &[&str]) -> Observer {
    Observer {
        name: name.to_string(),
        executable: executable.to_string(),
        deps: deps.iter().map(|d| d.to_string()).collect(),
        url: format!("http://{}", name),
    }
}

#[test]
fn missing_dependency_stops_the_observer() {
    let exes = vec![exe("app", 1, true), exe("lib1", 1, true)];
    match plan_delivery(&exes, &observer("o", "app", &["lib1", "gone", "also_gone"])) {
        Delivery::MissingDependency { observer, dependency } => {
            assert_eq!(observer, "o");
            assert_eq!(dependency, "gone");
        }
        _ => panic!("expected a missing dependency"),
    }
}

#[test]
fn missing_dependency_reported_before_missing_executable() {
    let exes = vec![exe("lib1", 1, true)];
    match plan_delivery(&exes, &observer("o", "nothing", &["gone"])) {
        Delivery::MissingDependency { dependency, .. } => assert_eq!(dependency, "gone"),
        _ => panic!("expected a missing dependency"),
    }
}

#[test]
fn missing_executable_is_reported() {
    let exes = vec![exe("lib1", 1, true)];
    match plan_delivery(&exes, &observer("o", "app", &["lib1"])) {
        Delivery::MissingExecutable { observer, executable } => {
            assert_eq!(observer, "o");
            assert_eq!(executable, "app");
        }
        _ => panic!("expected a missing executable"),
    }
}

#[test]
fn stale_dependencies_and_main_are_uploaded() {
    let exes = vec![exe("app", 1, false), exe("d1", 1, true), exe("d2", 1, false), exe("d3", 1, true)];
    match plan_delivery(&exes, &observer("o", "app", &["d3", "d2", "d1"])) {
        Delivery::Upload { observer, url, deps, main, send_main } => {
            assert_eq!(observer, "o");
            assert_eq!(url, "http://o");
            let names: Vec<&str> = deps.iter().map(|d| d.name.as_str()).collect();
            assert_eq!(names, vec!["d3", "d1"]);
            assert_eq!(main.name, "app");
            assert!(send_main);
        }
        _ => panic!("expected an upload"),
    }
}

#[test]
fn stale_main_alone_is_uploaded() {
    let exes = vec![exe("app", 1, true), exe("d", 1, false)];
    match plan_delivery(&exes, &observer("o", "app", &["d"])) {
        Delivery::Upload { deps, send_main, .. } => {
            assert!(deps.is_empty());
            assert!(send_main);
        }
        _ => panic!("expected an upload"),
    }
}

#[test]
fn up_to_date_observer_is_sent_nothing() {
    let exes = vec![exe("app", 1, false), exe("d", 1, false)];
    match plan_delivery(&exes, &observer("o", "app", &["d"])) {
        Delivery::Upload { deps, send_main, .. } => {
            assert!(deps.is_empty());
            assert!(!send_main);
        }
        _ => panic!("expected an upload"),
    }
}

#[test]
fn rebuilt_executable_is_sent_after_recording() {
    let mut state = AppState { crates: vec![exe("app", 1, false), exe("d", 1, false)] };
    state.record_artifact(&Artifact { name: "app".to_string(), path: "/new/app".to_string(), time: 2, hash: 2 });
    let plans = plan_deliveries(&state, &vec![observer("o", "app", &["d"])]);
    match &plans[0] {
        Delivery::Upload { main, send_main, deps, .. } => {
            assert!(*send_main);
            assert!(deps.is_empty());
            assert_eq!(main.path, "/new/app");
        }
        _ => panic!("expected an upload"),
    }
}

#[test]
fn rebuilt_dependency_is_sent_after_recording() {
    let mut state = AppState { crates: vec![exe("app", 1, false), exe("d", 1, false)] };
    state.record_artifact(&Artifact { name: "d".to_string(), path: "/new/d".to_string(), time: 5, hash: 5 });
    let plans = plan_deliveries(&state, &vec![observer("o", "app", &["d"])]);
    match &plans[0] {
        Delivery::Upload { deps, send_main, .. } => {
            assert_eq!(deps.len(), 1);
            assert_eq!(deps[0].path, "/new/d");
            assert!(*send_main);
        }
        _ => panic!("expected an upload"),
    }
}

#[test]
fn every_observer_gets_a_plan_in_order() {
    let state = AppState { crates: vec![exe("a", 1, true), exe("b", 1, false)] };
    let observers = vec![observer("x", "a", &[]), observer("y", "zz", &[]), observer("z", "b", &["q"])];
    let plans = plan_deliveries(&state, &observers);
    assert_eq!(plans.len(), 3);
    assert!(matches!(plans[0], Delivery::Upload { send_main: true, .. }));
    assert!(matches!(plans[1], Delivery::MissingExecutable { .. }));
    assert!(matches!(plans[2], Delivery::MissingDependency { .. }));
    assert!(plan_deliveries(&state, &Vec::new()).is_empty());
}
