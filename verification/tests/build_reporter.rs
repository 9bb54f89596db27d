use openqa_worker_mgmt::openqa_build_reporter::{
    contains_name, get_builds_to_keep, get_builds_to_start, get_builds_to_stop,
    get_current_worker_builds, unique_builds,
};

fn strings(items: &[&str]) -> Vec<String> {
    items.iter().map(|s| s.to_string()).collect()
}

#[test]
fn unique_builds_keeps_first_occurrences_in_order() {
    let lines = strings(&["b2", "b1", "b2", "b3", "b1"]);
    assert_eq!(unique_builds(&lines), strings(&["b2", "b1", "b3"]));
}

#[test]
fn unique_builds_of_nothing_is_nothing() {
    assert_eq!(unique_builds(&Vec::new()), Vec::<String>::new());
}

#[test]
fn unique_builds_twice_is_once() {
    let lines = strings(&["x", "y", "x", "", "", "y"]);
    let once = unique_builds(&lines);
    assert_eq!(unique_builds(&once), once);
    assert_eq!(once, strings(&["x", "y", ""]));
}

#[test]
fn contains_name_finds_only_equal_strings() {
    let v = strings(&["abc", "ab"]);
    assert!(contains_name(&v, &"ab".to_string()));
    assert!(!contains_name(&v, &"a".to_string()));
}

#[test]
fn builds_to_keep_are_scheduled_then_running() {
    let scheduled = strings(&["s1", "s2"]);
    let running = strings(&["r1", "s1"]);
    assert_eq!(
        get_builds_to_keep(&scheduled, &running),
        strings(&["s1", "s2", "r1", "s1"])
    );
}

#[test]
fn current_worker_builds_are_second_fields() {
    let workers = strings(&[
        "1#build-a#x86_64",
        "2#build-a#x86_64",
        "3##x86_64",
        "4",
        "5#build-b",
        "6#build-c#aarch64#extra",
    ]);
    assert_eq!(
        get_current_worker_builds(&workers),
        strings(&["build-a", "build-b", "build-c"])
    );
}

#[test]
fn builds_to_stop_are_current_builds_not_kept() {
    let current = strings(&["b1", "b2", "b3"]);
    let keep = strings(&["b2", "b4"]);
    let stop = get_builds_to_stop(&current, &keep);
    assert_eq!(stop, strings(&["b1", "b3"]));
    for b in &current {
        assert!(stop.contains(b) != keep.contains(b));
    }
}

#[test]
fn builds_to_start_are_scheduled_builds_without_workers() {
    let scheduled = strings(&["b1", "b2", "b5"]);
    let current = strings(&["b2", "b3"]);
    assert_eq!(get_builds_to_start(&scheduled, &current), strings(&["b1", "b5"]));
}

#[test]
fn nothing_is_stopped_when_everything_is_kept() {
    let current = strings(&["b1", "b2"]);
    assert_eq!(get_builds_to_stop(&current, &current), Vec::<String>::new());
}
