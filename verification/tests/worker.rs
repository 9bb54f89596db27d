use openqa_worker_mgmt::openqa_worker::{
    get_workers_to_stop, instance_number_is_available, pick_instance_number, worker_escaped_name,
    worker_instance_name, worker_start_plan, worker_unit_name,
};

fn strings(items: &[&str]) -> Vec<String> {
    items.iter().map(|s| s.to_string()).collect()
}

#[test]
fn instance_number_is_available_compares_first_fields() {
    let workers = strings(&["1#b1#x86_64", "12#b2#x86_64", "3"]);
    assert!(!instance_number_is_available("1".to_string(), &workers));
    assert!(!instance_number_is_available("3".to_string(), &workers));
    assert!(instance_number_is_available("2".to_string(), &workers));
    assert!(instance_number_is_available("b1".to_string(), &workers));
    assert!(instance_number_is_available("1".to_string(), &Vec::new()));
}

#[test]
fn pick_instance_number_takes_the_first_free_number() {
    let workers = strings(&["1#b1#x86_64", "2#b1#x86_64", "4#b2#x86_64"]);
    assert_eq!(pick_instance_number(None, &workers), Some(3));
    assert_eq!(pick_instance_number(Some(&2), &workers), Some(3));
    assert_eq!(pick_instance_number(Some(&4), &workers), Some(5));
    assert_eq!(pick_instance_number(Some(&7), &workers), Some(7));
    assert_eq!(pick_instance_number(None, &Vec::new()), Some(1));
}

#[test]
fn pick_instance_number_handles_negative_numbers() {
    let workers = strings(&["-2#b#x86_64"]);
    assert_eq!(pick_instance_number(Some(&-2), &workers), Some(-1));
}

#[test]
fn pick_instance_number_gives_up_at_the_largest_number() {
    let workers = strings(&["2147483647#b#x86_64"]);
    assert_eq!(pick_instance_number(Some(&i32::MAX), &workers), None);
    assert_eq!(pick_instance_number(Some(&(i32::MAX - 1)), &workers), Some(i32::MAX - 1));
}

#[test]
fn worker_instance_name_joins_number_build_and_arch() {
    assert_eq!(worker_instance_name(12, Some("b1"), None), "12#b1#x86_64");
    assert_eq!(worker_instance_name(-3, None, Some("aarch64")), "-3##aarch64");
    assert_eq!(worker_instance_name(0, None, None), "0##x86_64");
    assert_eq!(
        worker_instance_name(i32::MIN, Some("b"), None),
        "-2147483648#b#x86_64"
    );
}

#[test]
fn started_worker_number_is_taken() {
    let mut workers = strings(&["1#b1#x86_64"]);
    let n = pick_instance_number(None, &workers).unwrap();
    assert_eq!(n, 2);
    workers.push(worker_instance_name(n, Some("b2"), None));
    assert!(!instance_number_is_available(n.to_string(), &workers));
    assert_eq!(pick_instance_number(None, &workers), Some(3));
}

#[test]
fn worker_unit_names_round_trip() {
    assert_eq!(worker_unit_name("12\\x23b"), "openqa-worker@12\\x23b");
    let unit_file = worker_unit_name("12\\x23b") + ".service";
    assert_eq!(worker_escaped_name(&unit_file), Some("12\\x23b".to_string()));
    assert_eq!(worker_escaped_name("openqa-vde-switch@x.service"), None);
    assert_eq!(worker_escaped_name("openqa-worker@x.timer"), None);
}

#[test]
fn workers_of_stopped_builds_are_stopped() {
    let workers = strings(&["1#b1#x86_64", "2#b2#x86_64", "3##x86_64", "4#b1#aarch64"]);
    let stop = strings(&["b1", ""]);
    assert_eq!(
        get_workers_to_stop(&workers, &stop),
        strings(&["1#b1#x86_64", "4#b1#aarch64"])
    );
}

#[test]
fn workers_are_repeated_for_repeated_builds() {
    let workers = strings(&["1#b1#x86_64"]);
    let stop = strings(&["b1", "b1"]);
    assert_eq!(
        get_workers_to_stop(&workers, &stop),
        strings(&["1#b1#x86_64", "1#b1#x86_64"])
    );
}

#[test]
fn pick_instance_number_stays_within_the_number_of_workers() {
    let workers = strings(&["1#b#x86_64", "2#b#x86_64", "3#b#x86_64", "1#c#x86_64"]);
    let n = pick_instance_number(None, &workers).unwrap();
    assert_eq!(n, 4);
    assert!(n <= 1 + workers.len() as i32);
}

#[test]
fn worker_start_plan_gives_two_numbers_per_build() {
    let builds = strings(&["b1", "b2"]);
    assert_eq!(
        worker_start_plan(&builds),
        vec![
            (2, "b1".to_string()),
            (3, "b1".to_string()),
            (4, "b2".to_string()),
            (5, "b2".to_string()),
        ]
    );
    assert_eq!(worker_start_plan(&Vec::new()), Vec::<(i32, String)>::new());
}
