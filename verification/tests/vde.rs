use openqa_worker_mgmt::openqa_vde::{
    arch_or_default_of, get_vde_switches_to_stop, vde_instance_name, vde_switch_escaped_name,
    vde_unit_name,
};

fn strings(items: &[&str]) -> Vec<String> {
    items.iter().map(|s| s.to_string()).collect()
}

#[test]
fn vde_instance_name_defaults_to_x86_64() {
    assert_eq!(vde_instance_name("build-1", None), "build-1#x86_64");
    assert_eq!(vde_instance_name("build-1", Some("aarch64")), "build-1#aarch64");
    assert_eq!(arch_or_default_of(None), "x86_64");
    assert_eq!(arch_or_default_of(Some("s390x")), "s390x");
}

#[test]
fn vde_unit_name_prefixes_the_escaped_name() {
    assert_eq!(vde_unit_name("b\\x23x86_64"), "openqa-vde-switch@b\\x23x86_64");
}

#[test]
fn vde_switch_escaped_name_strips_prefix_and_suffix() {
    assert_eq!(
        vde_switch_escaped_name("openqa-vde-switch@b\\x23x86_64.service"),
        Some("b\\x23x86_64".to_string())
    );
    assert_eq!(vde_switch_escaped_name("openqa-vde-switch@.service"), Some(String::new()));
    assert_eq!(vde_switch_escaped_name("openqa-worker@1.service"), None);
    assert_eq!(vde_switch_escaped_name("openqa-vde-switch@x.socket"), None);
    assert_eq!(vde_switch_escaped_name("openqa-vde-switch@"), None);
    assert_eq!(vde_switch_escaped_name(""), None);
}

#[test]
fn vde_unit_name_round_trip() {
    let unit_file = vde_unit_name("ü#λ") + ".service";
    assert_eq!(vde_switch_escaped_name(&unit_file), Some("ü#λ".to_string()));
}

#[test]
fn switches_of_stopped_builds_are_stopped() {
    let switches = strings(&["b1#x86_64", "b2#x86_64", "b1#aarch64", "b3"]);
    let stop = strings(&["b1", "b3"]);
    assert_eq!(
        get_vde_switches_to_stop(&switches, &stop),
        strings(&["b1#x86_64", "b1#aarch64", "b3"])
    );
}

#[test]
fn switches_are_repeated_for_repeated_builds() {
    let switches = strings(&["b1#x86_64", "b2#x86_64"]);
    let stop = strings(&["b1", "b2", "b1"]);
    assert_eq!(
        get_vde_switches_to_stop(&switches, &stop),
        strings(&["b1#x86_64", "b1#x86_64", "b2#x86_64"])
    );
}

#[test]
fn no_switch_is_stopped_without_builds_to_stop() {
    let switches = strings(&["b1#x86_64"]);
    assert_eq!(get_vde_switches_to_stop(&switches, &Vec::new()), Vec::<String>::new());
}
