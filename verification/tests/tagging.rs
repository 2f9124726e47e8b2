use aether::platform::ShellKind;
use aether::tags::{
    add_own_tags, build_worker_tags, has_all_tags, normalize_tags, worker_id_for_task,
    worker_identity_tag,
};

fn strings(list: &[&str]) -> Vec<String> {
    list.iter().map(|s| s.to_string()).collect()
}

#[test]
fn tags_are_normalized() {
    let tags = strings(&[" Linux ", "GPU", "gpu", "", "  ", "Ágil"]);
    let normalized = normalize_tags(tags.clone());
    assert_eq!(normalized, strings(&["gpu", "linux", "ágil"]));
    assert_eq!(normalize_tags(normalized.clone()), normalized);
    let mut reversed = tags;
    reversed.reverse();
    assert_eq!(normalize_tags(reversed), normalized);
}

#[test]
fn worker_names_are_made_safe() {
    assert_eq!(worker_id_for_task("Ryzen Local_01-x"), "ryzen-local_01-x");
    assert_eq!(worker_id_for_task("máquina.é"), "m-quina--");
    assert_eq!(worker_identity_tag("Lab 1"), "worker:lab-1");
    let safe = worker_id_for_task("A/B");
    assert_eq!(worker_id_for_task(&safe), safe);
}

#[test]
fn worker_tags_hold_given_and_own_tags() {
    let tags = build_worker_tags(
        strings(&["Ryzen", "linux", ""]),
        "Ryzen-LOCAL",
        "linux",
        ShellKind::Sh,
    );
    assert_eq!(tags, strings(&["linux", "local", "ryzen", "sh", "worker:ryzen-local"]));
    let tags = build_worker_tags(Vec::new(), "lab", "windows", ShellKind::PowerShell);
    assert_eq!(tags, strings(&["powershell", "windows", "worker:lab"]));
}

#[test]
fn own_tags_follow_the_lowered_name() {
    let tags = add_own_tags(strings(&["a"]), "X", "my-local-x", "macos", ShellKind::Sh);
    assert_eq!(tags, strings(&["a", "local", "macos", "sh", "worker:x"]));
    let tags = add_own_tags(strings(&["a"]), "LOCAL", "other", "macos", ShellKind::Sh);
    assert_eq!(tags, strings(&["a", "macos", "sh", "worker:local"]));
}

#[test]
fn required_tags_must_all_be_carried() {
    let carried = strings(&["linux", "GPU"]);
    assert!(has_all_tags(&carried, &[]));
    assert!(has_all_tags(&carried, &strings(&["gpu", "LINUX"])));
    assert!(!has_all_tags(&carried, &strings(&["gpu", "windows"])));
    assert!(!has_all_tags(&[], &strings(&["gpu"])));
}

#[test]
fn identity_tag_reaches_its_worker() {
    let tags = build_worker_tags(strings(&["x"]), "Lab 7", "linux", ShellKind::Sh);
    assert!(has_all_tags(&tags, &[worker_identity_tag("Lab 7")]));
    assert!(!has_all_tags(&tags, &[worker_identity_tag("Lab 8")]));
    assert!(has_all_tags(&tags, &normalize_tags(strings(&[" X "]))));
}
