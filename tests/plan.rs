use atm::pk::{humanize_package_id, parse_package_id, PkPackage, PkPackgeId};
use atm::plan::{find_stable_version_of, get_task_details, PlanError};

fn pkg(info: u32, id: &str) -> PkPackage {
    PkPackage {
        info,
        package_id: id.to_string(),
        summary: String::new(),
    }
}

fn names<'a>(v: &[PkPackgeId<'a>]) -> Vec<&'a str> {
    v.iter().map(|i| i.name).collect()
}

#[test]
fn package_id_has_four_fields() {
    let id = parse_package_id("a;1.0;amd64;aosc-stable-x").unwrap();
    assert_eq!(id.name, "a");
    assert_eq!(id.version, "1.0");
    assert_eq!(id.arch, "amd64");
    assert_eq!(id.data, "aosc-stable-x");
    let empty = parse_package_id(";;;").unwrap();
    assert_eq!((empty.name, empty.version, empty.arch, empty.data), ("", "", "", ""));
}

#[test]
fn package_id_other_field_counts_fail() {
    assert!(parse_package_id("").is_none());
    assert!(parse_package_id("a").is_none());
    assert!(parse_package_id("a;1;amd64").is_none());
    assert!(parse_package_id("a;1;amd64;x;y").is_none());
}

#[test]
fn humanized_package_id() {
    assert_eq!(humanize_package_id("bash;5.2;amd64;aosc"), "bash (5.2) [amd64]");
    assert_eq!(humanize_package_id("bash;5.2"), "? (?)");
}

#[test]
fn scenario_classification() {
    let meta = vec![
        pkg(12, "a;1;amd64;x"),
        pkg(11, "b;2;amd64;y"),
        pkg(13, "c;3;amd64;z"),
    ];
    let tasks = get_task_details(&[], &meta).unwrap();
    assert!(tasks.hold.is_empty());
    assert!(tasks.downgrade.is_empty());
    assert_eq!(tasks.install.len(), 1);
    assert_eq!((tasks.install[0].name, tasks.install[0].version), ("a", "1"));
    assert_eq!(tasks.upgrade.len(), 1);
    assert_eq!((tasks.upgrade[0].name, tasks.upgrade[0].version), ("b", "2"));
    assert_eq!(tasks.erase.len(), 1);
    assert_eq!((tasks.erase[0].name, tasks.erase[0].version), ("c", "3"));
}

#[test]
fn classification_is_disjoint_and_drops_unknown_codes() {
    let meta = vec![
        pkg(19, "r;1;amd64;x"),
        pkg(20, "d;1;amd64;x"),
        pkg(2, "n;1;amd64;x"),
        pkg(267, "t;1;amd64;x"),
        pkg(12, "i;1;amd64;x"),
    ];
    let not_found = vec!["held".to_string()];
    let tasks = get_task_details(&not_found, &meta).unwrap();
    assert_eq!(names(&tasks.install), vec!["r", "i"]);
    assert_eq!(names(&tasks.downgrade), vec!["d"]);
    assert!(tasks.upgrade.is_empty());
    assert!(tasks.erase.is_empty());
    assert_eq!(names(&tasks.hold), vec!["held"]);
    assert_eq!(tasks.hold[0].version, "");
    let total = tasks.install.len() + tasks.upgrade.len() + tasks.downgrade.len() + tasks.erase.len();
    assert_eq!(total, 3);
}

#[test]
fn classification_fails_on_malformed_id() {
    let meta = vec![pkg(12, "a;1;amd64;x"), pkg(2, "broken"), pkg(12, "also;bad")];
    match get_task_details(&[], &meta) {
        Err(PlanError::InvalidPackageId(id)) => assert_eq!(id, "broken"),
        Ok(_) => panic!("expected an error"),
    }
}

#[test]
fn stable_resolution() {
    let packages = vec![
        "a".to_string(),
        "b".to_string(),
        "c".to_string(),
        "d".to_string(),
    ];
    let candidates = vec![
        pkg(2, "a;2;amd64;aosc-testing-x"),
        pkg(2, "a;1;amd64;aosc-stable-main"),
        pkg(2, "a;0;amd64;aosc-stable-main"),
        pkg(1, "b;1;amd64;installed:aosc-stable-main"),
        pkg(2, "d;3;amd64;aosc-topic-d"),
    ];
    let (not_found, found) = find_stable_version_of(&packages, &candidates).unwrap();
    assert_eq!(not_found, vec!["c".to_string(), "d".to_string()]);
    assert_eq!(found, vec!["a;1;amd64;aosc-stable-main".to_string()]);
}

#[test]
fn installed_stable_is_neither_found_nor_held() {
    let packages = vec!["b".to_string()];
    let candidates = vec![pkg(1, "b;1;amd64;aosc-stable-main")];
    let (not_found, found) = find_stable_version_of(&packages, &candidates).unwrap();
    assert!(not_found.is_empty());
    assert!(found.is_empty());
}

#[test]
fn stable_resolution_of_nothing() {
    let (not_found, found) = find_stable_version_of(&vec![], &vec![pkg(1, "bad")]).unwrap();
    assert!(not_found.is_empty() && found.is_empty());
}

#[test]
fn stable_resolution_fails_on_malformed_candidate() {
    let packages = vec!["a".to_string()];
    let candidates = vec![pkg(2, "a;1;amd64;aosc-stable-main"), pkg(2, "x;y")];
    match find_stable_version_of(&packages, &candidates) {
        Err(PlanError::InvalidPackageId(id)) => assert_eq!(id, "x;y"),
        Ok(_) => panic!("expected an error"),
    }
}
