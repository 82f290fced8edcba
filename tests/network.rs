use atm::manifest::{filter_topics, get_arch_name, TopicManifest, UnknownArchitecture};
use atm::mirror::{
    get_sensible_mirror_url, manifest_url_for, plan_mirror_probe, settle_mirror, MirrorChoice,
    DEFAULT_REPO_URL,
};

fn topic(name: &str, arch: &[&str]) -> TopicManifest {
    TopicManifest {
        enabled: false,
        closed: false,
        name: name.to_string(),
        description: None,
        date: 0,
        arch: arch.iter().map(|a| a.to_string()).collect(),
        packages: vec![],
    }
}

#[test]
fn test_filter() {
    get_arch_name("x86_64").unwrap();
    let topics = vec![topic("test", &["all"]), topic("test2", &["not"])];
    assert_eq!(
        filter_topics(topics, "x86_64").unwrap().len(),
        1
    );
}

#[test]
fn arch_names_map_to_feed_tags() {
    assert_eq!(get_arch_name("x86_64"), Some("amd64"));
    assert_eq!(get_arch_name("x86"), Some("i486"));
    assert_eq!(get_arch_name("aarch64"), Some("arm64"));
    assert_eq!(get_arch_name("powerpc64"), Some("ppc64el"));
    assert_eq!(get_arch_name("mips64"), Some("loongson3"));
    assert_eq!(get_arch_name("riscv64"), Some("riscv64"));
    assert_eq!(get_arch_name("loongarch64"), Some("loongarch64"));
    assert_eq!(get_arch_name("sparc64"), None);
}

#[test]
fn filter_keeps_all_and_own_arch_in_order() {
    let topics = vec![
        topic("a", &["amd64"]),
        topic("b", &["arm64"]),
        topic("c", &["all"]),
        topic("d", &["arm64", "amd64"]),
        topic("e", &[]),
    ];
    let kept = filter_topics(topics, "x86_64").unwrap();
    let names: Vec<&str> = kept.iter().map(|t| t.name.as_str()).collect();
    assert_eq!(names, vec!["a", "c", "d"]);
}

#[test]
fn filter_fails_on_unknown_arch() {
    let topics = vec![topic("a", &["all"])];
    assert!(matches!(
        filter_topics(topics, "sparc64"),
        Err(UnknownArchitecture)
    ));
}

#[test]
fn sensible_mirror_is_first_or_default() {
    assert_eq!(get_sensible_mirror_url(&vec![]), DEFAULT_REPO_URL);
    let mirrors = vec!["https://a.example/".to_string(), "https://b.example/".to_string()];
    assert_eq!(get_sensible_mirror_url(&mirrors), "https://a.example/");
}

#[test]
fn manifest_url_joins_path() {
    assert_eq!(
        manifest_url_for("https://repo.aosc.io").as_deref(),
        Some("https://repo.aosc.io/debs/manifest/topics.json")
    );
    assert_eq!(
        manifest_url_for("https://m.example/aosc/").as_deref(),
        Some("https://m.example/aosc/debs/manifest/topics.json")
    );
    assert_eq!(manifest_url_for("not a url"), None);
}

#[test]
fn probe_skipped_below_two_mirrors() {
    match plan_mirror_probe(&vec![]) {
        MirrorChoice::Use(u) => assert_eq!(u, DEFAULT_REPO_URL),
        MirrorChoice::Race(_) => panic!("no race expected"),
    }
    match plan_mirror_probe(&vec!["https://only.example/".to_string()]) {
        MirrorChoice::Use(u) => assert_eq!(u, "https://only.example/"),
        MirrorChoice::Race(_) => panic!("no race expected"),
    }
}

#[test]
fn probe_races_parsable_mirrors() {
    let mirrors = vec![
        "https://a.example/".to_string(),
        "bogus".to_string(),
        "https://b.example/x/".to_string(),
    ];
    match plan_mirror_probe(&mirrors) {
        MirrorChoice::Race(p) => assert_eq!(
            p,
            vec![
                (
                    "https://a.example/".to_string(),
                    "https://a.example/debs/manifest/topics.json".to_string()
                ),
                (
                    "https://b.example/x/".to_string(),
                    "https://b.example/x/debs/manifest/topics.json".to_string()
                ),
            ]
        ),
        MirrorChoice::Use(_) => panic!("race expected"),
    }
    match plan_mirror_probe(&vec!["bogus".to_string(), "also bogus".to_string()]) {
        MirrorChoice::Use(u) => assert_eq!(u, DEFAULT_REPO_URL),
        MirrorChoice::Race(_) => panic!("no race expected"),
    }
}

#[test]
fn failed_race_falls_back_to_default() {
    assert_eq!(settle_mirror(None), DEFAULT_REPO_URL);
    assert_eq!(
        settle_mirror(Some("https://w.example/".to_string())),
        "https://w.example/"
    );
}
