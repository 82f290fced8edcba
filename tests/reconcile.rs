use atm::manifest::TopicManifest;
use atm::reconcile::{
    close_topics, get_display_listing, make_topic_list, normalize_url, previous_topics_of,
    render_source_list, PreviousTopic,
};

fn fresh(name: &str, enabled: bool) -> TopicManifest {
    TopicManifest {
        enabled,
        closed: false,
        name: name.to_string(),
        description: Some(format!("about {}", name)),
        date: 100,
        arch: vec!["all".to_string()],
        packages: vec![format!("{}-pkg", name)],
    }
}

fn previous(name: &str) -> PreviousTopic {
    PreviousTopic {
        name: name.to_string(),
        description: None,
        date: 42,
        packages: vec!["libfoo".to_string(), "libbar".to_string()],
    }
}

fn flags(list: &[TopicManifest]) -> Vec<(String, bool, bool)> {
    list.iter()
        .map(|t| (t.name.clone(), t.enabled, t.closed))
        .collect()
}

#[test]
fn scenario_enrolled_topic_is_enabled() {
    let out = get_display_listing(
        vec![fresh("x", false), fresh("y", false)],
        vec![previous("x")],
    );
    assert_eq!(
        flags(&out),
        vec![("x".to_string(), true, false), ("y".to_string(), false, false)]
    );
    // fresh metadata wins
    assert_eq!(out[0].date, 100);
    assert_eq!(out[0].arch, vec!["all".to_string()]);
}

#[test]
fn scenario_missing_enrolled_topic_is_closed() {
    let out = get_display_listing(
        vec![fresh("a", false), fresh("b", true)],
        vec![previous("z")],
    );
    assert_eq!(
        flags(&out),
        vec![
            ("z".to_string(), false, true),
            ("a".to_string(), false, false),
            ("b".to_string(), true, false)
        ]
    );
    let z = &out[0];
    assert_eq!(z.date, 42);
    assert_eq!(z.description, None);
    assert!(z.arch.is_empty());
    assert_eq!(z.packages, vec!["libfoo".to_string(), "libbar".to_string()]);
    assert_eq!(out[1].description.as_deref(), Some("about a"));
    assert_eq!(out[1].packages, vec!["a-pkg".to_string()]);
}

#[test]
fn closed_topic_appears_once() {
    let out = get_display_listing(
        vec![fresh("a", false)],
        vec![previous("z"), previous("a"), previous("w")],
    );
    assert_eq!(out.iter().filter(|t| t.name == "z").count(), 1);
    assert_eq!(out.iter().filter(|t| t.name == "w").count(), 1);
    assert_eq!(
        flags(&out),
        vec![
            ("z".to_string(), false, true),
            ("w".to_string(), false, true),
            ("a".to_string(), true, false)
        ]
    );
}

#[test]
fn reconciling_twice_gives_same_flags() {
    let run = || {
        get_display_listing(
            vec![fresh("x", false), fresh("y", false)],
            vec![previous("x"), previous("gone")],
        )
    };
    assert_eq!(flags(&run()), flags(&run()));
}

#[test]
fn duplicate_fresh_names_keep_the_last() {
    let mut second = fresh("x", false);
    second.date = 7;
    let out = get_display_listing(vec![fresh("x", false), fresh("y", false), second], vec![]);
    assert_eq!(
        flags(&out),
        vec![("y".to_string(), false, false), ("x".to_string(), false, false)]
    );
    assert_eq!(out[1].date, 7);
}

#[test]
fn empty_baseline_and_fresh() {
    assert!(get_display_listing(vec![], vec![]).is_empty());
}

#[test]
fn close_topics_keeps_installed_packages() {
    let mut a = fresh("a", false);
    a.packages = vec!["x".to_string(), "y".to_string(), "z".to_string()];
    let mut b = fresh("b", false);
    b.packages = vec!["z".to_string(), "w".to_string()];
    let installed = vec!["z".to_string(), "x".to_string()];
    assert_eq!(
        close_topics(&[a, b], &installed),
        vec!["x".to_string(), "z".to_string(), "z".to_string()]
    );
}

#[test]
fn baseline_holds_enabled_topics() {
    let prev = previous_topics_of(&[fresh("a", true), fresh("b", false), fresh("c", true)]);
    let names: Vec<&str> = prev.iter().map(|p| p.name.as_str()).collect();
    assert_eq!(names, vec!["a", "c"]);
    assert_eq!(prev[0].description.as_deref(), Some("about a"));
    assert_eq!(prev[0].date, 100);
    assert_eq!(prev[0].packages, vec!["a-pkg".to_string()]);
}

#[test]
fn url_gets_one_trailing_slash() {
    assert_eq!(normalize_url("https://repo.aosc.io"), "https://repo.aosc.io/");
    assert_eq!(normalize_url("https://repo.aosc.io/"), "https://repo.aosc.io/");
    assert_eq!(normalize_url(""), "/");
}

#[test]
fn topic_list_has_stanza_per_enabled_topic() {
    let list = make_topic_list(
        &[fresh("t1", true), fresh("t2", false), fresh("t3", true)],
        "https://repo.aosc.io",
    );
    assert_eq!(
        list,
        "# Topic `t1`\ndeb https://repo.aosc.io/debs t1 main\n# Topic `t3`\ndeb https://repo.aosc.io/debs t3 main\n"
    );
}

#[test]
fn source_list_starts_with_header() {
    let text = render_source_list(&[fresh("t1", true)], "https://m.example/");
    assert_eq!(
        text,
        "# Generated by AOSC Topic Manager. DO NOT EDIT THIS FILE!\n# Topic `t1`\ndeb https://m.example/debs t1 main\n"
    );
    assert_eq!(
        render_source_list(&[], "https://m.example/"),
        "# Generated by AOSC Topic Manager. DO NOT EDIT THIS FILE!\n"
    );
}
