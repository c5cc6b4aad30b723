use felloe::{filter_releases, versions_filter, Release, Releases};

fn release(tag: &str, prerelease: bool) -> Release {
    Release { tag_name: String::from(tag), prerelease }
}

fn tags(rels: &Releases) -> Vec<String> {
    rels.0.iter().map(|r| r.tag_name.clone()).collect()
}

#[test]
fn five_releases_two_prereleases_leave_three() {
    // Five fixture releases, two marked prerelease: listing without
    // prereleases returns exactly the other three, ascending by tag.
    let fixture = Releases(vec![
        release("v3.2.1", false),
        release("v3.3.0-rc.1", true),
        release("v2.16.0", false),
        release("v3.0.0-beta.3", true),
        release("v3.0.0", false),
    ]);
    let out = filter_releases(fixture, false);
    assert_eq!(
        tags(&out),
        vec![
            String::from("v2.16.0"),
            String::from("v3.0.0"),
            String::from("v3.2.1"),
        ]
    );
}

#[test]
fn including_prereleases_keeps_all_five() {
    let fixture = Releases(vec![
        release("v3.2.1", false),
        release("v3.3.0-rc.1", true),
        release("v2.16.0", false),
        release("v3.0.0-beta.3", true),
        release("v3.0.0", false),
    ]);
    let out = filter_releases(fixture, true);
    assert_eq!(
        tags(&out),
        vec![
            String::from("v2.16.0"),
            String::from("v3.0.0"),
            String::from("v3.0.0-beta.3"),
            String::from("v3.2.1"),
            String::from("v3.3.0-rc.1"),
        ]
    );
}

#[test]
fn filtering_by_contained_string_keeps_order() {
    // Non-prerelease releases whose tag contains the filter, ascending.
    let fixture = Releases(vec![
        release("v3.2.1", false),
        release("v2.16.1-rc.1", true),
        release("v2.16.0", false),
        release("v3.0.0", false),
        release("v2.14.3", false),
    ]);
    let sorted = filter_releases(fixture, false);
    let out = versions_filter(&sorted, "v2");
    assert_eq!(out, vec![String::from("v2.14.3"), String::from("v2.16.0")]);
}

#[test]
fn empty_filter_matches_every_tag() {
    let fixture = Releases(vec![release("v3.0.0", false), release("v2.0.0", false)]);
    let sorted = filter_releases(fixture, false);
    let out = versions_filter(&sorted, "");
    assert_eq!(out, vec![String::from("v2.0.0"), String::from("v3.0.0")]);
}

#[test]
fn filter_without_match_is_empty() {
    let fixture = Releases(vec![release("v3.0.0", false)]);
    let sorted = filter_releases(fixture, false);
    let out = versions_filter(&sorted, "v9");
    assert!(out.is_empty());
}

#[test]
fn duplicate_tags_keep_their_multiplicity() {
    let fixture = Releases(vec![
        release("v1.0.0", false),
        release("v1.0.0", false),
        release("v0.9.0", false),
    ]);
    let out = filter_releases(fixture, false);
    assert_eq!(
        tags(&out),
        vec![
            String::from("v0.9.0"),
            String::from("v1.0.0"),
            String::from("v1.0.0"),
        ]
    );
}
