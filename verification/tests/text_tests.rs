use felloe::{
    archive_file_name, archive_url, digest_url, release_url, releases_list_url, sort_strings,
    str_has_exec, str_le_exec, usize_to_string, DOWNLOAD_BASE, RELEASES_API,
};

#[test]
fn lexicographic_order_on_tags() {
    assert!(str_le_exec("v2.16.0", "v3.0.0"));
    assert!(!str_le_exec("v3.0.0", "v2.16.0"));
    assert!(str_le_exec("v3.0.0", "v3.0.0"));
    assert!(str_le_exec("", "v1"));
    assert!(str_le_exec("v3.0", "v3.0.0"));
}

#[test]
fn substring_containment() {
    assert!(str_has_exec("v2.16.0", "v2"));
    assert!(str_has_exec("v2.16.0", ""));
    assert!(str_has_exec("v2.16.0", "16.0"));
    assert!(!str_has_exec("v3.0.0", "v2"));
    assert!(!str_has_exec("v2", "v2.16.0"));
}

#[test]
fn decimal_rendering() {
    assert_eq!(usize_to_string(0), "0");
    assert_eq!(usize_to_string(7), "7");
    assert_eq!(usize_to_string(25), "25");
    assert_eq!(usize_to_string(1052), "1052");
}

#[test]
fn sorting_tags_ascending() {
    let v = vec![
        String::from("v3.2.1"),
        String::from("v2.16.0"),
        String::from("v3.0.0"),
        String::from("v2.16.0"),
    ];
    assert_eq!(
        sort_strings(v),
        vec![
            String::from("v2.16.0"),
            String::from("v2.16.0"),
            String::from("v3.0.0"),
            String::from("v3.2.1"),
        ]
    );
}

#[test]
fn listing_url_carries_the_count() {
    assert_eq!(
        releases_list_url(25),
        format!("{}?per_page=25", RELEASES_API)
    );
}

#[test]
fn release_urls_for_latest_and_for_a_tag() {
    assert_eq!(release_url("latest"), format!("{}/latest", RELEASES_API));
    assert_eq!(
        release_url("v3.2.1"),
        format!("{}/tags/v3.2.1", RELEASES_API)
    );
}

#[test]
fn archive_name_and_urls() {
    assert_eq!(
        archive_file_name("v3.2.1", "linux", "amd64"),
        "helm-v3.2.1-linux-amd64.tar.gz"
    );
    let url = archive_url("v3.2.1", "linux", "amd64");
    assert_eq!(
        url,
        format!("{}/helm-v3.2.1-linux-amd64.tar.gz", DOWNLOAD_BASE)
    );
    assert_eq!(
        digest_url(&url),
        format!("{}/helm-v3.2.1-linux-amd64.tar.gz.sha256", DOWNLOAD_BASE)
    );
}
