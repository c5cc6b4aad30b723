use felloe::{Error, Store};

fn linux_store() -> Store {
    Store::new(
        String::from("linux-amd64"),
        String::from("helm"),
        String::from("tiller"),
    )
}

fn comps(parts: &[&str]) -> Vec<String> {
    parts.iter().map(|p| String::from(*p)).collect()
}

#[test]
fn empty_store_has_no_active_version() {
    let s = linux_store();
    assert_eq!(s.get_active(), Err(Error::NoActiveVersion));
}

#[test]
fn broken_link_is_reported_not_followed() {
    let mut s = linux_store();
    s.primary_link = Some(comps(&["helm"]));
    assert_eq!(s.get_active(), Err(Error::BrokenLink));
}

#[test]
fn activate_requires_cached_version() {
    let mut s = linux_store();
    assert_eq!(s.activate("v3.2.1"), Err(Error::Link));
    assert_eq!(s.primary_link, None);
    assert_eq!(s.auxiliary_link, None);
}

#[test]
fn activate_requires_primary_executable() {
    let mut s = linux_store();
    s.record_install("v3.2.1", false, true);
    assert_eq!(s.activate("v3.2.1"), Err(Error::Link));
    assert_eq!(s.primary_link, None);
}

#[test]
fn activate_writes_both_links() {
    // cache/v3.2.1/linux-amd64/{primary,auxiliary} present: activation makes
    // the primary link and the auxiliary link point into that subtree.
    let mut s = linux_store();
    s.record_install("v3.2.1", true, true);
    assert_eq!(s.activate("v3.2.1"), Ok(false));
    assert_eq!(s.primary_link, Some(comps(&["v3.2.1", "linux-amd64", "helm"])));
    assert_eq!(
        s.auxiliary_link,
        Some(comps(&["v3.2.1", "linux-amd64", "tiller"]))
    );
}

#[test]
fn activate_then_get_active_round_trips() {
    let mut s = linux_store();
    s.record_install("v2.16.0", true, true);
    s.record_install("v3.2.1", true, false);
    assert_eq!(s.activate("v2.16.0"), Ok(false));
    assert_eq!(s.get_active(), Ok(String::from("v2.16.0")));
    assert_eq!(s.activate("v3.2.1"), Ok(false));
    assert_eq!(s.get_active(), Ok(String::from("v3.2.1")));
}

#[test]
fn activate_without_auxiliary_warns_only_for_expected_family() {
    let mut s = linux_store();
    s.record_install("v2.16.0", true, false);
    s.record_install("v3.2.1", true, false);
    // The v2 family is expected to ship the auxiliary executable.
    assert_eq!(s.activate("v2.16.0"), Ok(true));
    assert_eq!(s.activate("v3.2.1"), Ok(false));
}

#[test]
fn activate_without_auxiliary_leaves_old_auxiliary_link() {
    let mut s = linux_store();
    s.record_install("v2.16.0", true, true);
    s.record_install("v3.2.1", true, false);
    assert_eq!(s.activate("v2.16.0"), Ok(false));
    let old_aux = s.auxiliary_link.clone();
    assert_eq!(s.activate("v3.2.1"), Ok(false));
    assert_eq!(s.primary_link, Some(comps(&["v3.2.1", "linux-amd64", "helm"])));
    assert_eq!(s.auxiliary_link, old_aux);
}

#[test]
fn activating_twice_is_idempotent() {
    let mut s = linux_store();
    s.record_install("v3.2.1", true, true);
    assert_eq!(s.activate("v3.2.1"), Ok(false));
    let once = s.clone();
    assert_eq!(s.activate("v3.2.1"), Ok(false));
    assert_eq!(s.clone(), once);
}

#[test]
fn remove_active_without_force_fails_and_changes_nothing() {
    let mut s = linux_store();
    s.record_install("v3.2.1", true, true);
    s.record_install("v3.0.0", true, false);
    assert_eq!(s.activate("v3.2.1"), Ok(false));
    let before = s.clone();
    let r = s.remove(&vec![String::from("v3.2.1")], false);
    assert_eq!(r, Err(Error::RemoveActive));
    assert_eq!(s.clone(), before);
}

#[test]
fn remove_active_with_force_deletes_links_and_directory() {
    let mut s = linux_store();
    s.record_install("v3.2.1", true, true);
    s.record_install("v3.0.0", true, false);
    assert_eq!(s.activate("v3.2.1"), Ok(false));
    let r = s.remove(&vec![String::from("v3.2.1")], true);
    assert_eq!(r, Ok(vec![]));
    assert_eq!(s.primary_link, None);
    assert_eq!(s.auxiliary_link, None);
    assert_eq!(s.list(), vec![String::from("v3.0.0")]);
}

#[test]
fn remove_missing_version_is_a_notice_and_continues() {
    let mut s = linux_store();
    s.record_install("v3.2.1", true, true);
    s.record_install("v3.0.0", true, false);
    assert_eq!(s.activate("v3.2.1"), Ok(false));
    let r = s.remove(
        &vec![String::from("v1.0.0"), String::from("v3.0.0")],
        false,
    );
    assert_eq!(r, Ok(vec![String::from("v1.0.0")]));
    assert_eq!(s.list(), vec![String::from("v3.2.1")]);
    assert_eq!(s.get_active(), Ok(String::from("v3.2.1")));
}

#[test]
fn remove_without_active_version_deletes_directories() {
    // No active link exists, so no requested version can be the active
    // one: the cached directory goes, the missing one becomes a notice.
    let mut s = linux_store();
    s.record_install("v3.0.0", true, false);
    let r = s.remove(
        &vec![String::from("v3.0.0"), String::from("v1.0.0")],
        false,
    );
    assert_eq!(r, Ok(vec![String::from("v1.0.0")]));
    assert!(s.list().is_empty());
    assert_eq!(s.get_active(), Err(Error::NoActiveVersion));
}

#[test]
fn remove_with_broken_link_fails_and_changes_nothing() {
    let mut s = linux_store();
    s.record_install("v3.0.0", true, false);
    s.primary_link = Some(comps(&["helm"]));
    let before = s.clone();
    let r = s.remove(&vec![String::from("v3.0.0")], false);
    assert_eq!(r, Err(Error::BrokenLink));
    assert_eq!(s, before);
}

#[test]
fn prune_keeps_only_the_active_version() {
    let mut s = linux_store();
    s.record_install("v2.16.0", true, true);
    s.record_install("v3.0.0", true, false);
    s.record_install("v3.2.1", true, false);
    assert_eq!(s.activate("v3.0.0"), Ok(false));
    assert_eq!(s.prune(), Ok(()));
    assert_eq!(s.list(), vec![String::from("v3.0.0")]);
    assert_eq!(s.get_active(), Ok(String::from("v3.0.0")));
}

#[test]
fn uninstall_deletes_links_and_active_directory() {
    let mut s = linux_store();
    s.record_install("v3.2.1", true, true);
    s.record_install("v3.0.0", true, false);
    assert_eq!(s.activate("v3.2.1"), Ok(false));
    assert_eq!(s.uninstall(), Ok(()));
    assert_eq!(s.primary_link, None);
    assert_eq!(s.auxiliary_link, None);
    assert_eq!(s.list(), vec![String::from("v3.0.0")]);
    assert_eq!(s.get_active(), Err(Error::NoActiveVersion));
}

#[test]
fn record_install_overwrites_in_place() {
    let mut s = linux_store();
    s.record_install("v3.2.1", true, false);
    s.record_install("v3.0.0", true, true);
    s.record_install("v3.2.1", true, true);
    assert_eq!(s.list(), vec![String::from("v3.2.1"), String::from("v3.0.0")]);
    assert_eq!(s.activate("v3.2.1"), Ok(false));
    assert_eq!(
        s.auxiliary_link,
        Some(comps(&["v3.2.1", "linux-amd64", "tiller"]))
    );
}

#[test]
fn is_helm_installed_checks_the_cache_directory() {
    let mut s = linux_store();
    assert!(!s.is_helm_installed("v3.2.1"));
    s.record_install("v3.2.1", true, true);
    assert!(s.is_helm_installed("v3.2.1"));
    assert!(!s.is_helm_installed("v3.0.0"));
}

#[test]
fn which_reports_the_executable_paths() {
    let mut s = linux_store();
    s.record_install("v3.2.1", true, true);
    let (primary, aux) = s.which(Some("v3.2.1")).unwrap();
    assert_eq!(primary, comps(&["v3.2.1", "linux-amd64", "helm"]));
    assert_eq!(aux, Some(comps(&["v3.2.1", "linux-amd64", "tiller"])));
    assert_eq!(s.which(Some("v9.9.9")), Err(Error::NotFound));
}

#[test]
fn which_defaults_to_the_active_version() {
    let mut s = linux_store();
    s.record_install("v3.2.1", true, false);
    assert_eq!(s.which(None), Err(Error::NoActiveVersion));
    assert_eq!(s.activate("v3.2.1"), Ok(false));
    let (primary, aux) = s.which(None).unwrap();
    assert_eq!(primary, comps(&["v3.2.1", "linux-amd64", "helm"]));
    assert_eq!(aux, None);
}

#[test]
fn which_surfaces_a_broken_link() {
    let mut s = linux_store();
    s.record_install("v3.2.1", true, false);
    s.primary_link = Some(comps(&["helm"]));
    assert_eq!(s.which(None), Err(Error::BrokenLink));
}

#[test]
fn path_for_is_pure_construction() {
    let s = linux_store();
    assert_eq!(s.path_for("v1.2.3"), vec![String::from("v1.2.3")]);
}
