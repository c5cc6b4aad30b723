use felloe::{
    digest_hex, install, install_latest, install_step, Error, InstallAction, InstallEvent,
    InstallState, Store,
};

fn linux_store() -> Store {
    Store::new(
        String::from("linux-amd64"),
        String::from("helm"),
        String::from("tiller"),
    )
}

fn digest_text_for(archive: &[u8]) -> Vec<u8> {
    // The digest sidecar as served upstream: the hex digest plus a newline.
    let mut t = digest_hex(&archive.to_vec());
    t.push(b'\n');
    t
}

#[test]
fn install_starts_by_resolving_the_selector() {
    let (state, action) = install("v3.2.1");
    assert_eq!(
        state,
        InstallState::Resolve { selector: String::from("v3.2.1") }
    );
    assert_eq!(
        action,
        InstallAction::FetchRelease { selector: String::from("v3.2.1") }
    );
}

#[test]
fn install_latest_uses_the_latest_selector() {
    let (state, action) = install_latest();
    assert_eq!(
        state,
        InstallState::Resolve { selector: String::from("latest") }
    );
    assert_eq!(
        action,
        InstallAction::FetchRelease { selector: String::from("latest") }
    );
}

#[test]
fn pipeline_runs_download_verify_extract_activate() {
    let mut store = linux_store();
    let archive: Vec<u8> = b"archive bytes".to_vec();
    let (state, _) = install("v3.2.1");

    let (state, action) = install_step(
        &store,
        state,
        InstallEvent::Resolved { tag: String::from("v3.2.1") },
    );
    assert_eq!(state, InstallState::Fetching { tag: String::from("v3.2.1") });
    assert_eq!(action, InstallAction::FetchArchive { tag: String::from("v3.2.1") });

    let (state, action) = install_step(
        &store,
        state,
        InstallEvent::Fetched {
            archive: archive.clone(),
            digest_text: digest_text_for(&archive),
        },
    );
    assert_eq!(state, InstallState::Extracting { tag: String::from("v3.2.1") });
    assert_eq!(
        action,
        InstallAction::ExtractArchive { tag: String::from("v3.2.1"), archive: archive.clone() }
    );

    store.record_install("v3.2.1", true, true);
    let (state, action) = install_step(
        &store,
        state,
        InstallEvent::Extracted { has_primary: true, has_auxiliary: true },
    );
    assert_eq!(state, InstallState::Activating { tag: String::from("v3.2.1") });
    assert_eq!(action, InstallAction::Activate { tag: String::from("v3.2.1") });

    let warned = store.activate("v3.2.1").unwrap();
    let (state, action) = install_step(&store, state, InstallEvent::Activated { warned });
    assert_eq!(
        state,
        InstallState::Done { tag: String::from("v3.2.1"), warned: false }
    );
    assert_eq!(action, InstallAction::Stop);
    assert_eq!(store.get_active(), Ok(String::from("v3.2.1")));
}

#[test]
fn digest_mismatch_fails_before_extraction() {
    // The digest text belongs to different bytes: verification rejects and
    // the pipeline never asks for extraction; the store is untouched.
    let store = linux_store();
    let archive: Vec<u8> = b"archive bytes".to_vec();
    let wrong = digest_text_for(b"other bytes");
    let state = InstallState::Fetching { tag: String::from("v3.2.1") };
    let (state, action) = install_step(
        &store,
        state,
        InstallEvent::Fetched { archive, digest_text: wrong },
    );
    assert_eq!(state, InstallState::Failed { error: Error::Integrity });
    assert_eq!(action, InstallAction::Stop);
    assert!(store.list().is_empty());
}

#[test]
fn cached_version_skips_download_and_goes_to_activation() {
    let mut store = linux_store();
    store.record_install("v3.2.1", true, true);
    let (state, _) = install("v3.2.1");
    let (state, action) = install_step(
        &store,
        state,
        InstallEvent::Resolved { tag: String::from("v3.2.1") },
    );
    assert_eq!(state, InstallState::Activating { tag: String::from("v3.2.1") });
    assert_eq!(action, InstallAction::Activate { tag: String::from("v3.2.1") });
}

#[test]
fn installing_twice_reaches_the_same_activation_state() {
    let mut store = linux_store();

    // First install: full pipeline.
    store.record_install("v3.2.1", true, true);
    assert_eq!(store.activate("v3.2.1"), Ok(false));
    let after_first = store.clone();

    // Second install of the same version: the resolved tag is cached, so
    // the pipeline goes straight to activation, which succeeds again.
    let (state, _) = install("v3.2.1");
    let (state, action) = install_step(
        &store,
        state,
        InstallEvent::Resolved { tag: String::from("v3.2.1") },
    );
    assert_eq!(state, InstallState::Activating { tag: String::from("v3.2.1") });
    assert_eq!(action, InstallAction::Activate { tag: String::from("v3.2.1") });
    assert_eq!(store.activate("v3.2.1"), Ok(false));
    assert_eq!(store, after_first);
}

#[test]
fn resolve_failure_carries_its_error() {
    let store = linux_store();
    let (state, _) = install("v9.9.9");
    let (state, action) = install_step(
        &store,
        state,
        InstallEvent::ResolveFailed { error: Error::NotFound },
    );
    assert_eq!(state, InstallState::Failed { error: Error::NotFound });
    assert_eq!(action, InstallAction::Stop);
}

#[test]
fn fetch_failure_aborts_the_pipeline() {
    let store = linux_store();
    let state = InstallState::Fetching { tag: String::from("v3.2.1") };
    let (state, action) = install_step(
        &store,
        state,
        InstallEvent::FetchFailed { error: Error::Fetch },
    );
    assert_eq!(state, InstallState::Failed { error: Error::Fetch });
    assert_eq!(action, InstallAction::Stop);
}

#[test]
fn extract_failure_is_the_extract_error() {
    let store = linux_store();
    let state = InstallState::Extracting { tag: String::from("v3.2.1") };
    let (state, action) = install_step(&store, state, InstallEvent::ExtractFailed);
    assert_eq!(state, InstallState::Failed { error: Error::Extract });
    assert_eq!(action, InstallAction::Stop);
}

#[test]
fn activation_failure_leaves_version_cached_but_inactive() {
    let mut store = linux_store();
    store.record_install("v3.2.1", false, false);
    let err = store.activate("v3.2.1").unwrap_err();
    assert_eq!(err, Error::Link);
    let state = InstallState::Activating { tag: String::from("v3.2.1") };
    let (state, action) =
        install_step(&store, state, InstallEvent::ActivateFailed { error: err });
    assert_eq!(state, InstallState::Failed { error: Error::Link });
    assert_eq!(action, InstallAction::Stop);
    // The version stays cached: re-activation, not re-download, is owed.
    assert!(store.is_helm_installed("v3.2.1"));
}

#[test]
fn network_and_decode_failures_carry_through() {
    let store = linux_store();
    let (state, _) = install("latest");
    let (state, _) = install_step(
        &store,
        state,
        InstallEvent::ResolveFailed { error: Error::Network },
    );
    assert_eq!(state, InstallState::Failed { error: Error::Network });

    let (state2, _) = install("latest");
    let (state2, _) = install_step(
        &store,
        state2,
        InstallEvent::ResolveFailed { error: Error::Decode },
    );
    assert_eq!(state2, InstallState::Failed { error: Error::Decode });
}

#[test]
fn unknown_length_aborts_the_fetch() {
    let store = linux_store();
    let state = InstallState::Fetching { tag: String::from("v3.2.1") };
    let (state, action) = install_step(
        &store,
        state,
        InstallEvent::FetchFailed { error: Error::LengthUnknown },
    );
    assert_eq!(state, InstallState::Failed { error: Error::LengthUnknown });
    assert_eq!(action, InstallAction::Stop);
}

#[test]
fn unrelated_event_is_ignored() {
    let store = linux_store();
    let state = InstallState::Fetching { tag: String::from("v3.2.1") };
    let (state, action) = install_step(
        &store,
        state,
        InstallEvent::Activated { warned: false },
    );
    assert_eq!(state, InstallState::Fetching { tag: String::from("v3.2.1") });
    assert_eq!(action, InstallAction::Stop);
}
