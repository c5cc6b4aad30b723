use vstd::prelude::*;

use crate::errors::Error;
use crate::integrity::{digest_ok, verify};
use crate::store::{has_tag, Store, StoreM};

verus! {

// The install pipeline as a state machine: resolve the release, then —
// unless the version is already cached — download, verify and extract, and
// finally activate. The machine only decides; each action it hands out is
// performed outside (a network fetch, an extraction, the link update), and
// the outcome comes back as the next event. A failure in any state aborts
// the remaining states with the first error.

/// Where the pipeline stands.
#[derive(Debug, PartialEq)]
pub enum InstallState {
    /// Waiting for the release selector to resolve to a concrete tag.
    Resolve { selector: String },
    /// Waiting for the archive and its digest sidecar to both arrive.
    Fetching { tag: String },
    /// Waiting for the verified archive to be extracted into the cache.
    Extracting { tag: String },
    /// Waiting for the version's links to be put in place.
    Activating { tag: String },
    /// The version is cached and active.
    Done { tag: String, warned: bool },
    /// The pipeline stopped with its first error.
    Failed { error: Error },
}

/// The mathematical image of a pipeline state.
#[verifier::ext_equal]
pub ghost enum InstallStateM {
    Resolve { selector: Seq<char> },
    Fetching { tag: Seq<char> },
    Extracting { tag: Seq<char> },
    Activating { tag: Seq<char> },
    Done { tag: Seq<char>, warned: bool },
    Failed { error: Error },
}

impl View for InstallState {
    type V = InstallStateM;

    open spec fn view(&self) -> InstallStateM {
        match self {
            InstallState::Resolve { selector } => InstallStateM::Resolve { selector: selector@ },
            InstallState::Fetching { tag } => InstallStateM::Fetching { tag: tag@ },
            InstallState::Extracting { tag } => InstallStateM::Extracting { tag: tag@ },
            InstallState::Activating { tag } => InstallStateM::Activating { tag: tag@ },
            InstallState::Done { tag, warned } => InstallStateM::Done {
                tag: tag@,
                warned: *warned,
            },
            InstallState::Failed { error } => InstallStateM::Failed { error: *error },
        }
    }
}

/// What the outside work reported back.
#[derive(Debug, PartialEq)]
pub enum InstallEvent {
    /// The registry resolved the selector to this tag.
    Resolved { tag: String },
    /// The registry could not resolve it.
    ResolveFailed { error: Error },
    /// Archive and digest sidecar both arrived in full.
    Fetched { archive: Vec<u8>, digest_text: Vec<u8> },
    /// A transfer failed; no partial result is kept.
    FetchFailed { error: Error },
    /// Extraction finished, finding these executables in the cache.
    Extracted { has_primary: bool, has_auxiliary: bool },
    /// Extraction failed on malformed input.
    ExtractFailed,
    /// The links are in place; `warned` echoes the activation warning.
    Activated { warned: bool },
    /// The links could not be put in place.
    ActivateFailed { error: Error },
}

/// The mathematical image of an event.
#[verifier::ext_equal]
pub ghost enum InstallEventM {
    Resolved { tag: Seq<char> },
    ResolveFailed { error: Error },
    Fetched { archive: Seq<u8>, digest_text: Seq<u8> },
    FetchFailed { error: Error },
    Extracted { has_primary: bool, has_auxiliary: bool },
    ExtractFailed,
    Activated { warned: bool },
    ActivateFailed { error: Error },
}

impl View for InstallEvent {
    type V = InstallEventM;

    open spec fn view(&self) -> InstallEventM {
        match self {
            InstallEvent::Resolved { tag } => InstallEventM::Resolved { tag: tag@ },
            InstallEvent::ResolveFailed { error } => InstallEventM::ResolveFailed {
                error: *error,
            },
            InstallEvent::Fetched { archive, digest_text } => InstallEventM::Fetched {
                archive: archive@,
                digest_text: digest_text@,
            },
            InstallEvent::FetchFailed { error } => InstallEventM::FetchFailed { error: *error },
            InstallEvent::Extracted { has_primary, has_auxiliary } => InstallEventM::Extracted {
                has_primary: *has_primary,
                has_auxiliary: *has_auxiliary,
            },
            InstallEvent::ExtractFailed => InstallEventM::ExtractFailed,
            InstallEvent::Activated { warned } => InstallEventM::Activated { warned: *warned },
            InstallEvent::ActivateFailed { error } => InstallEventM::ActivateFailed {
                error: *error,
            },
        }
    }
}

/// What the caller must do next.
#[derive(Debug, PartialEq)]
pub enum InstallAction {
    /// Ask the registry to resolve this selector, then report `Resolved`
    /// or `ResolveFailed`.
    FetchRelease { selector: String },
    /// Fetch the archive and its digest sidecar for this tag, both in full,
    /// then report `Fetched` or `FetchFailed`.
    FetchArchive { tag: String },
    /// Extract this verified archive into the tag's cache directory, record
    /// the result in the store, then report `Extracted` or `ExtractFailed`.
    ExtractArchive { tag: String, archive: Vec<u8> },
    /// Activate this tag in the store, mirror the links, then report
    /// `Activated` or `ActivateFailed`.
    Activate { tag: String },
    /// The pipeline is finished; nothing further runs.
    Stop,
}

/// The mathematical image of an action.
#[verifier::ext_equal]
pub ghost enum InstallActionM {
    FetchRelease { selector: Seq<char> },
    FetchArchive { tag: Seq<char> },
    ExtractArchive { tag: Seq<char>, archive: Seq<u8> },
    Activate { tag: Seq<char> },
    Stop,
}

impl View for InstallAction {
    type V = InstallActionM;

    open spec fn view(&self) -> InstallActionM {
        match self {
            InstallAction::FetchRelease { selector } => InstallActionM::FetchRelease {
                selector: selector@,
            },
            InstallAction::FetchArchive { tag } => InstallActionM::FetchArchive { tag: tag@ },
            InstallAction::ExtractArchive { tag, archive } => InstallActionM::ExtractArchive {
                tag: tag@,
                archive: archive@,
            },
            InstallAction::Activate { tag } => InstallActionM::Activate { tag: tag@ },
            InstallAction::Stop => InstallActionM::Stop,
        }
    }
}

/// The transition function of the pipeline. A resolved tag that is already
/// cached skips download, verification and extraction entirely; a digest
/// mismatch is fatal before extraction is ever requested; every failure
/// event carries the pipeline to `Failed` with its first error. An event
/// that does not belong to the current state changes nothing.
pub open spec fn install_next(m: StoreM, s: InstallStateM, e: InstallEventM) -> (
    InstallStateM,
    InstallActionM,
) {
    match (s, e) {
        (InstallStateM::Resolve { .. }, InstallEventM::Resolved { tag }) => {
            if has_tag(m.cached, tag) {
                (InstallStateM::Activating { tag }, InstallActionM::Activate { tag })
            } else {
                (InstallStateM::Fetching { tag }, InstallActionM::FetchArchive { tag })
            }
        },
        (InstallStateM::Resolve { .. }, InstallEventM::ResolveFailed { error }) => (
            InstallStateM::Failed { error },
            InstallActionM::Stop,
        ),
        (InstallStateM::Fetching { tag }, InstallEventM::Fetched { archive, digest_text }) => {
            if digest_ok(archive, digest_text) {
                (
                    InstallStateM::Extracting { tag },
                    InstallActionM::ExtractArchive { tag, archive },
                )
            } else {
                (InstallStateM::Failed { error: Error::Integrity }, InstallActionM::Stop)
            }
        },
        (InstallStateM::Fetching { .. }, InstallEventM::FetchFailed { error }) => (
            InstallStateM::Failed { error },
            InstallActionM::Stop,
        ),
        (InstallStateM::Extracting { tag }, InstallEventM::Extracted { .. }) => (
            InstallStateM::Activating { tag },
            InstallActionM::Activate { tag },
        ),
        (InstallStateM::Extracting { .. }, InstallEventM::ExtractFailed) => (
            InstallStateM::Failed { error: Error::Extract },
            InstallActionM::Stop,
        ),
        (InstallStateM::Activating { tag }, InstallEventM::Activated { warned }) => (
            InstallStateM::Done { tag, warned },
            InstallActionM::Stop,
        ),
        (InstallStateM::Activating { .. }, InstallEventM::ActivateFailed { error }) => (
            InstallStateM::Failed { error },
            InstallActionM::Stop,
        ),
        (s0, _) => (s0, InstallActionM::Stop),
    }
}

/// One step of the pipeline: reads the store, never changes it.
pub fn install_step(store: &Store, state: InstallState, event: InstallEvent) -> (r: (
    InstallState,
    InstallAction,
))
    ensures
        r.0@ == install_next(store@, state@, event@).0,
        r.1@ == install_next(store@, state@, event@).1,
{
    match (state, event) {
        (InstallState::Resolve { .. }, InstallEvent::Resolved { tag }) => {
            if store.is_helm_installed(tag.as_str()) {
                (
                    InstallState::Activating { tag: tag.clone() },
                    InstallAction::Activate { tag },
                )
            } else {
                (
                    InstallState::Fetching { tag: tag.clone() },
                    InstallAction::FetchArchive { tag },
                )
            }
        },
        (InstallState::Resolve { .. }, InstallEvent::ResolveFailed { error }) => (
            InstallState::Failed { error },
            InstallAction::Stop,
        ),
        (InstallState::Fetching { tag }, InstallEvent::Fetched { archive, digest_text }) => {
            match verify(&archive, &digest_text) {
                Ok(()) => (
                    InstallState::Extracting { tag: tag.clone() },
                    InstallAction::ExtractArchive { tag, archive },
                ),
                Err(e) => (InstallState::Failed { error: e }, InstallAction::Stop),
            }
        },
        (InstallState::Fetching { .. }, InstallEvent::FetchFailed { error }) => (
            InstallState::Failed { error },
            InstallAction::Stop,
        ),
        (InstallState::Extracting { tag }, InstallEvent::Extracted { .. }) => (
            InstallState::Activating { tag: tag.clone() },
            InstallAction::Activate { tag },
        ),
        (InstallState::Extracting { .. }, InstallEvent::ExtractFailed) => (
            InstallState::Failed { error: Error::Extract },
            InstallAction::Stop,
        ),
        (InstallState::Activating { tag }, InstallEvent::Activated { warned }) => (
            InstallState::Done { tag, warned },
            InstallAction::Stop,
        ),
        (InstallState::Activating { .. }, InstallEvent::ActivateFailed { error }) => (
            InstallState::Failed { error },
            InstallAction::Stop,
        ),
        (s0, _) => (s0, InstallAction::Stop),
    }
}

/// Starts the pipeline for an explicit version selector.
pub fn install(version: &str) -> (r: (InstallState, InstallAction))
    ensures
        r.0@ == (InstallStateM::Resolve { selector: version@ }),
        r.1@ == (InstallActionM::FetchRelease { selector: version@ }),
{
    let s = String::from_str(version);
    (InstallState::Resolve { selector: s.clone() }, InstallAction::FetchRelease { selector: s })
}

/// Starts the pipeline for the latest release.
pub fn install_latest() -> (r: (InstallState, InstallAction))
    ensures
        r.0@ == (InstallStateM::Resolve { selector: "latest"@ }),
        r.1@ == (InstallActionM::FetchRelease { selector: "latest"@ }),
{
    install("latest")
}

/// Law: on a digest mismatch the pipeline fails with the integrity error
/// and asks for nothing further — in particular extraction is never
/// requested, and the step function cannot touch the store at all.
pub proof fn lemma_mismatch_rejected(
    m: StoreM,
    tag: Seq<char>,
    archive: Seq<u8>,
    digest_text: Seq<u8>,
)
    requires
        !digest_ok(archive, digest_text),
    ensures
        install_next(
            m,
            InstallStateM::Fetching { tag },
            InstallEventM::Fetched { archive, digest_text },
        ) == (
            InstallStateM::Failed { error: Error::Integrity },
            InstallActionM::Stop,
        ),
{
}

/// Law: the only transition that requests extraction is a completed fetch
/// whose archive matches its digest text.
pub proof fn lemma_extract_only_verified(m: StoreM, s: InstallStateM, e: InstallEventM)
    ensures
        install_next(m, s, e).1 is ExtractArchive ==> e is Fetched && digest_ok(
            e->Fetched_archive,
            e->Fetched_digest_text,
        ) && install_next(m, s, e).1->ExtractArchive_archive == e->Fetched_archive,
{
}

/// Law: a resolved version that is already cached goes straight to
/// activation; download, verification and extraction are skipped.
pub proof fn lemma_cached_version_skips_fetch(m: StoreM, selector: Seq<char>, tag: Seq<char>)
    requires
        has_tag(m.cached, tag),
    ensures
        install_next(
            m,
            InstallStateM::Resolve { selector },
            InstallEventM::Resolved { tag },
        ) == (InstallStateM::Activating { tag }, InstallActionM::Activate { tag }),
{
}

} // verus!
