//! A version manager for the helm command-line tool: it lists upstream
//! releases, downloads and verifies release archives, caches versions side
//! by side, and marks one cached version active through filesystem links.
//! Every decision the manager makes — which releases a listing shows, when
//! a digest is accepted, what activation and removal do to the cache and
//! the links, how the interactive selector moves — is made here, over a
//! plain-data model of the filesystem, and verified. The surrounding
//! process performs the network, disk and terminal work these decisions
//! call for.

pub mod errors;
pub mod install;
pub mod integrity;
pub mod release;
pub mod selector;
pub mod store;
pub mod strutil;
pub mod urls;

pub use errors::Error;
pub use install::{
    install, install_latest, install_next, install_step, lemma_cached_version_skips_fetch,
    lemma_extract_only_verified, lemma_mismatch_rejected, InstallAction, InstallActionM,
    InstallEvent, InstallEventM, InstallState, InstallStateM,
};
pub use integrity::{digest_hex, digest_ok, hex_of, lemma_hex_of_len, sha256_of, trim_of, verify};
pub use release::{
    filter_releases, keep_release, lemma_versions_listing_law, sorted_by_tag, versions_filter,
    Release, ReleaseM, Releases,
};
pub use selector::{selector_wf, Selector, SelectorAction, SelectorKey, SelectorM};
pub use store::{
    activation_ok, active_result, contains_tag, entry_of, has_tag, lemma_activate_idempotent,
    lemma_activate_round_trip, lemma_remove_single_cached, link_path, removal_ok, remove_steps, store_install,
    store_wf, unique_tags, CachedM, CachedVersion, Store, StoreM,
};
pub use strutil::{sort_strings, str_has, str_has_exec, str_le, str_le_exec, usize_to_string};
pub use urls::{
    archive_file_name, archive_url, digest_url, release_url, releases_list_url, DOWNLOAD_BASE,
    INSTALLATION_DIR, RELEASES_API,
};
