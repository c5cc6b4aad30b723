use vstd::prelude::*;

use crate::strutil::{dec_str, str_eq_exec, usize_to_string};

verus! {

// Where releases and archives live, and the exact names and addresses the
// manager asks for. Everything here is pure string construction; the
// network requests themselves happen outside.

/// The release metadata endpoint.
pub const RELEASES_API: &'static str = "https://api.github.com/repos/helm/helm/releases";

/// The archive download base.
pub const DOWNLOAD_BASE: &'static str = "https://get.helm.sh";

/// The dotfile directory under the user's home that holds the cache.
pub const INSTALLATION_DIR: &'static str = ".felloe";

/// The listing address: the metadata endpoint asked for up to `count`
/// most recent releases.
pub fn releases_list_url(count: usize) -> (r: String)
    ensures
        r@ == RELEASES_API@ + "?per_page="@ + dec_str(count as nat),
{
    let mut s = String::from_str(RELEASES_API);
    s.append("?per_page=");
    let n = usize_to_string(count);
    s.append(n.as_str());
    s
}

/// The address of one release descriptor: the `latest` selector asks the
/// endpoint for its latest release, any other selector is an explicit tag.
pub fn release_url(selector: &str) -> (r: String)
    ensures
        selector@ == "latest"@ ==> r@ == RELEASES_API@ + "/latest"@,
        selector@ != "latest"@ ==> r@ == RELEASES_API@ + "/tags/"@ + selector@,
{
    let mut s = String::from_str(RELEASES_API);
    if str_eq_exec(selector, "latest") {
        s.append("/latest");
    } else {
        s.append("/tags/");
        s.append(selector);
    }
    s
}

/// The archive's file name for a version on a platform.
pub fn archive_file_name(version: &str, os: &str, arch: &str) -> (r: String)
    ensures
        r@ == "helm-"@ + version@ + "-"@ + os@ + "-"@ + arch@ + ".tar.gz"@,
{
    let mut s = String::from_str("helm-");
    s.append(version);
    s.append("-");
    s.append(os);
    s.append("-");
    s.append(arch);
    s.append(".tar.gz");
    s
}

/// The archive's download address.
pub fn archive_url(version: &str, os: &str, arch: &str) -> (r: String)
    ensures
        r@ == DOWNLOAD_BASE@ + "/"@ + "helm-"@ + version@ + "-"@ + os@ + "-"@ + arch@
            + ".tar.gz"@,
{
    let mut s = String::from_str(DOWNLOAD_BASE);
    s.append("/");
    let name = archive_file_name(version, os, arch);
    s.append(name.as_str());
    proof {
        assert(s@ =~= DOWNLOAD_BASE@ + "/"@ + "helm-"@ + version@ + "-"@ + os@ + "-"@ + arch@
            + ".tar.gz"@);
    }
    s
}

/// The address of the digest sidecar: the archive's address with the digest
/// suffix.
pub fn digest_url(file_url: &str) -> (r: String)
    ensures
        r@ == file_url@ + ".sha256"@,
{
    let mut s = String::from_str(file_url);
    s.append(".sha256");
    s
}

} // verus!
