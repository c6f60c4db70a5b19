//! Deciding whether a newer release is available, from the installed version and
//! the latest release as the GitHub API describes it.
use vstd::prelude::*;
use vstd::string::StrSliceExecFns;
use vstd::utf8::encode_utf8;
use crate::api::{GitHubAsset, GitHubRelease, VersionInfo};
use crate::version::{compare_from, version_compare, version_numbers};

verus! {

/// `s` without its leading `v` characters.
pub open spec fn trim_v(s: Seq<char>) -> Seq<char>
    decreases s.len(),
{
    if s.len() > 0 && s[0] == 'v' {
        trim_v(s.drop_first())
    } else {
        s
    }
}

/// Whether `needle` occurs in `hay`.
pub open spec fn contains(hay: Seq<char>, needle: Seq<char>) -> bool {
    exists|i: int| 0 <= i && i + needle.len() <= hay.len() && #[trigger] hay.subrange(i, i + needle.len()) == needle
}

/// The name that release assets use for a machine architecture: `arm64` for
/// `aarch64`, `amd64` for anything else.
pub open spec fn arch_label(arch: Seq<char>) -> Seq<char> {
    if arch == "aarch64"@ {
        "arm64"@
    } else {
        "amd64"@
    }
}

/// Whether version `a` is newer than version `b`.
pub open spec fn newer(a: Seq<char>, b: Seq<char>) -> bool {
    compare_from(version_numbers(encode_utf8(a)), version_numbers(encode_utf8(b)), 0) == 1
}

/// The download address of the first asset whose name contains `label`.
pub open spec fn first_asset_url(assets: Seq<GitHubAsset>, label: Seq<char>) -> Option<Seq<char>>
    decreases assets.len(),
{
    if assets.len() == 0 {
        None
    } else if contains(assets[0].name@, label) {
        Some(assets[0].browser_download_url@)
    } else {
        first_asset_url(assets.drop_first(), label)
    }
}

/// Removes the leading `v` characters, as `trim_start_matches('v')` does.
pub fn strip_v(s: &str) -> (r: String)
    ensures
        r@ == trim_v(s@),
{
    let n = s.unicode_len();
    let mut i: usize = 0;
    assert(s@.skip(0) =~= s@);
    while i < n && s.get_char(i) == 'v'
        invariant
            n == s@.len(),
            i <= n,
            trim_v(s@) == trim_v(s@.skip(i as int)),
        decreases n - i,
    {
        assert(s@.skip(i as int).drop_first() =~= s@.skip(i + 1));
        i = i + 1;
    }
    let rest = s.substring_char(i, n);
    assert(rest@ =~= s@.skip(i as int));
    rest.to_owned()
}

/// Whether `needle` occurs in `hay`.
pub fn text_contains(hay: &str, needle: &str) -> (r: bool)
    ensures
        r == contains(hay@, needle@),
{
    let n = hay.unicode_len();
    let m = needle.unicode_len();
    if m > n {
        return false;
    }
    let mut i: usize = 0;
    while i <= n - m
        invariant
            n == hay@.len(),
            m == needle@.len(),
            m <= n,
            i <= n - m + 1,
            forall|j: int| 0 <= j < i ==> #[trigger] hay@.subrange(j, j + m) != needle@,
        decreases n - m + 1 - i,
    {
        let mut k: usize = 0;
        while k < m && hay.get_char(i + k) == needle.get_char(k)
            invariant
                n == hay@.len(),
                m == needle@.len(),
                i + m <= n,
                k <= m,
                forall|x: int| 0 <= x < k ==> hay@[i + x] == needle@[x],
            decreases m - k,
        {
            k = k + 1;
        }
        if k == m {
            assert(hay@.subrange(i as int, i + m) =~= needle@);
            return true;
        }
        assert(hay@.subrange(i as int, i + m)[k as int] != needle@[k as int]);
        i = i + 1;
    }
    false
}

/// The asset name part for the architecture `arch`.
pub fn architecture_label(arch: &str) -> (r: String)
    ensures
        r@ == arch_label(arch@),
{
    let given = arch.to_owned();
    let aarch64 = "aarch64".to_owned();
    if given == aarch64 {
        "arm64".to_owned()
    } else {
        "amd64".to_owned()
    }
}

fn asset_url(assets: &Vec<GitHubAsset>, label: &str) -> (r: Option<String>)
    ensures
        match r {
            Some(u) => first_asset_url(assets@, label@) == Some(u@),
            None => first_asset_url(assets@, label@) is None,
        },
{
    let mut i: usize = 0;
    assert(assets@.skip(0) =~= assets@);
    while i < assets.len()
        invariant
            i <= assets@.len(),
            first_asset_url(assets@, label@) == first_asset_url(assets@.skip(i as int), label@),
        decreases assets@.len() - i,
    {
        assert(assets@.skip(i as int).drop_first() =~= assets@.skip(i + 1));
        assert(assets@.skip(i as int)[0] == assets@[i as int]);
        if text_contains(assets[i].name.as_str(), label) {
            return Some(assets[i].browser_download_url.clone());
        }
        i = i + 1;
    }
    None
}

/// What to report about updates. Without a release (the lookup failed), the
/// installed version is reported as the latest and no update is available.
/// With one, the latest version is its tag without leading `v`s, an update is
/// available when that version differs from the installed one (also without
/// leading `v`s) and is newer, and the download is the first asset for `arch`.
pub fn version_report(
    current_version: String,
    current_commit: Option<String>,
    release: Option<GitHubRelease>,
    arch: &str,
) -> (r: VersionInfo)
    ensures
        r.current_version@ == current_version@,
        r.current_commit == current_commit,
        r.latest_commit is None,
        release is None ==> r.latest_version@ == current_version@ && !r.update_available
            && r.download_url is None && r.release_notes is None && r.published_at is None,
        release is Some ==> ({
            let rel = release.unwrap();
            &&& r.latest_version@ == trim_v(rel.tag_name@)
            &&& r.update_available == (trim_v(rel.tag_name@) != trim_v(current_version@) && newer(
                trim_v(rel.tag_name@),
                trim_v(current_version@),
            ))
            &&& match r.download_url {
                Some(u) => first_asset_url(rel.assets@, arch_label(arch@)) == Some(u@),
                None => first_asset_url(rel.assets@, arch_label(arch@)) is None,
            }
            &&& r.release_notes == Some(rel.body)
            &&& r.published_at == Some(rel.published_at)
        }),
{
    if release.is_none() {
        let latest = current_version.clone();
        return VersionInfo {
            current_version,
            current_commit,
            latest_version: latest,
            latest_commit: None,
            update_available: false,
            download_url: None,
            release_notes: None,
            published_at: None,
        };
    }
    let rel = release.unwrap();
    let latest = strip_v(rel.tag_name.as_str());
    let current = strip_v(current_version.as_str());
    let update_available = !(latest == current) && version_compare(latest.as_str(), current.as_str()) == 1;
    let label = architecture_label(arch);
    let download_url = asset_url(&rel.assets, label.as_str());
    VersionInfo {
        current_version,
        current_commit,
        latest_version: latest,
        latest_commit: None,
        update_available,
        download_url,
        release_notes: Some(rel.body),
        published_at: Some(rel.published_at),
    }
}

} // verus!
