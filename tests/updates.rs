use agent_transport::api::{GitHubAsset, GitHubRelease};
use agent_transport::updates::{architecture_label, strip_v, text_contains, version_report};

fn release(tag: &str) -> GitHubRelease {
    GitHubRelease {
        tag_name: tag.to_string(),
        name: "Release".to_string(),
        body: "notes".to_string(),
        published_at: "2025-01-01T00:00:00Z".to_string(),
        assets: vec![
            GitHubAsset { name: "csf-core-linux-arm64.tar.gz".to_string(), browser_download_url: "https://x/arm".to_string() },
            GitHubAsset { name: "csf-core-linux-amd64.tar.gz".to_string(), browser_download_url: "https://x/amd".to_string() },
            GitHubAsset { name: "csf-core-amd64.deb".to_string(), browser_download_url: "https://x/deb".to_string() },
        ],
    }
}

#[test]
fn leading_v_is_stripped() {
    assert_eq!(strip_v("v1.2.3"), "1.2.3");
    assert_eq!(strip_v("vv2"), "2");
    assert_eq!(strip_v("1.0v"), "1.0v");
    assert_eq!(strip_v(""), "");
}

#[test]
fn substring_search() {
    assert!(text_contains("csf-core-linux-amd64.tar.gz", "amd64"));
    assert!(!text_contains("csf-core-linux-arm64.tar.gz", "amd64"));
    assert!(text_contains("abc", ""));
    assert!(!text_contains("ab", "abc"));
}

#[test]
fn architecture_names() {
    assert_eq!(architecture_label("aarch64"), "arm64");
    assert_eq!(architecture_label("x86_64"), "amd64");
    assert_eq!(architecture_label("riscv64"), "amd64");
}

#[test]
fn newer_release_is_reported_with_its_asset() {
    let r = version_report("v1.0.0".to_string(), Some("abc".to_string()), Some(release("v1.1.0")), "x86_64");
    assert_eq!(r.current_version, "v1.0.0");
    assert_eq!(r.current_commit.as_deref(), Some("abc"));
    assert_eq!(r.latest_version, "1.1.0");
    assert!(r.update_available);
    assert_eq!(r.download_url.as_deref(), Some("https://x/amd"));
    assert_eq!(r.release_notes.as_deref(), Some("notes"));
    assert_eq!(r.published_at.as_deref(), Some("2025-01-01T00:00:00Z"));
    let r = version_report("1.0.0".to_string(), None, Some(release("v1.1.0")), "aarch64");
    assert_eq!(r.download_url.as_deref(), Some("https://x/arm"));
}

#[test]
fn same_or_older_release_is_no_update() {
    let r = version_report("1.1.0".to_string(), None, Some(release("v1.1.0")), "x86_64");
    assert!(!r.update_available);
    let r = version_report("2.0.0".to_string(), None, Some(release("v1.9.9")), "x86_64");
    assert!(!r.update_available);
    let mut rel = release("v3.0.0");
    rel.assets.clear();
    let r = version_report("2.0.0".to_string(), None, Some(rel), "x86_64");
    assert!(r.update_available);
    assert_eq!(r.download_url, None);
}

#[test]
fn failed_lookup_reports_installed_version() {
    let r = version_report("1.4.2".to_string(), None, None, "x86_64");
    assert_eq!(r.latest_version, "1.4.2");
    assert!(!r.update_available);
    assert_eq!(r.download_url, None);
    assert_eq!(r.release_notes, None);
    assert_eq!(r.latest_commit, None);
}
