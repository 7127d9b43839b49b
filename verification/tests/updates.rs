use dev_monitor::updates::{check_received_size, current_version, is_newer, pick_installer, update_from_release, ApiAsset};

fn asset(name: &str, size: u64) -> ApiAsset {
    ApiAsset {
        name: name.to_string(),
        browser_download_url: format!("https://example.invalid/{name}"),
        size,
    }
}

#[test]
fn a_higher_version_is_newer() {
    assert!(is_newer("v0.3.0", "0.2.0"));
    assert!(is_newer("0.2.1", "0.2.0"));
    assert!(is_newer("v1.0.0", "0.9.9"));
}

#[test]
fn the_same_version_is_not_newer() {
    assert!(!is_newer("v0.2.0", "0.2.0"));
    assert!(!is_newer("0.2.0", "0.2.0"));
}

#[test]
fn an_older_version_is_not_newer() {
    assert!(!is_newer("v0.1.0", "0.2.0"));
    assert!(!is_newer("v0.2.0", "0.10.0"));
}

#[test]
fn double_digit_segments_compare_numerically() {
    assert!(is_newer("v0.10.0", "0.9.0"));
    assert!(!is_newer("v0.9.0", "0.10.0"));
    assert!(is_newer("v1.11.0", "1.9.3"));
}

#[test]
fn the_v_prefix_is_optional_on_either_side() {
    assert!(is_newer("v0.3.0", "0.2.0"));
    assert!(is_newer("0.3.0", "v0.2.0"));
}

#[test]
fn a_shorter_version_is_padded_rather_than_treated_as_greater() {
    assert!(!is_newer("v0.2", "0.2.0"));
    assert!(is_newer("v0.3", "0.2.9"));
}

#[test]
fn a_non_numeric_segment_does_not_panic() {
    assert!(!is_newer("v0.2.0-rc1", "0.2.0"));
    assert!(is_newer("v0.3.0-rc1", "0.2.0"));
    assert!(!is_newer("nonsense", "0.2.0"));
}

#[test]
fn each_platform_is_offered_only_the_installer_it_can_run() {
    let assets = [asset("dev-monitor.dmg", 100), asset("dev-monitor.exe", 200)];
    assert_eq!(pick_installer(&assets, Some("dmg")).unwrap().name, "dev-monitor.dmg");
    assert_eq!(pick_installer(&assets, Some("exe")).unwrap().name, "dev-monitor.exe");
}

#[test]
fn a_platform_with_no_installer_gets_none() {
    let assets = [asset("dev-monitor.dmg", 100)];
    assert!(pick_installer(&assets, None).is_none());
}

#[test]
fn a_missing_asset_is_none_rather_than_the_wrong_one() {
    let assets = [asset("dev-monitor.dmg", 100)];
    assert!(pick_installer(&assets, Some("exe")).is_none());
}

#[test]
fn the_extension_match_is_case_insensitive() {
    let assets = [asset("DevMonitor-Setup.EXE", 200)];
    assert_eq!(pick_installer(&assets, Some("exe")).unwrap().name, "DevMonitor-Setup.EXE");
}

#[test]
fn an_asset_is_matched_on_its_extension_not_on_the_name_containing_it() {
    let assets = [asset("dev-monitor.exe.sha256", 64), asset("dev-monitor.exe", 200)];
    assert_eq!(pick_installer(&assets, Some("exe")).unwrap().name, "dev-monitor.exe");
}

#[test]
fn the_running_version_is_the_package_version() {
    assert_eq!(current_version(), "0.2.0");
}

#[test]
fn a_newer_release_is_offered_with_its_installer() {
    let assets = [asset("dev-monitor.exe", 200)];
    let u = update_from_release("v0.3.1", "https://example.invalid/r", &assets, Some("exe")).unwrap();
    assert_eq!(u.version, "0.3.1");
    assert_eq!(u.url, "https://example.invalid/r");
    let i = u.installer.unwrap();
    assert_eq!((i.name.as_str(), i.size), ("dev-monitor.exe", 200));
    assert!(update_from_release("v0.2.0", "x", &assets, Some("exe")).is_none());
}

#[test]
fn a_short_download_is_refused_with_both_sizes() {
    assert!(check_received_size(0, 5).is_ok());
    assert!(check_received_size(7, 7).is_ok());
    assert_eq!(
        check_received_size(1000, 10),
        Err("expected 1000 bytes, received 10 -- the download was truncated".to_string())
    );
}

#[test]
fn newer_carries_through_a_middle_release() {
    assert!(is_newer("0.3", "0.2.9") && is_newer("0.2.9", "v0.2.1-rc"));
    assert!(is_newer("0.3", "v0.2.1-rc"));
    assert!(is_newer("1.0.0.1", "1.0") && is_newer("1.0", "0.99.99"));
    assert!(is_newer("1.0.0.1", "0.99.99"));
}
