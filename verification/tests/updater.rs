use orexis::updater::{
    available_update, decide_update, find_dll_asset, select_release, temp_dll_path,
    update_needed, update_script, GithubAsset, GithubRelease,
};

fn release(tag: &str, assets: &[&str]) -> GithubRelease {
    GithubRelease {
        tag_name: tag.to_string(),
        assets: assets
            .iter()
            .map(|n| GithubAsset { name: n.to_string(), browser_download_url: format!("https://x/{n}") })
            .collect(),
        prerelease: false,
    }
}

#[test]
fn semver_decides_when_both_parse() {
    assert!(update_needed("v1.10.0", "1.9.0"));
    assert!(!update_needed("v1.9.0", "v1.10.0"));
    assert!(!update_needed("1.2.3", "v1.2.3"));
    assert!(update_needed("1.0.0", "1.0.0-beta"));
    assert!(update_needed("vv2.0.0", "1.0.0"));
}

#[test]
fn text_order_decides_otherwise() {
    // "1.10" is not a semver version, so plain text order decides
    assert!(!update_needed("1.10", "1.9"));
    assert!(update_needed("b", "a"));
    assert!(!update_needed("a", "a"));
}

#[test]
fn decision_from_comparison() {
    assert!(decide_update(Some(true), "a", "b"));
    assert!(!decide_update(Some(false), "b", "a"));
    assert!(decide_update(None, "b", "a"));
    assert!(!decide_update(None, "a", "b"));
}

#[test]
fn available_update_gives_tag() {
    assert_eq!(available_update(&release("v0.3.0", &[]), "0.2.9"), Some("v0.3.0".to_string()));
    assert_eq!(available_update(&release("v0.2.9", &[]), "0.2.9"), None);
}

#[test]
fn release_selection_needs_dll() {
    let releases = vec![release("v3", &["notes.txt"]), release("v2", &["x.zip", "orexis.dll"]), release("v1", &["orexis.dll"])];
    assert_eq!(select_release(&releases), Some(1));
    assert_eq!(find_dll_asset(&releases[1]), Some(1));
    assert_eq!(find_dll_asset(&releases[0]), None);
    assert_eq!(select_release(&vec![release("v1", &[])]), None);
}

#[test]
fn temp_path_appends_suffix() {
    assert_eq!(temp_dll_path("C:\\game\\orexis.dll"), "C:\\game\\orexis.dll.tmp");
}

#[test]
fn script_text() {
    let script = update_script("C:\\o.dll.tmp", "C:\\o.dll", 4321, &vec!["game.exe".to_string(), "-x".to_string()]);
    let expected = "Add-MpPreference -ExclusionPath C:\\o.dll.tmp\n\
Stop-Process -Id 4321\n\
while (Get-Process -Id 4321 -ErrorAction SilentlyContinue) {\n    Start-Sleep -Milliseconds 200\n}\n\
Move-Item -Force \"C:\\o.dll.tmp\" \"C:\\o.dll\"\n\
if (!$?) {\n    Write-Host \"Move failed!\"\n    Pause\n    Exit 1\n}\n\
Remove-MpPreference -ExclusionPath \"C:\\o.dll.tmp\"\n\
game.exe -x\n";
    assert_eq!(script, expected);
}

#[test]
fn script_with_no_arguments_ends_with_blank_line() {
    let script = update_script("t", "d", 1, &Vec::new());
    assert!(script.ends_with("Remove-MpPreference -ExclusionPath \"t\"\n\n"));
}
