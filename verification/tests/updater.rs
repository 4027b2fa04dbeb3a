use howlingwind::updater::{entry_relative_path, is_newer, parse_version, top_level_prefix, update_check_result, UpdateInfo};

#[test]
fn test_version_comparison() {
    assert!(is_newer("0.1.0", "0.2.0"));
    assert!(is_newer("0.1.0", "0.1.1"));
    assert!(is_newer("0.1.0", "1.0.0"));
    assert!(!is_newer("0.2.0", "0.1.0"));
    assert!(!is_newer("0.1.0", "0.1.0"));
    assert!(!is_newer("1.0.0", "0.9.9"));
}

#[test]
fn version_prefix_and_junk_pieces() {
    assert_eq!(parse_version("vv1.x.3"), vec![1, 3]);
    assert_eq!(parse_version("+2.10"), vec![2, 10]);
    assert_eq!(parse_version(""), Vec::<u32>::new());
    assert_eq!(parse_version("4294967296.1"), vec![1]);
    assert!(is_newer("v1.2", "1.2.1"));
    assert!(!is_newer("1.2.3.9", "1.2.3"));
}

#[test]
fn update_result_without_feed() {
    let r = update_check_result("0.1.0", None);
    assert_eq!(r.latest_version, "0.1.0");
    assert!(!r.update_available);
    assert_eq!(r.download_url, "");
}

#[test]
fn update_result_with_newer_feed() {
    let info = UpdateInfo { version: "0.2.0".to_string(), url: "u".to_string(), notes: "n".to_string() };
    let r = update_check_result("0.1.0", Some(info));
    assert!(r.update_available);
    assert_eq!(r.latest_version, "0.2.0");
    assert_eq!(r.download_url, "u");
    assert_eq!(r.notes, "n");
}

#[test]
fn archive_prefix_is_stripped() {
    let p = top_level_prefix(Some("HowlingWind\\bin\\app.exe"));
    assert_eq!(p, "HowlingWind/");
    assert_eq!(entry_relative_path("HowlingWind\\bin\\app.exe", &p), "bin/app.exe");
    assert_eq!(entry_relative_path("HowlingWind/", &p), "");
    assert_eq!(entry_relative_path("other/x", &p), "other/x");
    assert_eq!(top_level_prefix(Some("flat.txt")), "");
    assert_eq!(top_level_prefix(None), "");
}

#[test]
fn update_script_text() {
    let staging = r"C:\HW\_update_staging";
    let app_dir = r"C:\HW";
    let exe = r"C:\HW\HowlingWind.exe";
    let expected = format!(
        r#"@echo off
title HowlingWind Updater
echo Applying update...
:: Wait for the app to close
:wait
tasklist /FI "PID eq %1" 2>NUL | find /I "%1" >NUL
if not errorlevel 1 (
    timeout /t 1 /nobreak >NUL
    goto wait
)
:: Copy staging files over app directory (skip games folder to preserve user ISOs)
for %%F in ("{staging}\*") do (
    if not "%%~nxF"=="games" (
        copy /Y "%%F" "{app_dir}\" >NUL 2>&1
    )
)
:: Copy subdirectories except games
for /D %%D in ("{staging}\*") do (
    if /I not "%%~nxD"=="games" (
        xcopy /E /Y /Q "%%D" "{app_dir}\%%~nxD\" >NUL 2>&1
    )
)
:: Ensure games directory exists but don't overwrite ISOs
if not exist "{app_dir}\games" mkdir "{app_dir}\games"
:: Clean up
rmdir /S /Q "{staging}" >NUL 2>&1
:: Relaunch
start "" "{exe}"
:: Delete this batch file
del "%~f0"
"#,
        staging = staging,
        app_dir = app_dir,
        exe = exe,
    );
    assert_eq!(howlingwind::updater::update_script(staging, app_dir, exe), expected);
}
