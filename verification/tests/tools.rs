use payload_dump_bot::tool::{
    ensure_plan, plan_fetch, AcquisitionError, Basis, EnsureAction, Tool, ToolManager, KSUD,
    MAGISKBOOT,
};

fn linux_x86() -> Basis {
    Basis::resolve("linux", "x86_64").expect("supported platform")
}

#[test]
fn unsupported_platforms_are_refused() {
    assert!(Basis::resolve("windows", "x86_64").is_err());
    assert!(Basis::resolve("linux", "riscv64").is_err());
    assert!(Basis::resolve("", "").is_err());
    assert!(Basis::resolve("android", "aarch64").is_ok());
}

#[test]
fn tool_paths_are_deterministic() {
    let tm = ToolManager::from_basis(linux_x86());
    assert_eq!(tm.get_ksud().get(), "bin/linux/x86_64/ksud");
    assert_eq!(tm.get_magiskboot().get(), "bin/linux/x86_64/magiskboot");
    assert_eq!(tm.get_ksud().get_name(), "ksud");
    assert_eq!(tm.get_magiskboot().get_name(), "magiskboot");

    // Re-deriving the layout yields the same path.
    let again = ToolManager::from_basis(linux_x86());
    assert_eq!(tm.get_ksud().get(), again.get_ksud().get());

    // Another platform yields that platform's paths, not a fixed one.
    let arm = ToolManager::from_basis(Basis::resolve("android", "aarch64").unwrap());
    assert_eq!(arm.get_ksud().get(), "bin/android/aarch64/ksud");
    assert_eq!(arm.get_magiskboot().get(), "bin/android/aarch64/magiskboot");
}

#[test]
fn release_endpoints_are_fixed() {
    let tm = ToolManager::from_basis(linux_x86());
    assert_eq!(
        tm.get_ksud().release_url(),
        "https://api.github.com/repos/tiann/KernelSU/releases/latest"
    );
    assert_eq!(
        tm.get_magiskboot().release_url(),
        "https://api.github.com/repos/topjohnwu/Magisk/releases/latest"
    );
}

#[test]
fn ksud_asset_is_matched_exactly() {
    let ksud = <KSUD as Tool>::from(linux_x86());
    assert!(ksud.asset_matches("ksud-x86_64-unknown-linux-musl"));
    assert!(!ksud.asset_matches("ksud-aarch64-unknown-linux-musl"));
    assert!(!ksud.asset_matches("ksud-x86_64-unknown-linux-musl.zip"));

    let android = Basis::resolve("android", "aarch64").unwrap();
    let ksud = <KSUD as Tool>::from(android);
    assert!(ksud.asset_matches("ksud-aarch64-linux-android"));
}

#[test]
fn magiskboot_asset_is_matched_by_prefix() {
    let mb = <MAGISKBOOT as Tool>::from(linux_x86());
    assert!(mb.asset_matches("Magisk-v27.0.apk"));
    assert!(mb.asset_matches("Magisk-v"));
    assert!(!mb.asset_matches("Magisk-26.apk"));
    assert!(!mb.asset_matches("magisk-v27.0.apk"));
    assert!(!mb.asset_matches("app.apk"));
}

#[test]
fn magiskboot_member_follows_the_architecture() {
    let mb = <MAGISKBOOT as Tool>::from(linux_x86());
    assert_eq!(mb.zip_member_name(), "lib/x86_64/libmagiskboot.so");
    let arm = Basis::resolve("android", "aarch64").unwrap();
    let mb = <MAGISKBOOT as Tool>::from(arm);
    assert_eq!(mb.zip_member_name(), "lib/arm64-v8a/libmagiskboot.so");
}

fn fake_magisk_zip(member: &str, content: &[u8]) -> Vec<u8> {
    let mut w = zip::ZipWriter::new(std::io::Cursor::new(Vec::new()));
    let options: zip::write::SimpleFileOptions = Default::default();
    w.start_file(member, options).unwrap();
    std::io::Write::write_all(&mut w, content).unwrap();
    w.finish().unwrap().into_inner()
}

#[test]
fn magiskboot_postprocess_extracts_the_member() {
    let mb = <MAGISKBOOT as Tool>::from(linux_x86());
    let archive = fake_magisk_zip("lib/x86_64/libmagiskboot.so", b"ELF-ish bytes");
    let out = mb.postprocess(archive.clone()).expect("member present");
    assert_eq!(out, b"ELF-ish bytes");
    assert_ne!(out, archive);
}

#[test]
fn magiskboot_postprocess_fails_without_the_member() {
    let mb = <MAGISKBOOT as Tool>::from(linux_x86());
    let archive = fake_magisk_zip("lib/armeabi-v7a/libmagiskboot.so", b"wrong arch");
    let err = mb.postprocess(archive).unwrap_err();
    assert!(matches!(err, AcquisitionError::ArchiveMemberNotFoundError));
}

#[test]
fn ksud_postprocess_keeps_the_bytes() {
    let ksud = <KSUD as Tool>::from(linux_x86());
    let out = ksud.postprocess(b"raw binary".to_vec()).unwrap();
    assert_eq!(out, b"raw binary");
}

const KSUD_RELEASE: &str = r#"{
  "tag_name": "v1.0.0",
  "assets": [
    {"name": "ksud-aarch64-linux-android", "browser_download_url": "https://host/a"},
    {"name": "ksud-x86_64-unknown-linux-musl", "browser_download_url": "https://host/b"},
    {"name": "ksud-x86_64-unknown-linux-musl", "browser_download_url": "https://host/dup"}
  ]
}"#;

#[test]
fn the_first_matching_asset_wins() {
    let ksud = <KSUD as Tool>::from(linux_x86());
    let (name, url) = plan_fetch(&ksud, KSUD_RELEASE).expect("an asset matches");
    assert_eq!(name, "ksud-x86_64-unknown-linux-musl");
    assert_eq!(url, "https://host/b");
}

#[test]
fn zero_matching_assets_fail_with_asset_not_found() {
    let mb = <MAGISKBOOT as Tool>::from(linux_x86());
    let err = plan_fetch(&mb, KSUD_RELEASE).unwrap_err();
    assert!(matches!(err, AcquisitionError::AssetNotFoundError));
    let empty = r#"{"assets": []}"#;
    let err = plan_fetch(&mb, empty).unwrap_err();
    assert!(matches!(err, AcquisitionError::AssetNotFoundError));
}

#[test]
fn malformed_release_answers_fail_the_fetch() {
    let ksud = <KSUD as Tool>::from(linux_x86());
    let err = plan_fetch(&ksud, "surely not json").unwrap_err();
    assert!(matches!(err, AcquisitionError::ReleaseFetchError(_)));
    let err = plan_fetch(&ksud, r#"{"no_assets": 1}"#).unwrap_err();
    assert!(matches!(err, AcquisitionError::ReleaseFetchError(_)));
}

#[test]
fn matched_asset_without_address_cannot_be_downloaded() {
    let ksud = <KSUD as Tool>::from(linux_x86());
    let json = r#"{"assets": [{"name": "ksud-x86_64-unknown-linux-musl"}]}"#;
    let err = plan_fetch(&ksud, json).unwrap_err();
    assert!(matches!(err, AcquisitionError::DownloadError(_)));
}

#[test]
fn ensure_present_fetches_at_most_once() {
    // The tool is absent: the first round fetches, and once that fetch
    // has succeeded the file exists, so the second round checks and
    // stops.
    let mut fetches = 0;
    let mut exists = false;
    for _ in 0..2 {
        match ensure_plan(exists) {
            EnsureAction::Fetch => {
                fetches += 1;
                exists = true;
            }
            EnsureAction::AlreadyPresent => {}
        }
    }
    assert_eq!(fetches, 1);

    // The tool is already cached: no round fetches.
    let mut fetches = 0;
    for _ in 0..2 {
        if matches!(ensure_plan(true), EnsureAction::Fetch) {
            fetches += 1;
        }
    }
    assert_eq!(fetches, 0);
}
