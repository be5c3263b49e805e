use haxeget::error::StoreError;
use haxeget::platform::Arch;
use haxeget::platform::ArchiveKind;
use haxeget::platform::Os;
use haxeget::platform::Platform;
use haxeget::platform::archive_kind;
use haxeget::platform::get_ceramic_archive;
use haxeget::platform::get_directory_name;
use haxeget::platform::get_file_name;
use haxeget::platform::get_haxe_archive;
use haxeget::platform::get_haxeget_archive;
use haxeget::platform::get_neko_archive;
use haxeget::platform::get_path;
use haxeget::platform::get_sys_name;
use haxeget::platform::get_tarball_name;
use haxeget::platform::get_windows_system_drive;
use haxeget::text::check_token;
use haxeget::text::str_eq;

fn linux() -> Platform {
    Platform { os: Os::Linux, arch: Arch::X86_64 }
}

fn mac() -> Platform {
    Platform { os: Os::Mac, arch: Arch::X86_64 }
}

fn windows() -> Platform {
    Platform { os: Os::Windows, arch: Arch::X86_64 }
}

fn windows32() -> Platform {
    Platform { os: Os::Windows, arch: Arch::Other }
}

fn odd() -> Platform {
    Platform { os: Os::Linux, arch: Arch::Other }
}

#[test]
fn release_file_names_follow_the_platform() {
    assert_eq!(get_file_name(linux(), "4.3.0").unwrap(), "haxe-4.3.0-linux64.tar.gz");
    assert_eq!(get_file_name(mac(), "4.3.0").unwrap(), "haxe-4.3.0-osx.tar.gz");
    assert!(matches!(get_file_name(windows(), "4.3.0"), Err(StoreError::UnsupportedPlatform)));
    assert!(matches!(get_file_name(odd(), "4.3.0"), Err(StoreError::UnsupportedPlatform)));
    assert_eq!(get_tarball_name(linux(), "4.2.5").unwrap(), "haxe-4.2.5-linux64.tar.gz");
}

#[test]
fn archive_names_cover_nightly_and_tagged_releases() {
    assert_eq!(get_haxe_archive(linux(), "nightly").unwrap(), "haxe_latest.tar.gz");
    assert_eq!(get_haxe_archive(mac(), "nightly").unwrap(), "haxe_latest.tar.gz");
    assert_eq!(get_haxe_archive(windows(), "nightly").unwrap(), "haxe_latest.zip");
    assert_eq!(get_haxe_archive(linux(), "4.3.0").unwrap(), "haxe-4.3.0-linux64.tar.gz");
    assert_eq!(get_haxe_archive(mac(), "4.3.0").unwrap(), "haxe-4.3.0-osx.tar.gz");
    assert_eq!(get_haxe_archive(windows(), "4.3.0").unwrap(), "haxe-4.3.0-win64.zip");
    assert_eq!(get_haxe_archive(windows32(), "4.3.0").unwrap(), "haxe-4.3.0-win.zip");
    assert!(matches!(get_haxe_archive(odd(), "4.3.0"), Err(StoreError::UnsupportedPlatform)));
}

#[test]
fn build_server_names_follow_the_platform() {
    assert_eq!(get_sys_name(linux()).unwrap(), "linux64");
    assert_eq!(get_sys_name(mac()).unwrap(), "mac");
    assert_eq!(get_sys_name(windows()).unwrap(), "windows64");
    assert_eq!(get_sys_name(windows32()).unwrap(), "windows");
    assert!(matches!(get_sys_name(odd()), Err(StoreError::UnsupportedPlatform)));
}

#[test]
fn auxiliary_archive_names() {
    assert_eq!(get_ceramic_archive(linux()).unwrap(), "ceramic-linux.zip");
    assert_eq!(get_ceramic_archive(mac()).unwrap(), "ceramic-mac.zip");
    assert_eq!(get_ceramic_archive(windows()).unwrap(), "ceramic-windows.zip");
    assert!(matches!(get_ceramic_archive(windows32()), Err(StoreError::UnsupportedPlatform)));
    assert_eq!(get_haxeget_archive(linux()).unwrap(), "haxeget-x86_64-unknown-linux-gnu.tar.gz");
    assert_eq!(get_haxeget_archive(mac()).unwrap(), "haxeget-x86_64-apple-darwin.tar.gz");
    assert!(matches!(get_haxeget_archive(windows()), Err(StoreError::UnsupportedPlatform)));
    assert_eq!(get_neko_archive(linux()).unwrap(), "neko_latest.tar.gz");
    assert_eq!(get_neko_archive(windows32()).unwrap(), "neko_latest.zip");
}

#[test]
fn windows_gets_zip_archives() {
    assert!(matches!(archive_kind(windows()), ArchiveKind::Zip));
    assert!(matches!(archive_kind(linux()), ArchiveKind::TarGz));
    assert!(matches!(archive_kind(mac()), ArchiveKind::TarGz));
}

#[test]
fn the_system_drive_is_cut_at_the_first_separator() {
    assert_eq!(get_windows_system_drive("C:\\Windows"), "C:\\");
    assert_eq!(get_windows_system_drive("D:\\"), "D:\\");
    assert_eq!(get_windows_system_drive("nodrives"), "nodrives:\\");
    assert_eq!(get_windows_system_drive(""), ":\\");
}

#[test]
fn the_store_root_follows_platform_and_environment() {
    let home = "/home/someone";
    let xdg = String::from("/home/someone/bins");
    assert_eq!(get_path(linux(), home, Some(&xdg), None).unwrap(), "/home/someone/bins/haxeget");
    assert_eq!(get_path(linux(), home, None, None).unwrap(), "/home/someone/.local/bin/haxeget");
    assert_eq!(get_path(mac(), home, None, None).unwrap(), "/home/someone/.haxeget");
    let sys_root = String::from("C:\\Windows");
    assert_eq!(get_path(windows(), "", None, Some(&sys_root)).unwrap(), "C:\\.haxeget");
    assert!(matches!(get_path(odd(), home, None, None), Err(StoreError::UnsupportedPlatform)));
}

#[test]
fn the_alternative_root_derivation() {
    let home = "/home/someone";
    assert_eq!(
        get_directory_name(linux(), home, None).unwrap(),
        "/home/someone/.local/bin/haxeget"
    );
    assert_eq!(get_directory_name(mac(), home, None).unwrap(), "/home/someone/.haxeget");
    assert!(matches!(
        get_directory_name(windows(), home, None),
        Err(StoreError::UnsupportedPlatform)
    ));
}

#[test]
fn a_missing_system_root_is_reported_not_assumed() {
    assert!(matches!(
        get_path(windows(), "", None, None),
        Err(StoreError::UnsupportedPlatform)
    ));
}

#[test]
fn error_messages_carry_their_context() {
    assert_eq!(
        StoreError::UnsupportedPlatform.message(),
        "Your operating system and/or architecture is unsupported"
    );
    assert_eq!(
        StoreError::AlreadyInstalled { version: String::from("4.3.0") }.message(),
        "The specified version is already installed: 4.3.0"
    );
    assert_eq!(
        StoreError::VersionNotFound { version: String::from("4.9.9") }.message(),
        "The specified version was not found: 4.9.9"
    );
    assert_eq!(
        StoreError::LinkCreationFailed {
            target: String::from("bin/haxe-4.3.0/haxe"),
            link: String::from("haxe"),
        }
        .message(),
        "I was unable to create a symlink from bin/haxe-4.3.0/haxe to haxe"
    );
    assert_eq!(
        StoreError::CorruptState { path: String::from("p") }.message(),
        "Found a corrupt state file at p"
    );
    assert_eq!(
        StoreError::IOFailure { path: String::from("q") }.message(),
        "A filesystem operation failed on q"
    );
}

#[test]
fn token_and_equality_helpers() {
    assert!(check_token("haxe-4.3.0"));
    assert!(!check_token(""));
    assert!(!check_token("a b"));
    assert!(!check_token("a\tb"));
    assert!(!check_token("a\nb"));
    assert!(str_eq("same", "same"));
    assert!(!str_eq("same", "sane"));
    assert!(!str_eq("same", "sameer"));
}
