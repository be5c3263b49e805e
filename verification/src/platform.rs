//! Platform identity and the names derived from it: release archive file
//! names and the store root directory. All choices that depend on the
//! operating system or the CPU architecture are collected here.
use crate::error::StoreError;
use crate::text::str_eq;
use vstd::prelude::*;

verus! {

#[derive(Clone, Copy, PartialEq, Eq, Structural)]
pub enum Os {
    Linux,
    Mac,
    Windows,
}

#[derive(Clone, Copy, PartialEq, Eq, Structural)]
pub enum Arch {
    X86_64,
    Other,
}

/// The target the running process was built for.
#[derive(Clone, Copy, PartialEq, Eq, Structural)]
pub struct Platform {
    pub os: Os,
    pub arch: Arch,
}

/// How a release archive for a platform is packed.
#[derive(Clone, Copy, PartialEq, Eq, Structural)]
pub enum ArchiveKind {
    TarGz,
    Zip,
}

/// Windows releases are zip archives; every other platform gets tar+gzip.
pub fn archive_kind(p: Platform) -> (r: ArchiveKind)
    ensures
        r is Zip <==> p.os is Windows,
{
    if p.os == Os::Windows {
        ArchiveKind::Zip
    } else {
        ArchiveKind::TarGz
    }
}

/// The archive file name of a tagged release, for the platforms whose
/// archives carry the version in the name.
pub fn get_file_name(p: Platform, version: &str) -> (r: Result<String, StoreError>)
    ensures
        p.os is Linux && p.arch is X86_64 ==> (r matches Ok(f) && f@ == "haxe-"@ + version@
            + "-linux64.tar.gz"@),
        p.os is Mac ==> (r matches Ok(f) && f@ == "haxe-"@ + version@ + "-osx.tar.gz"@),
        !(p.os is Linux && p.arch is X86_64) && !(p.os is Mac) ==> (r matches Err(e)
            && e is UnsupportedPlatform),
{
    let mut file_name = String::from_str("haxe-");
    file_name.append(version);
    if p.os == Os::Linux && p.arch == Arch::X86_64 {
        file_name.append("-linux64.tar.gz");
        Ok(file_name)
    } else if p.os == Os::Mac {
        file_name.append("-osx.tar.gz");
        Ok(file_name)
    } else {
        Err(StoreError::UnsupportedPlatform)
    }
}

/// The tarball name of a tagged release; identical derivation to
/// [`get_file_name`], kept for the download side.
pub fn get_tarball_name(p: Platform, version: &str) -> (r: Result<String, StoreError>)
    ensures
        p.os is Linux && p.arch is X86_64 ==> (r matches Ok(f) && f@ == "haxe-"@ + version@
            + "-linux64.tar.gz"@),
        p.os is Mac ==> (r matches Ok(f) && f@ == "haxe-"@ + version@ + "-osx.tar.gz"@),
        !(p.os is Linux && p.arch is X86_64) && !(p.os is Mac) ==> (r matches Err(e)
            && e is UnsupportedPlatform),
{
    get_file_name(p, version)
}

/// The archive file name of a compiler release: the rolling "nightly"
/// channel has a fixed name, a tagged release carries its version.
pub fn get_haxe_archive(p: Platform, version: &str) -> (r: Result<String, StoreError>)
    ensures
        version@ == "nightly"@ ==> {
            &&& (p.os is Linux && p.arch is X86_64) || p.os is Mac ==> (r matches Ok(f) && f@
                == "haxe_latest.tar.gz"@)
            &&& p.os is Windows ==> (r matches Ok(f) && f@ == "haxe_latest.zip"@)
        },
        version@ != "nightly"@ ==> {
            &&& p.os is Linux && p.arch is X86_64 ==> (r matches Ok(f) && f@ == "haxe-"@ + version@
                + "-linux64.tar.gz"@)
            &&& p.os is Mac ==> (r matches Ok(f) && f@ == "haxe-"@ + version@ + "-osx.tar.gz"@)
            &&& p.os is Windows && p.arch is X86_64 ==> (r matches Ok(f) && f@ == "haxe-"@
                + version@ + "-win64.zip"@)
            &&& p.os is Windows && !(p.arch is X86_64) ==> (r matches Ok(f) && f@ == "haxe-"@
                + version@ + "-win.zip"@)
        },
        !(p.os is Linux && p.arch is X86_64) && !(p.os is Mac) && !(p.os is Windows) ==> (
        r matches Err(e) && e is UnsupportedPlatform),
{
    if str_eq(version, "nightly") {
        if (p.os == Os::Linux && p.arch == Arch::X86_64) || p.os == Os::Mac {
            Ok(String::from_str("haxe_latest.tar.gz"))
        } else if p.os == Os::Windows {
            Ok(String::from_str("haxe_latest.zip"))
        } else {
            Err(StoreError::UnsupportedPlatform)
        }
    } else {
        let mut file_name = String::from_str("haxe-");
        file_name.append(version);
        if p.os == Os::Linux && p.arch == Arch::X86_64 {
            file_name.append("-linux64.tar.gz");
            Ok(file_name)
        } else if p.os == Os::Mac {
            file_name.append("-osx.tar.gz");
            Ok(file_name)
        } else if p.os == Os::Windows && p.arch == Arch::X86_64 {
            file_name.append("-win64.zip");
            Ok(file_name)
        } else if p.os == Os::Windows {
            file_name.append("-win.zip");
            Ok(file_name)
        } else {
            Err(StoreError::UnsupportedPlatform)
        }
    }
}

/// The platform identifier the nightly build server uses in its paths.
pub fn get_sys_name(p: Platform) -> (r: Result<String, StoreError>)
    ensures
        p.os is Linux && p.arch is X86_64 ==> (r matches Ok(s) && s@ == "linux64"@),
        p.os is Mac ==> (r matches Ok(s) && s@ == "mac"@),
        p.os is Windows && p.arch is X86_64 ==> (r matches Ok(s) && s@ == "windows64"@),
        p.os is Windows && !(p.arch is X86_64) ==> (r matches Ok(s) && s@ == "windows"@),
        !(p.os is Linux && p.arch is X86_64) && !(p.os is Mac) && !(p.os is Windows) ==> (
        r matches Err(e) && e is UnsupportedPlatform),
{
    if p.os == Os::Linux && p.arch == Arch::X86_64 {
        Ok(String::from_str("linux64"))
    } else if p.os == Os::Mac {
        Ok(String::from_str("mac"))
    } else if p.os == Os::Windows && p.arch == Arch::X86_64 {
        Ok(String::from_str("windows64"))
    } else if p.os == Os::Windows {
        Ok(String::from_str("windows"))
    } else {
        Err(StoreError::UnsupportedPlatform)
    }
}

/// The archive name of the packaged auxiliary toolchain release.
pub fn get_ceramic_archive(p: Platform) -> (r: Result<String, StoreError>)
    ensures
        p.os is Linux && p.arch is X86_64 ==> (r matches Ok(s) && s@ == "ceramic-linux.zip"@),
        p.os is Mac && p.arch is X86_64 ==> (r matches Ok(s) && s@ == "ceramic-mac.zip"@),
        p.os is Windows && p.arch is X86_64 ==> (r matches Ok(s) && s@ == "ceramic-windows.zip"@),
        !(p.arch is X86_64) ==> (r matches Err(e) && e is UnsupportedPlatform),
{
    if p.os == Os::Linux && p.arch == Arch::X86_64 {
        Ok(String::from_str("ceramic-linux.zip"))
    } else if p.os == Os::Mac && p.arch == Arch::X86_64 {
        Ok(String::from_str("ceramic-mac.zip"))
    } else if p.os == Os::Windows && p.arch == Arch::X86_64 {
        Ok(String::from_str("ceramic-windows.zip"))
    } else {
        Err(StoreError::UnsupportedPlatform)
    }
}

/// The archive name of this tool's own release, used by self-update.
pub fn get_haxeget_archive(p: Platform) -> (r: Result<String, StoreError>)
    ensures
        p.os is Linux && p.arch is X86_64 ==> (r matches Ok(s) && s@
            == "haxeget-x86_64-unknown-linux-gnu.tar.gz"@),
        p.os is Mac && p.arch is X86_64 ==> (r matches Ok(s) && s@
            == "haxeget-x86_64-apple-darwin.tar.gz"@),
        !(p.os is Linux && p.arch is X86_64) && !(p.os is Mac && p.arch is X86_64) ==> (
        r matches Err(e) && e is UnsupportedPlatform),
{
    if p.os == Os::Linux && p.arch == Arch::X86_64 {
        Ok(String::from_str("haxeget-x86_64-unknown-linux-gnu.tar.gz"))
    } else if p.os == Os::Mac && p.arch == Arch::X86_64 {
        Ok(String::from_str("haxeget-x86_64-apple-darwin.tar.gz"))
    } else {
        Err(StoreError::UnsupportedPlatform)
    }
}

/// The archive name of the latest runtime companion release.
pub fn get_neko_archive(p: Platform) -> (r: Result<String, StoreError>)
    ensures
        (p.os is Linux && p.arch is X86_64) || p.os is Mac ==> (r matches Ok(s) && s@
            == "neko_latest.tar.gz"@),
        p.os is Windows ==> (r matches Ok(s) && s@ == "neko_latest.zip"@),
        !(p.os is Linux && p.arch is X86_64) && !(p.os is Mac) && !(p.os is Windows) ==> (
        r matches Err(e) && e is UnsupportedPlatform),
{
    if (p.os == Os::Linux && p.arch == Arch::X86_64) || p.os == Os::Mac {
        Ok(String::from_str("neko_latest.tar.gz"))
    } else if p.os == Os::Windows {
        Ok(String::from_str("neko_latest.zip"))
    } else {
        Err(StoreError::UnsupportedPlatform)
    }
}

/// Index of the first `:\` pair in `s` at or after `i`, or `s.len()` when
/// there is none.
pub open spec fn drive_end(s: Seq<char>, i: int) -> int
    decreases s.len() - i,
{
    if i < 0 || i + 1 >= s.len() {
        s.len() as int
    } else if s[i] == ':' && s[i + 1] == '\\' {
        i
    } else {
        drive_end(s, i + 1)
    }
}

/// The drive prefix of a Windows system path: everything before the first
/// `:\`, with `:\` put back.
pub open spec fn spec_windows_drive(s: Seq<char>) -> Seq<char> {
    s.subrange(0, drive_end(s, 0)) + ":\\"@
}

proof fn lemma_drive_end_bounds(s: Seq<char>, i: int)
    requires
        0 <= i <= s.len(),
    ensures
        i <= drive_end(s, i) <= s.len(),
    decreases s.len() - i,
{
    if !(i < 0 || i + 1 >= s.len()) && !(s[i] == ':' && s[i + 1] == '\\') {
        lemma_drive_end_bounds(s, i + 1);
    }
}

/// The drive a Windows system root path lives on: the store root goes
/// directly under it.
pub fn get_windows_system_drive(sys_root: &str) -> (r: String)
    ensures
        r@ == spec_windows_drive(sys_root@),
{
    let n = sys_root.unicode_len();
    let mut i: usize = 0;
    loop
        invariant
            0 <= i <= n,
            n == sys_root@.len(),
            drive_end(sys_root@, 0) == drive_end(sys_root@, i as int),
        decreases n - i,
    {
        if n - i <= 1 {
            proof {
                lemma_drive_end_bounds(sys_root@, i as int);
            }
            let mut r = sys_root.substring_char(0, n).to_owned();
            r.append(":\\");
            proof {
                assert(sys_root@.subrange(0, n as int) =~= sys_root@);
                assert(drive_end(sys_root@, i as int) == n as int);
            }
            return r;
        }
        let c0 = sys_root.get_char(i);
        let c1 = sys_root.get_char(i + 1);
        if c0 == ':' && c1 == '\\' {
            let mut r = sys_root.substring_char(0, i).to_owned();
            r.append(":\\");
            return r;
        }
        i += 1;
    }
}

/// The store root directory, derived from the platform and the values of
/// the relevant environment variables. `home` is the user's home directory
/// (on Windows, the drive prefix of `system_root` stands in for it);
/// `xdg_bin_home` is the optional user override of the binary directory.
pub fn get_path(
    p: Platform,
    home: &str,
    xdg_bin_home: Option<&String>,
    system_root: Option<&String>,
) -> (r: Result<String, StoreError>)
    ensures
        p.os is Linux && p.arch is X86_64 ==> (r matches Ok(d) && d@ == (match xdg_bin_home {
            Some(x) => x@,
            None => home@ + "/.local/bin"@,
        }) + "/haxeget"@),
        !(p.os is Linux && p.arch is X86_64) && p.os is Mac ==> (r matches Ok(d) && d@ == home@
            + "/.haxeget"@),
        !(p.os is Linux && p.arch is X86_64) && p.os is Windows ==> (match system_root {
            Some(sr) => r matches Ok(d) && d@ == spec_windows_drive(sr@) + ".haxeget"@,
            None => r matches Err(e) && e is UnsupportedPlatform,
        }),
        !(p.os is Linux && p.arch is X86_64) && !(p.os is Mac) && !(p.os is Windows) ==> (
        r matches Err(e) && e is UnsupportedPlatform),
{
    if p.os == Os::Linux && p.arch == Arch::X86_64 {
        let mut d = match xdg_bin_home {
            Some(x) => x.clone(),
            None => {
                let mut d = home.to_owned();
                d.append("/.local/bin");
                d
            },
        };
        d.append("/haxeget");
        Ok(d)
    } else if p.os == Os::Mac {
        let mut d = home.to_owned();
        d.append("/.haxeget");
        Ok(d)
    } else if p.os == Os::Windows {
        let root = match system_root {
            Some(s) => s,
            None => {
                return Err(StoreError::UnsupportedPlatform);
            },
        };
        let mut d = get_windows_system_drive(root.as_str());
        d.append(".haxeget");
        Ok(d)
    } else {
        Err(StoreError::UnsupportedPlatform)
    }
}

/// An alternative store root derivation kept alongside [`get_path`]; it
/// serves the platforms without zip packaging, with the same per-OS
/// home-relative defaults.
pub fn get_directory_name(p: Platform, home: &str, xdg_bin_home: Option<&String>) -> (r: Result<
    String,
    StoreError,
>)
    ensures
        p.os is Linux && p.arch is X86_64 ==> (r matches Ok(d) && d@ == (match xdg_bin_home {
            Some(x) => x@,
            None => home@ + "/.local/bin"@,
        }) + "/haxeget"@),
        !(p.os is Linux && p.arch is X86_64) && p.os is Mac ==> (r matches Ok(d) && d@ == home@
            + "/.haxeget"@),
        !(p.os is Linux && p.arch is X86_64) && !(p.os is Mac) ==> (r matches Err(e)
            && e is UnsupportedPlatform),
{
    if p.os == Os::Linux && p.arch == Arch::X86_64 {
        let mut d = match xdg_bin_home {
            Some(x) => x.clone(),
            None => {
                let mut d = home.to_owned();
                d.append("/.local/bin");
                d
            },
        };
        d.append("/haxeget");
        Ok(d)
    } else if p.os == Os::Mac {
        let mut d = home.to_owned();
        d.append("/.haxeget");
        Ok(d)
    } else {
        Err(StoreError::UnsupportedPlatform)
    }
}

} // verus!
