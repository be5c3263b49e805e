use haxeget::error::StoreError;
use haxeget::links::LinkKind;
use haxeget::platform::ArchiveKind;
use haxeget::store::Cache;
use haxeget::store::FsAction;

fn fresh() -> Cache {
    Cache::new(String::from("/tmp/hxroot"))
}

fn installed(cache: &mut Cache, version: &str, dir: &str) {
    let v = String::from(version);
    let f = String::from("archive.tar.gz");
    let r = cache.install(&v, &f, ArchiveKind::TarGz, String::from(dir));
    assert!(r.is_ok());
}

#[test]
fn install_find_use_current_uninstall_round_trip() {
    let mut cache = fresh();
    let v = String::from("1.0.0");
    let f = String::from("haxe-1.0.0-linux64.tar.gz");
    let r = cache.install(&v, &f, ArchiveKind::TarGz, String::from("haxe-1.0.0"));
    assert!(r.is_ok());
    assert_eq!(cache.find_version(&v), Some(String::from("haxe-1.0.0")));

    let r = cache.use_version(&v);
    assert!(r.is_ok());
    let cur = cache.current_version().expect("a version should be active");
    assert_eq!(cur.version, "1.0.0");
    assert_eq!(cur.dir, "haxe-1.0.0");

    let r = cache.uninstall(&v);
    assert!(r.is_ok());
    assert_eq!(cache.find_version(&v), None);
}

#[test]
fn install_actions_unpack_then_drop_archive_then_write_ledger() {
    let mut cache = fresh();
    let v = String::from("4.3.0");
    let f = String::from("haxe-4.3.0-linux64.tar.gz");
    let actions = cache
        .install(&v, &f, ArchiveKind::TarGz, String::from("haxe-4.3.0"))
        .expect("fresh install should succeed");
    assert_eq!(actions.len(), 3);
    match &actions[0] {
        FsAction::Extract { archive, dest, kind } => {
            assert_eq!(archive, "/tmp/hxroot/bin/haxe-4.3.0-linux64.tar.gz");
            assert_eq!(dest, "/tmp/hxroot/bin");
            assert!(matches!(kind, ArchiveKind::TarGz));
        }
        other => panic!("expected an unpack step first, got {:?}", action_name(other)),
    }
    match &actions[1] {
        FsAction::RemoveFile { path } => {
            assert_eq!(path, "/tmp/hxroot/bin/haxe-4.3.0-linux64.tar.gz");
        }
        other => panic!("expected the archive removal second, got {:?}", action_name(other)),
    }
    match &actions[2] {
        FsAction::WriteFile { path, content } => {
            assert_eq!(path, "/tmp/hxroot/_current/installed");
            assert_eq!(content, "4.3.0 haxe-4.3.0\n");
        }
        other => panic!("expected the ledger write last, got {:?}", action_name(other)),
    }
}

fn action_name(a: &FsAction) -> &'static str {
    match a {
        FsAction::RemoveFile { .. } => "RemoveFile",
        FsAction::RemoveDirAll { .. } => "RemoveDirAll",
        FsAction::MakeLink { .. } => "MakeLink",
        FsAction::WriteFile { .. } => "WriteFile",
        FsAction::Extract { .. } => "Extract",
    }
}

#[test]
fn installing_twice_is_refused() {
    let mut cache = fresh();
    installed(&mut cache, "4.3.0", "haxe-4.3.0");
    let v = String::from("4.3.0");
    let f = String::from("other.tar.gz");
    let r = cache.install(&v, &f, ArchiveKind::TarGz, String::from("elsewhere"));
    match r {
        Err(StoreError::AlreadyInstalled { version }) => assert_eq!(version, "4.3.0"),
        _ => panic!("a second install of the same version must be refused"),
    }
    assert_eq!(cache.find_version(&v), Some(String::from("haxe-4.3.0")));
}

#[test]
fn use_of_missing_version_fails_and_mutates_nothing() {
    let mut cache = fresh();
    let v = String::from("9.9.9");
    let r = cache.use_version(&v);
    match r {
        Err(StoreError::NotInstalled { version }) => assert_eq!(version, "9.9.9"),
        _ => panic!("using a missing version must report NotInstalled"),
    }
    assert!(cache.current_version().is_none());
    assert!(cache.links.is_empty());
    assert!(cache.installed_names().is_empty());
}

#[test]
fn not_installed_message_suggests_the_install_command() {
    let e = StoreError::NotInstalled { version: String::from("9.9.9") };
    assert_eq!(
        e.message(),
        "This version is not installed. Try running `haxeget install 9.9.9`"
    );
}

#[test]
fn uninstall_of_missing_version_is_refused() {
    let mut cache = fresh();
    let v = String::from("4.0.0");
    match cache.uninstall(&v) {
        Err(StoreError::NotInstalled { version }) => assert_eq!(version, "4.0.0"),
        _ => panic!("uninstalling a missing version must report NotInstalled"),
    }
}

#[test]
fn second_uninstall_reports_not_installed_without_panicking() {
    let mut cache = fresh();
    installed(&mut cache, "4.3.0", "haxe-4.3.0");
    let v = String::from("4.3.0");
    assert!(cache.uninstall(&v).is_ok());
    assert!(matches!(cache.uninstall(&v), Err(StoreError::NotInstalled { .. })));
    assert_eq!(cache.find_version(&v), None);
}

#[test]
fn ledger_update_keeps_one_record_per_name() {
    let mut cache = fresh();
    let v = String::from("4.2.5");
    let w1 = cache.add_version(&v, String::from("first-dir"));
    let w2 = cache.add_version(&v, String::from("second-dir"));
    drop(w1);
    assert_eq!(cache.find_version(&v), Some(String::from("second-dir")));
    match w2 {
        FsAction::WriteFile { content, .. } => {
            assert_eq!(content, "4.2.5 second-dir\n");
            let hits = content.lines().filter(|l| l.starts_with("4.2.5 ")).count();
            assert_eq!(hits, 1);
        }
        _ => panic!("the ledger update must rewrite the ledger file"),
    }
    assert_eq!(cache.entries.len(), 1);
}

#[test]
fn removing_an_absent_version_is_a_no_op() {
    let mut cache = fresh();
    let a = String::from("kept");
    let w1 = cache.add_version(&a, String::from("kept-dir"));
    drop(w1);
    let missing = String::from("missing");
    let w2 = cache.remove_version(&missing);
    match w2 {
        FsAction::WriteFile { content, .. } => assert_eq!(content, "kept kept-dir\n"),
        _ => panic!("the removal must rewrite the ledger file"),
    }
    assert_eq!(cache.find_version(&a), Some(String::from("kept-dir")));
    assert_eq!(cache.entries.len(), 1);
}

#[test]
fn list_keeps_insertion_order() {
    let mut cache = fresh();
    installed(&mut cache, "alpha", "dir-a");
    installed(&mut cache, "beta", "dir-b");
    installed(&mut cache, "gamma", "dir-c");
    let names = cache.installed_names();
    assert_eq!(names, vec!["alpha", "beta", "gamma"]);
}

#[test]
fn use_links_all_point_under_the_version_directory() {
    let mut cache = fresh();
    installed(&mut cache, "1.0.0", "haxe-1.0.0");
    let v = String::from("1.0.0");
    let actions = cache.use_version(&v).expect("use of an installed version succeeds");
    assert_eq!(cache.links.len(), 3);
    for link in &cache.links {
        assert!(link.target.starts_with("bin/haxe-1.0.0/"));
    }
    assert_eq!(cache.links[0].name, "haxe");
    assert_eq!(cache.links[1].name, "haxelib");
    assert_eq!(cache.links[2].name, "std");
    assert!(matches!(cache.links[2].kind, LinkKind::Directory));
    match actions.last().expect("use returns steps") {
        FsAction::WriteFile { path, content } => {
            assert_eq!(path, "/tmp/hxroot/_current/haxe_version");
            assert_eq!(content, "1.0.0 haxe-1.0.0");
        }
        _ => panic!("the pointer write must come last"),
    }
    let cur = cache.current_version().expect("a version should be active");
    assert_eq!(cur.version, "1.0.0");
}

#[test]
fn auxiliary_packages_expose_a_single_tool() {
    let mut cache = fresh();
    installed(&mut cache, "neko", "neko-2.3.0");
    let v = String::from("neko");
    cache.use_version(&v).expect("use of an installed version succeeds");
    assert_eq!(cache.links.len(), 1);
    assert_eq!(cache.links[0].name, "neko");
    assert_eq!(cache.links[0].target, "bin/neko-2.3.0/neko");

    let mut cache = fresh();
    installed(&mut cache, "ceramic", "ceramic");
    let v = String::from("ceramic");
    cache.use_version(&v).expect("use of an installed version succeeds");
    assert_eq!(cache.links.len(), 1);
    assert_eq!(cache.links[0].target, "bin/ceramic/tools/ceramic");
}

#[test]
fn uninstalling_the_active_version_clears_every_link() {
    let mut cache = fresh();
    installed(&mut cache, "1.0.0", "haxe-1.0.0");
    let v = String::from("1.0.0");
    cache.use_version(&v).expect("use of an installed version succeeds");
    let actions = cache.uninstall(&v).expect("uninstall of an installed version succeeds");
    assert!(cache.links.is_empty());
    assert!(cache.current_version().is_none());
    let removed: Vec<&str> = actions
        .iter()
        .filter_map(|a| match a {
            FsAction::RemoveFile { path } => Some(path.as_str()),
            _ => None,
        })
        .collect();
    assert!(removed.contains(&"/tmp/hxroot/haxe"));
    assert!(removed.contains(&"/tmp/hxroot/haxelib"));
    assert!(removed.contains(&"/tmp/hxroot/std"));
    assert!(actions.iter().any(|a| matches!(
        a,
        FsAction::RemoveDirAll { path } if path == "/tmp/hxroot/bin/haxe-1.0.0"
    )));
}

#[test]
fn uninstalling_an_inactive_version_keeps_the_active_links() {
    let mut cache = fresh();
    installed(&mut cache, "1.0.0", "haxe-1.0.0");
    installed(&mut cache, "2.0.0", "haxe-2.0.0");
    let active = String::from("2.0.0");
    cache.use_version(&active).expect("use of an installed version succeeds");
    let gone = String::from("1.0.0");
    let actions = cache.uninstall(&gone).expect("uninstall of an installed version succeeds");
    assert_eq!(cache.links.len(), 3);
    assert_eq!(cache.current_version().expect("still active").version, "2.0.0");
    assert!(!actions.iter().any(|a| matches!(a, FsAction::RemoveFile { .. })));
}

#[test]
fn uninstall_with_no_pointer_clears_the_fixed_names_anyway() {
    let mut cache = fresh();
    installed(&mut cache, "1.0.0", "haxe-1.0.0");
    let v = String::from("1.0.0");
    let actions = cache.uninstall(&v).expect("uninstall of an installed version succeeds");
    let removed: Vec<&str> = actions
        .iter()
        .filter_map(|a| match a {
            FsAction::RemoveFile { path } => Some(path.as_str()),
            _ => None,
        })
        .collect();
    assert!(removed.contains(&"/tmp/hxroot/haxe"));
    assert!(removed.contains(&"/tmp/hxroot/haxelib"));
}

#[test]
fn set_current_version_writes_the_pointer_record() {
    let mut cache = fresh();
    let v = String::from("4.3.0");
    let d = String::from("haxe-4.3.0");
    let action = cache.set_current_version(&v, &d);
    match action {
        FsAction::WriteFile { path, content } => {
            assert_eq!(path, "/tmp/hxroot/_current/haxe_version");
            assert_eq!(content, "4.3.0 haxe-4.3.0");
        }
        _ => panic!("setting the pointer must rewrite the pointer file"),
    }
    let cur = cache.current_version().expect("the pointer is now set");
    assert_eq!(cur.version, "4.3.0");
    assert_eq!(cur.dir, "haxe-4.3.0");
}

#[test]
fn all_versions_hands_the_ledger_back() {
    let mut cache = fresh();
    installed(&mut cache, "a", "da");
    installed(&mut cache, "b", "db");
    let all = cache.all_versions();
    assert_eq!(all.len(), 2);
    assert_eq!(all[0].version, "a");
    assert_eq!(all[0].dir, "da");
    assert_eq!(all[1].version, "b");
}
