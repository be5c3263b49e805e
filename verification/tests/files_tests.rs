use haxeget::error::StoreError;
use haxeget::files::PointerParse;
use haxeget::files::add_version_to_installed;
use haxeget::files::get_installed;
use haxeget::files::line_is_blank;
use haxeget::files::parse_installed;
use haxeget::files::parse_line_fields;
use haxeget::files::parse_pointer;
use haxeget::files::render_installed;
use haxeget::files::render_pointer_record;
use haxeget::store::Cache;

#[test]
fn parses_a_ledger_file_in_order() {
    let content = "4.3.0 haxe-4.3.0\nnightly haxe_latest\n";
    let (entries, malformed) = parse_installed(content);
    assert_eq!(malformed, 0);
    assert_eq!(entries.len(), 2);
    assert_eq!(entries[0].version, "4.3.0");
    assert_eq!(entries[0].dir, "haxe-4.3.0");
    assert_eq!(entries[1].version, "nightly");
    assert_eq!(entries[1].dir, "haxe_latest");
}

#[test]
fn a_malformed_line_is_skipped_but_never_truncates_the_rest() {
    let content = "4.3.0 haxe-4.3.0\nlonely\n4.2.5 haxe-4.2.5\n";
    let (entries, malformed) = parse_installed(content);
    assert_eq!(malformed, 1);
    assert_eq!(entries.len(), 2);
    assert_eq!(entries[0].version, "4.3.0");
    assert_eq!(entries[1].version, "4.2.5");
}

#[test]
fn blank_lines_are_no_corruption() {
    let content = "\n\n  \t \n4.3.0 haxe-4.3.0\n\n";
    let (entries, malformed) = parse_installed(content);
    assert_eq!(malformed, 0);
    assert_eq!(entries.len(), 1);
}

#[test]
fn a_missing_trailing_line_break_loses_nothing() {
    let (entries, malformed) = parse_installed("4.3.0 haxe-4.3.0");
    assert_eq!(malformed, 0);
    assert_eq!(entries.len(), 1);
    assert_eq!(entries[0].dir, "haxe-4.3.0");
}

#[test]
fn fields_survive_extra_separators() {
    let fields = parse_line_fields("  4.3.0 \t  haxe-4.3.0   trailing");
    let (v, d) = fields.expect("two fields are there");
    assert_eq!(v, "4.3.0");
    assert_eq!(d, "haxe-4.3.0");
    assert!(parse_line_fields("   ").is_none());
    assert!(parse_line_fields("one").is_none());
    assert!(line_is_blank(" \t "));
    assert!(!line_is_blank(" x "));
}

#[test]
fn rendering_and_parsing_are_inverse() {
    let content = "a da\nb db\nc dc\n";
    let (entries, _) = parse_installed(content);
    let rendered = render_installed(&entries);
    assert_eq!(rendered, content);
    let (again, malformed) = parse_installed(&rendered);
    assert_eq!(malformed, 0);
    assert_eq!(again.len(), entries.len());
    for (x, y) in entries.iter().zip(again.iter()) {
        assert_eq!(x.version, y.version);
        assert_eq!(x.dir, y.dir);
    }
}

#[test]
fn pointer_file_states_are_told_apart() {
    assert!(matches!(parse_pointer(""), PointerParse::Empty));
    assert!(matches!(parse_pointer("  \t "), PointerParse::Empty));
    match parse_pointer("4.3.0 haxe-4.3.0") {
        PointerParse::Record(v, d) => {
            assert_eq!(v, "4.3.0");
            assert_eq!(d, "haxe-4.3.0");
        }
        _ => panic!("a two-field pointer file is a record"),
    }
    assert!(matches!(parse_pointer("lonely"), PointerParse::Corrupt));
}

#[test]
fn pointer_round_trip() {
    let rendered = render_pointer_record("4.3.0", "haxe-4.3.0");
    assert_eq!(rendered, "4.3.0 haxe-4.3.0");
    match parse_pointer(&rendered) {
        PointerParse::Record(v, d) => {
            assert_eq!(v, "4.3.0");
            assert_eq!(d, "haxe-4.3.0");
        }
        _ => panic!("a rendered pointer record must read back"),
    }
}

#[test]
fn get_installed_reads_the_first_match_off_the_file() {
    let content = "4.3.0 haxe-4.3.0\nneko neko-2.3.0\n";
    let v = String::from("neko");
    assert_eq!(get_installed(content, &v), Some(String::from("neko-2.3.0")));
    let missing = String::from("5.0.0");
    assert_eq!(get_installed(content, &missing), None);
}

#[test]
fn the_file_level_update_replaces_and_keeps_the_name_unique() {
    let content = String::from("4.3.0 old-dir\nneko neko-2.3.0\n");
    let v = String::from("4.3.0");
    let updated = add_version_to_installed(&content, &v, String::from("new-dir"));
    assert_eq!(updated, "neko neko-2.3.0\n4.3.0 new-dir\n");
    assert_eq!(get_installed(&updated, &v), Some(String::from("new-dir")));
    let hits = updated.lines().filter(|l| l.starts_with("4.3.0 ")).count();
    assert_eq!(hits, 1);
}

#[test]
fn load_accepts_a_matching_pointer() {
    let (cache, malformed) = Cache::load(
        String::from("/tmp/hxroot"),
        "4.3.0 haxe-4.3.0\n",
        "4.3.0 haxe-4.3.0",
    )
    .expect("nothing is corrupt here");
    assert_eq!(malformed, 0);
    let cur = cache.current_version().expect("the pointer matches the ledger");
    assert_eq!(cur.version, "4.3.0");
    assert_eq!(cache.links.len(), 3);
}

#[test]
fn load_treats_a_stale_pointer_as_not_set() {
    let (cache, _) = Cache::load(
        String::from("/tmp/hxroot"),
        "4.3.0 haxe-4.3.0\n",
        "9.9.9 haxe-9.9.9",
    )
    .expect("a stale pointer is not corruption");
    assert!(cache.current_version().is_none());
    assert!(cache.links.is_empty());
}

#[test]
fn load_reports_a_one_field_pointer_as_corrupt() {
    let r = Cache::load(String::from("/tmp/hxroot"), "", "lonely");
    match r {
        Err(StoreError::CorruptState { path }) => {
            assert_eq!(path, "/tmp/hxroot/_current/haxe_version");
        }
        _ => panic!("a pointer file with one field is corruption"),
    }
}

#[test]
fn load_counts_malformed_ledger_lines() {
    let (cache, malformed) =
        Cache::load(String::from("/tmp/hxroot"), "good dir\nbad\n", "").expect("pointer is empty");
    assert_eq!(malformed, 1);
    assert_eq!(cache.entries.len(), 1);
}
