use haxeget::error::StoreError;
use haxeget::rc::version_from_rc;

fn rc_path() -> String {
    String::from("./.haxerc")
}

#[test]
fn the_version_field_is_read_out_of_the_document() {
    let contents = String::from("{\"version\": \"4.3.0\", \"resolveLibs\": \"scoped\"}");
    assert_eq!(version_from_rc(&contents, &rc_path()).unwrap(), "4.3.0");
}

#[test]
fn text_that_is_not_json_is_corruption() {
    let contents = String::from("version = 4.3.0");
    match version_from_rc(&contents, &rc_path()) {
        Err(StoreError::CorruptState { path }) => assert_eq!(path, "./.haxerc"),
        _ => panic!("non-JSON text must be reported as corruption"),
    }
}

#[test]
fn a_missing_version_key_is_corruption() {
    let contents = String::from("{\"name\": \"project\"}");
    assert!(matches!(
        version_from_rc(&contents, &rc_path()),
        Err(StoreError::CorruptState { .. })
    ));
}

#[test]
fn a_version_of_the_wrong_shape_is_corruption() {
    let contents = String::from("{\"version\": 430}");
    assert!(matches!(
        version_from_rc(&contents, &rc_path()),
        Err(StoreError::CorruptState { .. })
    ));
    let contents = String::from("{\"version\": \"4.3.0 beta\"}");
    assert!(matches!(
        version_from_rc(&contents, &rc_path()),
        Err(StoreError::CorruptState { .. })
    ));
}
