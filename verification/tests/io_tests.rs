use gpx_split::io::{append_index, create_path, update_metadata_name, PathError};
use gpx_split::types::{Gpx, Metadata};

#[test]
fn change_metadata_name() {
    let meta = Metadata { name: Some("bar".to_string()), bounds: None };
    let gpx = Gpx { metadata: Some(meta), waypoints: vec![], routes: vec![], tracks: vec![] };

    let gpx = update_metadata_name(gpx, 1);
    let res = gpx.metadata.unwrap().name.unwrap();
    assert_eq!("bar #1", res);
}

#[test]
fn create_path_with_counter() {
    let res = create_path("foo/bar.gpx", 1).unwrap();
    assert_eq!("foo/bar_1.gpx", res);
}

#[test]
fn create_path_without_extension() {
    let res = create_path("foo/bar", 1);
    assert_eq!(Err(PathError::NoExtension), res);
}

#[test]
fn create_path_uses_last_dot() {
    let res = create_path("a.b/c.d.gpx", 12).unwrap();
    assert_eq!("a.b/c.d_12.gpx", res);
}

#[test]
fn append_index_to_name() {
    assert_eq!(Some("track #3".to_string()), append_index(Some("track".to_string()), 3));
    assert_eq!(None, append_index(None, 3));
}
