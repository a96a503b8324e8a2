//! Tests for the binding of tokens to data.

use std::path::PathBuf;

use climake::io::{Data, Input};

/// Checks that the `Data::new` method works correctly
#[test]
fn data_new() {
    let testval = String::from("Hi!");

    // Data::Nothing
    assert_eq!(Data::new(Input::Nothing, vec![]), Data::Nothing);
    assert_eq!(Data::new(Input::Nothing, vec![testval.clone()]), Data::Nothing);

    // Data::Text
    assert_eq!(Data::new(Input::Text, vec![]), Data::Text(String::new()));
    assert_eq!(
        Data::new(Input::Text, vec![testval.clone()]),
        Data::Text(testval.clone())
    );
    assert_eq!(
        Data::new(Input::Text, vec![testval.clone(), testval.clone()]),
        Data::Text(testval.clone())
    );

    // Data::Path
    assert_eq!(Data::new(Input::Path, vec![]), Data::Path(PathBuf::new()));
    assert_eq!(
        Data::new(Input::Path, vec![testval.clone()]),
        Data::Path(PathBuf::from(testval.clone()))
    );
    assert_eq!(
        Data::new(Input::Path, vec![testval.clone(), testval.clone()]),
        Data::Path(PathBuf::from(testval.clone()))
    );

    // Data::Paths
    assert_eq!(Data::new(Input::Paths, vec![]), Data::Paths(vec![]));
    assert_eq!(
        Data::new(Input::Paths, vec![testval.clone()]),
        Data::Paths(vec![PathBuf::from(testval.clone())])
    );
    assert_eq!(
        Data::new(Input::Paths, vec![testval.clone(), testval.clone()]),
        Data::Paths(vec![PathBuf::from(testval.clone()), PathBuf::from(testval)])
    );
}

/// Paths keep the order of their tokens, and are taken as they are spelled.
#[test]
fn data_paths_keep_order() {
    let data = Data::new(
        Input::Paths,
        vec!["b/c".to_string(), "a".to_string(), "../z".to_string()],
    );
    assert_eq!(
        data,
        Data::Paths(vec![
            PathBuf::from("b/c"),
            PathBuf::from("a"),
            PathBuf::from("../z")
        ])
    );
}

/// A path that does not exist binds like any other.
#[test]
fn data_path_is_not_looked_up() {
    let data = Data::new(Input::Path, vec!["/no/such/dir/anywhere".to_string()]);
    assert_eq!(data, Data::Path(PathBuf::from("/no/such/dir/anywhere")));
}

/// A clone of data is equal to it.
#[test]
fn data_clone() {
    let all = vec![
        Data::Nothing,
        Data::Text("t".to_string()),
        Data::Path(PathBuf::from("p")),
        Data::Paths(vec![PathBuf::from("p"), PathBuf::from("q")]),
    ];
    for data in all.iter() {
        assert_eq!(&data.clone(), data);
    }
}
