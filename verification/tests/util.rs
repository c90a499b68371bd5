use std::borrow::Cow;
use std::sync::Arc;

use packfile::ArcOrCowStr;

#[test]
fn from_arc() {
    assert_eq!(
        ArcOrCowStr::from(Arc::from("hello world".to_string())),
        "hello world".into()
    );
}

#[test]
fn from_cow() {
    assert_eq!(
        ArcOrCowStr::from(Cow::Borrowed("hello world")),
        "hello world".into()
    );
}

#[test]
fn from_string() {
    assert_eq!(
        ArcOrCowStr::from("hello world".to_string()),
        "hello world".into()
    );
}

#[test]
fn arc_and_cow_compare_by_contents() {
    let a = ArcOrCowStr::from(Arc::from("name.txt".to_string()));
    let b = ArcOrCowStr::from("name.txt");
    let c = ArcOrCowStr::from("other.txt");
    assert_eq!(a, b);
    assert_ne!(a, c);
    assert_eq!(a.as_str(), "name.txt");
    assert_eq!(b.len(), 8);
}
