use limo::path::VirtualPathBuf;

#[test]
fn parsing() {
    assert_eq!(VirtualPathBuf::from(""), VirtualPathBuf::from([]));
    assert_eq!(VirtualPathBuf::from("/"), VirtualPathBuf::from([""]));
    assert_eq!(VirtualPathBuf::from("/a"), VirtualPathBuf::from(["", "a"]));
    assert_eq!(VirtualPathBuf::from("/a/b"), VirtualPathBuf::from(["", "a", "b"]));
    assert_eq!(VirtualPathBuf::from("a"), VirtualPathBuf::from(["a"]));
    assert_eq!(VirtualPathBuf::from("a/b"), VirtualPathBuf::from(["a", "b"]));
}

#[test]
fn roundtrips() {
    assert_eq!("".to_owned(), VirtualPathBuf::from("").to_string());
    assert_eq!("/".to_owned(), VirtualPathBuf::from("/").to_string());
    assert_eq!("/a".to_owned(), VirtualPathBuf::from("/a").to_string());
    assert_eq!("/a/b".to_owned(), VirtualPathBuf::from("/a/b").to_string());
    assert_eq!("a".to_owned(), VirtualPathBuf::from("a").to_string());
    assert_eq!("a/b".to_owned(), VirtualPathBuf::from("a/b").to_string());
}
