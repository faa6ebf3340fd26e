use sever::error::{Error, ErrorKind};

#[test]
fn stat_failures_are_skippable() {
    assert!(ErrorKind::Stat(String::from("gone")).is_skippable());
    assert!(!ErrorKind::Open(String::from("denied")).is_skippable());
    assert!(!ErrorKind::Copy(String::from("full")).is_skippable());
    assert!(!ErrorKind::Unlink(String::from("busy")).is_skippable());
    assert!(!ErrorKind::Move(String::from("cross-device")).is_skippable());
}

#[test]
fn suggestion_text_is_fixed() {
    let expected = "Are you sure file exists, and you have write privilages here?";
    assert_eq!(ErrorKind::Stat(String::new()).suggestion(), expected);
    assert_eq!(ErrorKind::Move(String::new()).suggestion(), expected);
}

#[test]
fn error_keeps_kind_and_path() {
    let e = Error::new(ErrorKind::Copy(String::from("No space left on device")), String::from("dir/file"));
    assert_eq!(e.path(), "dir/file");
    assert!(matches!(e.kind(), ErrorKind::Copy(m) if m == "No space left on device"));
    assert_eq!(e.kind().cause(), "No space left on device");
}

#[test]
fn error_from_pair_matches_new() {
    let e: Error = (ErrorKind::Open(String::from("denied")), String::from("x")).into();
    assert_eq!(e.path(), "x");
    assert!(matches!(e.kind(), ErrorKind::Open(_)));
}

#[test]
fn messages_name_the_step_and_quote_the_path() {
    let cases = vec![
        (ErrorKind::Stat(String::new()), "Failed to stat file \"a/b\""),
        (ErrorKind::Open(String::new()), "Failed to open file \"a/b\""),
        (ErrorKind::Copy(String::new()), "Failed to create copy of file \"a/b\""),
        (ErrorKind::Unlink(String::new()), "Failed to remove file \"a/b\""),
        (ErrorKind::Move(String::new()), "Failed to move file \"a/b\""),
    ];
    for (kind, expected) in cases {
        assert_eq!(Error::new(kind, String::from("a/b")).message(), expected);
    }
}

#[test]
fn message_escapes_the_path_as_debug_does() {
    let e = Error::new(ErrorKind::Stat(String::new()), String::from("say \"hi\"\n"));
    assert_eq!(e.message(), "Failed to stat file \"say \\\"hi\\\"\\n\"");
    assert_eq!(e.headline(), "<\"say \\\"hi\\\"\\n\"> Failed");
}

#[test]
fn message_quotes_the_path_as_path_debug_does() {
    let e = Error::new(ErrorKind::Stat(String::new()), String::from("it's"));
    assert_eq!(e.message(), format!("Failed to stat file {:?}", std::path::Path::new("it's")));
    assert_eq!(e.headline(), format!("<{:?}> Failed", std::path::Path::new("it's")));
}

#[test]
fn headline_wraps_the_quoted_path() {
    let e = Error::new(ErrorKind::Open(String::new()), String::from("/tmp/x"));
    assert_eq!(e.headline(), "<\"/tmp/x\"> Failed");
}
