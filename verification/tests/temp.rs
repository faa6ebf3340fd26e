use sever::temp::{join_path, TempFile};

fn is_uuid_v4(s: &str) -> bool {
    let c: Vec<char> = s.chars().collect();
    c.len() == 36
        && c.iter().enumerate().all(|(i, ch)| {
            if [8, 13, 18, 23].contains(&i) {
                *ch == '-'
            } else {
                ch.is_ascii_digit() || ('a'..='f').contains(ch)
            }
        })
        && c[14] == '4'
        && ['8', '9', 'a', 'b'].contains(&c[19])
}

#[test]
fn join_adds_a_separator() {
    assert_eq!(join_path("/tmp", "x"), "/tmp/x");
    assert_eq!(join_path("/tmp/", "x"), "/tmp/x");
    assert_eq!(join_path("", "x"), "x");
    assert_eq!(join_path("a", "/abs"), "/abs");
}

#[test]
fn join_agrees_with_path_join() {
    for (d, n) in [("dir", "f"), ("dir/", "f"), ("", "f"), ("d", "/r"), ("/", "f"), ("a/b", "c/d")] {
        let expected = std::path::Path::new(d).join(n).to_str().unwrap().to_string();
        assert_eq!(join_path(d, n), expected);
    }
}

#[test]
fn new_path_and_release_give_back_the_path() {
    let t = TempFile::new_path(String::from("/var/tmp/abc"));
    assert_eq!(t.path(), "/var/tmp/abc");
    assert_eq!(t.release(), "/var/tmp/abc");
}

#[test]
fn new_in_names_a_random_file_in_the_directory() {
    let t = TempFile::new_in("/some/dir");
    let p = t.path().to_string();
    assert!(p.starts_with("/some/dir/"));
    assert!(is_uuid_v4(&p["/some/dir/".len()..]));
    let u = TempFile::new_in("/some/dir");
    assert_ne!(u.path(), p);
}

#[test]
fn new_uses_the_given_location() {
    let t = TempFile::new("/tmp/");
    let p = t.release();
    assert!(p.starts_with("/tmp/"));
    assert!(is_uuid_v4(&p[5..]));
}

#[test]
fn beside_names_a_file_in_the_same_directory() {
    let t = TempFile::beside("/data/dir/file.txt").unwrap();
    let p = t.release();
    assert!(p.starts_with("/data/dir/"));
    assert!(is_uuid_v4(&p["/data/dir/".len()..]));
    let bare = TempFile::beside("file.txt").unwrap();
    assert!(is_uuid_v4(bare.path()));
}

#[test]
fn beside_a_root_or_nothing_is_none() {
    assert!(TempFile::beside("/").is_none());
    assert!(TempFile::beside("").is_none());
}
