use sever::text::decimal;
use sever::join::StringJoinExt;
use sever::splash::{feature_line, limit_text, usage_text, MAX_WORKERS};

#[test]
fn decimal_matches_display() {
    for n in [0usize, 1, 9, 10, 42, 100, 1234567890, usize::MAX] {
        assert_eq!(decimal(n), n.to_string());
    }
}

#[test]
fn decimal_roundtrips() {
    for n in [0usize, 7, 80, 4096, 99999] {
        assert_eq!(decimal(n).parse::<usize>().unwrap(), n);
    }
}

#[test]
fn join_puts_separator_between_items() {
    let v = vec![String::from("a"), String::from("bc"), String::from("")];
    assert_eq!(v.join(", "), "a, bc, ");
}

#[test]
fn join_of_one_and_of_none() {
    assert_eq!(vec![String::from("only")].join("\n"), "only");
    assert_eq!(Vec::<String>::new().join("\n"), "");
}

#[test]
fn join_length_law_on_values() {
    let v = vec![String::from("ab"), String::from("c"), String::from("def")];
    let joined = v.join("--");
    assert_eq!(joined.chars().count(), 2 + 1 + 3 + 2 * 2);
    assert_eq!(joined, "ab--c--def");
}

#[test]
fn usage_line() {
    assert_eq!(usage_text("sever"), "Usage: sever <files...>");
}

#[test]
fn feature_lines() {
    assert_eq!(feature_line("splash", "\tShow this message", true), " +splash\t\tShow this message");
    assert_eq!(feature_line("threads", "\tUsing thread-pool", false), " -threads");
}

#[test]
fn worker_limit_text() {
    assert_eq!(limit_text(MAX_WORKERS), "unlimited");
    assert_eq!(limit_text(Some(4096)), "4096");
}
