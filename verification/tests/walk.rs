use sever::walk::{classify, keeps_path, stream_enters, walk_dirs, Recursion, WalkAction, MAX_DEPTH};

fn strings(v: &[&str]) -> Vec<String> {
    v.iter().map(|s| s.to_string()).collect()
}

#[test]
fn unlimited_recursion_always_allows() {
    assert!(Recursion::All.can_recurse(0));
    assert!(Recursion::All.can_recurse(usize::MAX));
    assert!(MAX_DEPTH.can_recurse(1000));
}

#[test]
fn limited_recursion_allows_below_the_limit() {
    let r = Recursion::N(3);
    assert!(r.can_recurse(0));
    assert!(r.can_recurse(2));
    assert!(!r.can_recurse(3));
    assert!(!r.can_recurse(100));
}

#[test]
fn recursion_text() {
    assert_eq!(Recursion::All.to_string(), "unlimited");
    assert_eq!(Recursion::N(256).to_string(), "256");
}

#[test]
fn classify_paths() {
    assert_eq!(classify(&Recursion::N(1), 0, false), WalkAction::Emit);
    assert_eq!(classify(&Recursion::N(1), 0, true), WalkAction::Descend);
    assert_eq!(classify(&Recursion::N(1), 1, true), WalkAction::Skip);
    assert_eq!(classify(&Recursion::N(1), 7, false), WalkAction::Emit);
}

#[test]
fn directories_are_not_kept_without_recursion() {
    assert!(keeps_path(false));
    assert!(!keeps_path(true));
}

#[test]
fn inputs_come_out_in_order() {
    let mut w = walk_dirs(strings(&["a", "b", "c"]));
    assert_eq!(w.pull(), Some((String::from("a"), 0)));
    assert_eq!(w.pull(), Some((String::from("b"), 0)));
    assert_eq!(w.pull(), Some((String::from("c"), 0)));
    assert_eq!(w.pull(), None);
    assert_eq!(w.pull(), None);
}

#[test]
fn entries_wait_behind_queued_paths() {
    let mut w = walk_dirs(strings(&["d", "x", "y"]));
    assert_eq!(w.pull(), Some((String::from("d"), 0)));
    w.push_entries(strings(&["d/1", "d/2"]), 0);
    // "x" enters the front; the back holds the entries, oldest last pushed first out
    assert_eq!(w.pull(), Some((String::from("d/1"), 1)));
    assert_eq!(w.pull(), Some((String::from("d/2"), 1)));
    assert_eq!(w.pull(), Some((String::from("x"), 0)));
    assert_eq!(w.pull(), Some((String::from("y"), 0)));
    assert_eq!(w.pull(), None);
}

#[test]
fn nested_entries_go_one_level_deeper() {
    let mut w = walk_dirs(Vec::new());
    w.push_entries(strings(&["top/inner"]), 4);
    assert_eq!(w.pull(), Some((String::from("top/inner"), 5)));
    assert_eq!(w.pull(), None);
}

#[test]
fn stream_walk_reads_one_level_deeper() {
    let limit = Recursion::N(2);
    assert!(stream_enters(&limit, 0));
    assert!(stream_enters(&limit, 1));
    assert!(stream_enters(&limit, 2));
    assert!(!stream_enters(&limit, 3));
    assert!(limit.can_recurse(1) && !limit.can_recurse(2));
    assert!(stream_enters(&Recursion::All, 1000));
}

#[test]
fn walk_over_a_small_tree_emits_each_file_once() {
    // d/ holds f and e/, e/ holds g; with no limit every file comes out once
    let mut w = walk_dirs(strings(&["d", "top"]));
    let mut out = Vec::new();
    while let Some((p, depth)) = w.pull() {
        let is_dir = p == "d" || p == "d/e";
        match classify(&Recursion::All, depth, is_dir) {
            WalkAction::Emit => out.push(p),
            WalkAction::Descend => {
                let entries = if p == "d" { strings(&["d/f", "d/e"]) } else { strings(&["d/e/g"]) };
                w.push_entries(entries, depth);
            }
            WalkAction::Skip => {}
        }
    }
    out.sort();
    assert_eq!(out, vec!["d/e/g", "d/f", "top"]);
}

#[test]
fn walk_under_a_limit_leaves_deep_files_out() {
    let mut w = walk_dirs(strings(&["d"]));
    let mut out = Vec::new();
    while let Some((p, depth)) = w.pull() {
        let is_dir = p == "d" || p == "d/e";
        match classify(&Recursion::N(1), depth, is_dir) {
            WalkAction::Emit => out.push(p),
            WalkAction::Descend => {
                let entries = if p == "d" { strings(&["d/f", "d/e"]) } else { strings(&["d/e/g"]) };
                w.push_entries(entries, depth);
            }
            WalkAction::Skip => {}
        }
    }
    assert_eq!(out, vec!["d/f"]);
}
