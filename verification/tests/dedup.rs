use std::collections::hash_map::DefaultHasher;
use std::hash::{Hash, Hasher};
use sever::dedup::{compute, DedupIterExt, DedupStream, Polled, StreamStep};

fn std_hash(s: &str) -> u64 {
    let mut h = DefaultHasher::new();
    s.hash(&mut h);
    h.finish()
}

fn drain(mut it: sever::dedup::DedupIter) -> Vec<String> {
    let mut out = Vec::new();
    while let Some(x) = it.next() {
        out.push(x);
    }
    out
}

#[test]
fn compute_agrees_with_hashing_a_str() {
    for s in ["", "a", "hello world", "ünïcödé", "a/b/c"] {
        assert_eq!(compute(s), std_hash(s));
    }
}

#[test]
fn compute_separates_different_texts() {
    assert_ne!(compute("a"), compute("b"));
    assert_eq!(compute("same"), compute("same"));
}

#[test]
fn dedup_keeps_first_occurrences_in_order() {
    let v: Vec<String> = ["a", "b", "a", "c", "b", "a"].iter().map(|s| s.to_string()).collect();
    assert_eq!(drain(v.dedup()), vec!["a", "b", "c"]);
}

#[test]
fn dedup_of_empty_is_empty() {
    let mut it = Vec::<String>::new().dedup();
    assert_eq!(it.size_hint(), (0, Some(0)));
    assert_eq!(it.next(), None);
    assert_eq!(it.next(), None);
}

#[test]
fn dedup_output_has_no_repeats() {
    let v: Vec<String> = ["x", "x", "x", "y", "y", "z", "x"].iter().map(|s| s.to_string()).collect();
    let out = drain(v.dedup());
    for i in 0..out.len() {
        for j in (i + 1)..out.len() {
            assert_ne!(out[i], out[j]);
        }
    }
    assert_eq!(out, vec!["x", "y", "z"]);
}

#[test]
fn dedup_size_hint() {
    let v: Vec<String> = ["p", "p", "q"].iter().map(|s| s.to_string()).collect();
    let mut it = v.dedup();
    assert_eq!(it.size_hint(), (1, Some(3)));
    assert_eq!(it.next().as_deref(), Some("p"));
    assert_eq!(it.size_hint(), (1, Some(2)));
    assert_eq!(it.next().as_deref(), Some("q"));
    assert_eq!(it.size_hint(), (0, Some(0)));
    assert_eq!(it.next(), None);
}

#[test]
fn dedup_stream_steps() {
    let mut s = DedupStream::new();
    assert_eq!(s.on_poll(Polled::Pending), StreamStep::Pending);
    assert_eq!(s.on_poll(Polled::Item(String::from("a"))), StreamStep::Yield(String::from("a")));
    assert_eq!(s.on_poll(Polled::Item(String::from("a"))), StreamStep::Skip);
    assert_eq!(s.on_poll(Polled::Item(String::from("b"))), StreamStep::Yield(String::from("b")));
    assert_eq!(s.on_poll(Polled::Exhausted), StreamStep::Exhausted);
}

#[test]
fn next_consumes_only_up_to_the_yielded_item() {
    let v: Vec<String> = ["a", "a", "b", "a", "c"].iter().map(|s| s.to_string()).collect();
    let mut it = v.dedup();
    assert_eq!(it.next().as_deref(), Some("a"));
    assert_eq!(it.size_hint(), (1, Some(4)));
    assert_eq!(it.next().as_deref(), Some("b"));
    assert_eq!(it.size_hint(), (1, Some(2)));
    assert_eq!(it.next().as_deref(), Some("c"));
    assert_eq!(it.size_hint(), (0, Some(0)));
}

#[test]
fn dedup_twice_is_dedup_once() {
    let v: Vec<String> = ["q", "r", "q", "s", "r"].iter().map(|s| s.to_string()).collect();
    let once = drain(v.clone().dedup());
    let twice = drain(once.clone().dedup());
    assert_eq!(once, twice);
    assert_eq!(once, vec!["q", "r", "s"]);
}

#[test]
fn stream_keeps_what_the_iterator_keeps() {
    let v: Vec<String> = ["m", "n", "m", "o", "n", "m"].iter().map(|s| s.to_string()).collect();
    let mut s = DedupStream::new();
    let mut streamed = Vec::new();
    for x in v.iter() {
        if let StreamStep::Yield(y) = s.on_poll(Polled::Item(x.clone())) {
            streamed.push(y);
        }
        assert_eq!(s.on_poll(Polled::Pending), StreamStep::Pending);
    }
    assert_eq!(s.on_poll(Polled::Exhausted), StreamStep::Exhausted);
    assert_eq!(streamed, drain(v.dedup()));
}
