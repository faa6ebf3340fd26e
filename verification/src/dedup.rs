//! Dropping repeated items by their hash.
use std::collections::HashSet;
use std::collections::hash_map::DefaultHasher;
use std::hash::Hasher;
use vstd::prelude::*;
use vstd::std_specs::hash::DefaultHasherAdditionalSpecFns;
use crate::join::texts;

verus! {

/// The hash of a text: std's `DefaultHasher`, fresh, fed the UTF-8 bytes of
/// the text and then the byte `0xff`, which is what hashing a `str` feeds it.
pub open spec fn text_hash(s: Seq<char>) -> u64 {
    DefaultHasher::spec_finish(seq![vstd::utf8::encode_utf8(s), seq![0xffu8]])
}

/// The hash by which items are told apart.
pub fn compute(what: &str) -> (h: u64)
    ensures
        h == text_hash(what@),
        h == DefaultHasher::spec_finish(
            seq![vstd::utf8::encode_utf8(what@), seq![0xffu8]],
        ),
{
    let mut hasher = DefaultHasher::new();
    hasher.write(what.as_bytes());
    let end: [u8; 1] = [0xff];
    let tail: &[u8] = end.as_slice();
    assert(tail@ =~= seq![0xffu8]);
    hasher.write(tail);
    let h = hasher.finish();
    assert(hasher@ =~= seq![vstd::utf8::encode_utf8(what@), seq![0xffu8]]);
    h
}

/// The hash of a text is std's hash of the whole text: a fresh
/// `DefaultHasher` fed all of its UTF-8 bytes and the closing `0xff`; so
/// texts whose std hashes differ get different hashes here, wherever they
/// differ.
pub proof fn law_hash_is_std_hash_of_whole_text(s: Seq<char>, t: Seq<char>)
    ensures
        text_hash(s) == DefaultHasher::spec_finish(
            seq![vstd::utf8::encode_utf8(s), seq![0xffu8]],
        ),
        DefaultHasher::spec_finish(seq![vstd::utf8::encode_utf8(s), seq![0xffu8]])
            != DefaultHasher::spec_finish(seq![vstd::utf8::encode_utf8(t), seq![0xffu8]])
            ==> text_hash(s) != text_hash(t),
{
}

/// The items of `items` that pass, in order, when the hashes in `seen` were
/// met already: an item passes when its hash is neither in `seen` nor the
/// hash of an item before it.
pub open spec fn dedup_from(items: Seq<Seq<char>>, seen: Set<u64>) -> Seq<Seq<char>>
    decreases items.len(),
{
    if items.len() == 0 {
        Seq::empty()
    } else {
        let h = text_hash(items[0]);
        if seen.contains(h) {
            dedup_from(items.drop_first(), seen)
        } else {
            seq![items[0]] + dedup_from(items.drop_first(), seen.insert(h))
        }
    }
}

/// A call that yields `x` took the item at `k` and passed over the ones
/// before it, each a repeat of a hash met by then; it leaves the items after
/// `k`, and the hashes met then include all of the items up to `k`.
pub open spec fn consumed_up_to(
    items: Seq<Seq<char>>,
    seen: Set<u64>,
    k: int,
    x: Seq<char>,
    rest: Seq<Seq<char>>,
    seen_after: Set<u64>,
) -> bool {
    &&& 0 <= k < items.len()
    &&& items[k] == x
    &&& rest == items.skip(k + 1)
    &&& seen_after == seen + hashes(items.take(k + 1))
    &&& forall|j: int|
        0 <= j < k ==> (seen + hashes(items.take(j))).contains(text_hash(#[trigger] items[j]))
}

/// The hashes of all items.
pub open spec fn hashes(items: Seq<Seq<char>>) -> Set<u64> {
    Set::new(|h: u64| exists|i: int| 0 <= i < items.len() && text_hash(items[i]) == h)
}

/// An iterator over a list of strings that yields each item whose hash has
/// not been met before, in order.
#[derive(Debug)]
pub struct DedupIter {
    items: Vec<String>,
    pos: usize,
    seen: HashSet<u64>,
}

impl DedupIter {
    /// The items not looked at yet.
    pub closed spec fn remaining(&self) -> Seq<Seq<char>> {
        if self.pos <= self.items.len() {
            texts(self.items@).skip(self.pos as int)
        } else {
            Seq::empty()
        }
    }

    /// The hashes met so far.
    pub closed spec fn seen(&self) -> Set<u64> {
        self.seen@
    }

    /// The next item whose hash has not been met, or `None` when none is
    /// left; the items that it passes over and yields count as met. It
    /// consumes the list exactly up to the item it yields: every item passed
    /// over repeats a hash met before it.
    pub fn next(&mut self) -> (r: Option<String>)
        ensures
            match r {
                None => {
                    &&& dedup_from(old(self).remaining(), old(self).seen()) == Seq::<Seq<char>>::empty()
                    &&& final(self).remaining() == Seq::<Seq<char>>::empty()
                    &&& final(self).seen() == old(self).seen() + hashes(old(self).remaining())
                },
                Some(x) => {
                    &&& dedup_from(old(self).remaining(), old(self).seen()) == seq![x@]
                        + dedup_from(final(self).remaining(), final(self).seen())
                    &&& !old(self).seen().contains(text_hash(x@))
                    &&& final(self).seen().contains(text_hash(x@))
                    &&& final(self).remaining().len() < old(self).remaining().len()
                    &&& consumed_up_to(
                        old(self).remaining(),
                        old(self).seen(),
                        old(self).remaining().len() - final(self).remaining().len() - 1,
                        x@,
                        final(self).remaining(),
                        final(self).seen(),
                    )
                },
            },
    {
        let ghost rem0 = self.remaining();
        let ghost seen0 = self.seen();
        let n = self.items.len();
        if self.pos >= n {
            assert(self.remaining() =~= Seq::<Seq<char>>::empty());
            assert(hashes(rem0) =~= Set::<u64>::empty());
            assert(self.seen() =~= seen0 + hashes(rem0));
            return None;
        }
        loop
            invariant
                n == self.items.len(),
                self.pos <= n,
                rem0 == old(self).remaining(),
                seen0 == old(self).seen(),
                dedup_from(rem0, seen0) == dedup_from(self.remaining(), self.seen()),
                self.seen() == seen0 + hashes(rem0.take(rem0.len() - self.remaining().len())),
                rem0.skip(rem0.len() - self.remaining().len()) == self.remaining(),
                self.remaining().len() <= rem0.len(),
                forall|j: int|
                    0 <= j < rem0.len() - self.remaining().len() ==> (seen0 + hashes(
                        rem0.take(j),
                    )).contains(text_hash(#[trigger] rem0[j])),
            decreases n - self.pos,
        {
            if self.pos >= n {
                assert(self.remaining() =~= Seq::<Seq<char>>::empty());
                assert(rem0.take(rem0.len() as int) =~= rem0);
                assert(self.seen() == seen0 + hashes(rem0));
                return None;
            }
            let item = self.items[self.pos].clone();
            let h = compute(item.as_str());
            let ghost rem = self.remaining();
            let ghost seen_before = self.seen();
            assert(rem.len() > 0);
            assert(rem[0] == item@);
            self.pos = self.pos + 1;
            assert(self.remaining() =~= rem.drop_first());
            let fresh = self.seen.insert(h);
            proof {
                let k = rem0.len() - rem.len();
                assert(rem0.take(k + 1) =~= rem0.take(k).push(item@)) by {
                    assert(rem0.skip(k)[0] == rem0[k]);
                }
                assert(hashes(rem0.take(k + 1)) =~= hashes(rem0.take(k)).insert(h)) by {
                    assert(rem0.take(k + 1)[k] == item@);
                }
                assert(rem0.skip(k + 1) =~= rem.drop_first());
            }
            proof {
                let k = rem0.len() - rem.len();
                assert(rem0[k] == item@) by {
                    assert(rem0.skip(k)[0] == rem0[k]);
                }
                assert(seen_before == seen0 + hashes(rem0.take(k)));
            }
            if fresh {
                proof {
                    let k = rem0.len() - rem.len();
                    assert(self.seen() =~= seen0 + hashes(rem0.take(k + 1)));
                }
                return Some(item);
            }
            assert(seen_before.contains(h));
            assert(self.seen() =~= seen_before);
            assert(dedup_from(rem, seen_before) == dedup_from(rem.drop_first(), seen_before));
        }
    }

    /// Bounds on the number of items still to come, from the number of items
    /// left: a lower bound of 1 while any item is left and 0 after, and an
    /// upper bound of all the items left. The lower bound follows the count
    /// alone; items left that repeat hashes met before are not yielded, so
    /// fewer may come.
    pub fn size_hint(&self) -> (r: (usize, Option<usize>))
        ensures
            r.0 == (if self.remaining().len() < 1 { 0usize } else { 1usize }),
            r.1 == Some(self.remaining().len() as usize),
    {
        if self.pos > self.items.len() {
            return (0, Some(0));
        }
        let left = self.items.len() - self.pos;
        if left < 1 {
            (0, Some(left))
        } else {
            (1, Some(left))
        }
    }
}

/// Turning a list of strings into a [`DedupIter`].
pub trait DedupIterExt: Sized {
    /// An iterator over the items of `self` that drops repeats by hash.
    fn dedup(self) -> DedupIter;
}

impl DedupIterExt for Vec<String> {
    fn dedup(self) -> (r: DedupIter)
        ensures
            r.remaining() == texts(self@),
            r.seen() == Set::<u64>::empty(),
    {
        let len = self.len();
        let seen: HashSet<u64> = if len == 0 {
            HashSet::new()
        } else {
            HashSet::with_capacity(len)
        };
        let r = DedupIter { items: self, pos: 0, seen };
        assert(r.remaining() =~= texts(r.items@));
        r
    }
}

/// What polling the underlying stream gave.
#[derive(Debug, PartialEq, Eq)]
pub enum Polled {
    /// The stream produced an item.
    Item(String),
    /// The stream has ended.
    Exhausted,
    /// The stream has nothing yet.
    Pending,
}

/// What the deduplicating stream does with one poll of its source.
#[derive(Debug, PartialEq, Eq)]
pub enum StreamStep {
    /// Hand this item on.
    Yield(String),
    /// The item was a repeat: poll the source again.
    Skip,
    /// The stream has ended.
    Exhausted,
    /// Nothing yet: wait to be woken.
    Pending,
}

/// One poll answered: with the hashes `before` met, the poll `polled`
/// leads to the step `r` and the hashes `after`. A new item is yielded and
/// its hash counts as met; a repeat is skipped; an end or a pending poll is
/// passed on.
pub open spec fn poll_post(before: Set<u64>, polled: Polled, r: StreamStep, after: Set<u64>) -> bool {
    match polled {
        Polled::Item(x) => if before.contains(text_hash(x@)) {
            &&& r == StreamStep::Skip
            &&& after == before
        } else {
            &&& r == StreamStep::Yield(x)
            &&& after == before.insert(text_hash(x@))
        },
        Polled::Exhausted => r == StreamStep::Exhausted && after == before,
        Polled::Pending => r == StreamStep::Pending && after == before,
    }
}

/// An ended source always ends the stream, and a pending source always
/// leaves it pending, whatever hashes were met, and neither changes them; an
/// item is yielded exactly when its hash was not met, and is never turned
/// into an end or a wait.
pub proof fn law_poll_passes_end_and_wait(
    before: Set<u64>,
    polled: Polled,
    r: StreamStep,
    after: Set<u64>,
)
    requires
        poll_post(before, polled, r, after),
    ensures
        polled is Exhausted ==> r is Exhausted && after == before,
        polled is Pending ==> r is Pending && after == before,
        polled is Item ==> !(r is Exhausted) && !(r is Pending),
        polled matches Polled::Item(x) ==> ((r matches StreamStep::Yield(y) && y == x)
            <==> !before.contains(text_hash(x@))),
{
}

/// The texts of the items among a run of polls, in order.
pub open spec fn polled_items(polls: Seq<Polled>) -> Seq<Seq<char>>
    decreases polls.len(),
{
    if polls.len() == 0 {
        Seq::empty()
    } else {
        (match polls[0] {
            Polled::Item(x) => seq![x@],
            _ => Seq::empty(),
        }) + polled_items(polls.drop_first())
    }
}

/// The texts of the items yielded among a run of steps, in order.
pub open spec fn yielded(steps: Seq<StreamStep>) -> Seq<Seq<char>>
    decreases steps.len(),
{
    if steps.len() == 0 {
        Seq::empty()
    } else {
        (match steps[0] {
            StreamStep::Yield(x) => seq![x@],
            _ => Seq::empty(),
        }) + yielded(steps.drop_first())
    }
}

/// The decisions of a stream that drops items whose hash was met before;
/// the program's stream adaptor polls its source and follows
/// [`DedupStream::on_poll`].
#[derive(Debug)]
pub struct DedupStream {
    seen: HashSet<u64>,
}

impl DedupStream {
    /// The hashes met so far.
    pub closed spec fn seen(&self) -> Set<u64> {
        self.seen@
    }

    /// A stream state that has met nothing yet.
    pub fn new() -> (r: DedupStream)
        ensures
            r.seen() == Set::<u64>::empty(),
    {
        DedupStream { seen: HashSet::new() }
    }

    /// The step for one poll of the source: a new item is yielded and its
    /// hash counts as met; a repeat is skipped; an end or a pending poll is
    /// passed on.
    pub fn on_poll(&mut self, polled: Polled) -> (r: StreamStep)
        ensures
            poll_post(old(self).seen(), polled, r, final(self).seen()),
            polled is Exhausted ==> r is Exhausted && final(self).seen() == old(self).seen(),
            polled is Pending ==> r is Pending && final(self).seen() == old(self).seen(),
    {
        match polled {
            Polled::Item(x) => {
                let h = compute(x.as_str());
                if self.seen.insert(h) {
                    StreamStep::Yield(x)
                } else {
                    assert(self.seen() =~= old(self).seen());
                    StreamStep::Skip
                }
            },
            Polled::Exhausted => StreamStep::Exhausted,
            Polled::Pending => StreamStep::Pending,
        }
    }
}

/// The stream keeps what the iterator keeps: over any run of polls, each
/// answered as `on_poll` answers it, the stream yields exactly
/// `dedup_from` of the items polled (which `DedupIter::next` yields too),
/// and has then met the hashes of all of them.
pub proof fn law_stream_matches_dedup(
    polls: Seq<Polled>,
    steps: Seq<StreamStep>,
    seens: Seq<Set<u64>>,
)
    requires
        steps.len() == polls.len(),
        seens.len() == polls.len() + 1,
        forall|k: int|
            0 <= k < polls.len() ==> poll_post(
                #[trigger] seens[k],
                polls[k],
                steps[k],
                seens[k + 1],
            ),
    ensures
        yielded(steps) == dedup_from(polled_items(polls), seens[0]),
        seens.last() == seens[0] + hashes(polled_items(polls)),
    decreases polls.len(),
{
    if polls.len() == 0 {
        assert(hashes(polled_items(polls)) =~= Set::<u64>::empty());
        assert(seens.last() =~= seens[0] + hashes(polled_items(polls)));
    } else {
        let ps = polls.drop_first();
        let ss = steps.drop_first();
        let sn = seens.drop_first();
        assert forall|k: int| 0 <= k < ps.len() implies poll_post(
            #[trigger] sn[k],
            ps[k],
            ss[k],
            sn[k + 1],
        ) by {
            assert(poll_post(seens[k + 1], polls[k + 1], steps[k + 1], seens[k + 2]));
        }
        law_stream_matches_dedup(ps, ss, sn);
        assert(poll_post(seens[0], polls[0], steps[0], seens[1]));
        let items = polled_items(polls);
        let rest = polled_items(ps);
        match polls[0] {
            Polled::Item(x) => {
                assert(items =~= seq![x@] + rest);
                assert(items[0] == x@);
                assert(items.drop_first() =~= rest);
                let h = text_hash(x@);
                assert(hashes(items) =~= hashes(rest).insert(h)) by {
                    assert forall|g: u64| hashes(items).contains(g) implies hashes(rest).insert(
                        g,
                    ).contains(g) && (g == h || hashes(rest).contains(g)) by {
                        let i = choose|i: int| 0 <= i < items.len() && text_hash(items[i]) == g;
                        if i > 0 {
                            assert(items[i] == rest[i - 1]);
                        }
                    }
                    assert forall|g: u64| hashes(rest).insert(h).contains(g) implies hashes(
                        items,
                    ).contains(g) by {
                        if g == h {
                            assert(text_hash(items[0]) == g);
                        } else {
                            let i = choose|i: int| 0 <= i < rest.len() && text_hash(rest[i]) == g;
                            assert(items[i + 1] == rest[i]);
                        }
                    }
                }
                assert(sn.last() == seens.last());
                if seens[0].contains(h) {
                    assert(yielded(steps) =~= yielded(ss));
                    assert(seens.last() =~= seens[0] + hashes(items));
                } else {
                    assert(yielded(steps) =~= seq![x@] + yielded(ss));
                    assert(seens.last() =~= seens[0] + hashes(items));
                }
            },
            _ => {
                assert(items =~= rest);
                assert(yielded(steps) =~= yielded(ss));
                assert(sn.last() == seens.last());
            },
        }
    }
}

/// Whether the item at `i` is the first of its hash: its hash was not met
/// before and no earlier item has it.
pub open spec fn is_first(items: Seq<Seq<char>>, seen: Set<u64>, i: int) -> bool {
    &&& !seen.contains(text_hash(items[i]))
    &&& forall|j: int| 0 <= j < i ==> text_hash(#[trigger] items[j]) != text_hash(items[i])
}

/// The positions of the items that pass, in order.
pub open spec fn first_indices(items: Seq<Seq<char>>, seen: Set<u64>) -> Seq<int>
    decreases items.len(),
{
    if items.len() == 0 {
        Seq::empty()
    } else {
        let h = text_hash(items[0]);
        if seen.contains(h) {
            first_indices(items.drop_first(), seen).map_values(|i: int| i + 1)
        } else {
            seq![0int] + first_indices(items.drop_first(), seen.insert(h)).map_values(
                |i: int| i + 1,
            )
        }
    }
}

/// The items that pass are exactly the first item of each hash not met
/// before, in the order of the list: they stand at strictly increasing
/// positions, and a position is among them just when its item is the
/// first of its hash.
pub proof fn law_dedup_keeps_firsts(items: Seq<Seq<char>>, seen: Set<u64>)
    ensures
        first_indices(items, seen).len() == dedup_from(items, seen).len(),
        forall|k: int|
            0 <= k < first_indices(items, seen).len() ==> 0 <= #[trigger] first_indices(
                items,
                seen,
            )[k] < items.len() && dedup_from(items, seen)[k] == items[first_indices(
                items,
                seen,
            )[k]],
        forall|k1: int, k2: int|
            0 <= k1 < k2 < first_indices(items, seen).len() ==> #[trigger] first_indices(
                items,
                seen,
            )[k1] < #[trigger] first_indices(items, seen)[k2],
        forall|i: int|
            0 <= i < items.len() ==> (#[trigger] is_first(items, seen, i) <==> exists|k: int|
                0 <= k < first_indices(items, seen).len() && first_indices(items, seen)[k] == i),
    decreases items.len(),
{
    if items.len() > 0 {
        let t = items.drop_first();
        let h = text_hash(items[0]);
        let s2 = if seen.contains(h) {
            seen
        } else {
            seen.insert(h)
        };
        law_dedup_keeps_firsts(t, s2);
        let it = first_indices(t, s2);
        let ot = dedup_from(t, s2);
        let idx = first_indices(items, seen);
        let out = dedup_from(items, seen);
        let shifted = it.map_values(|i: int| i + 1);
        assert forall|i: int| 1 <= i < items.len() implies (is_first(items, seen, i)
            <==> is_first(t, s2, i - 1)) by {
            assert(items[i] == t[i - 1]);
            if is_first(items, seen, i) {
                assert forall|j: int| 0 <= j < i - 1 implies text_hash(#[trigger] t[j])
                    != text_hash(t[i - 1]) by {
                    assert(t[j] == items[j + 1]);
                }
                assert(text_hash(items[0]) != text_hash(items[i]));
            }
            if is_first(t, s2, i - 1) {
                assert forall|j: int| 0 <= j < i implies text_hash(#[trigger] items[j])
                    != text_hash(items[i]) by {
                    if j > 0 {
                        assert(items[j] == t[j - 1]);
                    }
                }
            }
        }
        if seen.contains(h) {
            assert(idx == shifted);
            assert(out == ot);
            assert(!is_first(items, seen, 0));
            assert forall|i: int| 0 <= i < items.len() implies (#[trigger] is_first(
                items,
                seen,
                i,
            ) <==> exists|k: int| 0 <= k < idx.len() && idx[k] == i) by {
                if exists|k: int| 0 <= k < idx.len() && idx[k] == i {
                    let k = choose|k: int| 0 <= k < idx.len() && idx[k] == i;
                    assert(idx[k] == it[k] + 1);
                    assert(i >= 1);
                    assert(is_first(t, s2, i - 1));
                }
                if i >= 1 && is_first(t, s2, i - 1) {
                    let k = choose|k: int| 0 <= k < it.len() && it[k] == i - 1;
                    assert(idx[k] == i);
                }
            }
            assert forall|k: int| 0 <= k < idx.len() implies 0 <= #[trigger] idx[k] < items.len()
                && out[k] == items[idx[k]] by {
                assert(idx[k] == it[k] + 1);
                assert(ot[k] == t[it[k]]);
            }
            assert forall|k1: int, k2: int| 0 <= k1 < k2 < idx.len() implies #[trigger] idx[k1]
                < #[trigger] idx[k2] by {
                assert(it[k1] < it[k2]);
            }
        } else {
            assert(idx == seq![0int] + shifted);
            assert(out == seq![items[0]] + ot);
            assert(is_first(items, seen, 0));
            assert forall|i: int| 0 <= i < items.len() implies (#[trigger] is_first(
                items,
                seen,
                i,
            ) <==> exists|k: int| 0 <= k < idx.len() && idx[k] == i) by {
                if i == 0 {
                    assert(idx[0] == 0);
                } else {
                    if exists|k: int| 0 <= k < idx.len() && idx[k] == i {
                        let k = choose|k: int| 0 <= k < idx.len() && idx[k] == i;
                        assert(k >= 1);
                        assert(idx[k] == it[k - 1] + 1);
                        assert(is_first(t, s2, i - 1));
                    }
                    if is_first(t, s2, i - 1) {
                        let k = choose|k: int| 0 <= k < it.len() && it[k] == i - 1;
                        assert(idx[k + 1] == i);
                    }
                }
            }
            assert forall|k: int| 0 <= k < idx.len() implies 0 <= #[trigger] idx[k] < items.len()
                && out[k] == items[idx[k]] by {
                if k > 0 {
                    assert(idx[k] == it[k - 1] + 1);
                    assert(ot[k - 1] == t[it[k - 1]]);
                    assert(out[k] == ot[k - 1]);
                }
            }
            assert forall|k1: int, k2: int| 0 <= k1 < k2 < idx.len() implies #[trigger] idx[k1]
                < #[trigger] idx[k2] by {
                assert(idx[k2] == it[k2 - 1] + 1);
                if k1 > 0 {
                    assert(idx[k1] == it[k1 - 1] + 1);
                    assert(it[k1 - 1] < it[k2 - 1]);
                } else {
                    assert(it[k2 - 1] >= 0);
                }
            }
        }
    }
}

proof fn lemma_dedup_of_distinct(t: Seq<Seq<char>>, seen: Set<u64>)
    requires
        forall|i: int, j: int|
            0 <= i < j < t.len() ==> text_hash(#[trigger] t[i]) != text_hash(#[trigger] t[j]),
        forall|i: int| 0 <= i < t.len() ==> !seen.contains(text_hash(#[trigger] t[i])),
    ensures
        dedup_from(t, seen) == t,
    decreases t.len(),
{
    if t.len() > 0 {
        let h = text_hash(t[0]);
        let tail = t.drop_first();
        assert forall|i: int, j: int| 0 <= i < j < tail.len() implies text_hash(
            #[trigger] tail[i],
        ) != text_hash(#[trigger] tail[j]) by {
            assert(tail[i] == t[i + 1] && tail[j] == t[j + 1]);
        }
        assert forall|i: int| 0 <= i < tail.len() implies !seen.insert(h).contains(
            text_hash(#[trigger] tail[i]),
        ) by {
            assert(tail[i] == t[i + 1]);
            assert(text_hash(t[0]) != text_hash(t[i + 1]));
        }
        lemma_dedup_of_distinct(tail, seen.insert(h));
        assert(t =~= seq![t[0]] + tail);
    }
}

/// Items whose std hashes all differ, none met before, all pass, in order:
/// an item is only dropped for a hash that repeats.
pub proof fn law_distinct_std_hashes_all_kept(items: Seq<Seq<char>>, seen: Set<u64>)
    requires
        forall|i: int, j: int|
            0 <= i < j < items.len() ==> DefaultHasher::spec_finish(
                seq![vstd::utf8::encode_utf8(#[trigger] items[i]), seq![0xffu8]],
            ) != DefaultHasher::spec_finish(
                seq![vstd::utf8::encode_utf8(#[trigger] items[j]), seq![0xffu8]],
            ),
        forall|i: int|
            0 <= i < items.len() ==> !seen.contains(
                DefaultHasher::spec_finish(
                    seq![vstd::utf8::encode_utf8(#[trigger] items[i]), seq![0xffu8]],
                ),
            ),
    ensures
        dedup_from(items, seen) == items,
{
    assert forall|i: int, j: int| 0 <= i < j < items.len() implies text_hash(
        #[trigger] items[i],
    ) != text_hash(#[trigger] items[j]) by {
        law_hash_is_std_hash_of_whole_text(items[i], items[j]);
    }
    assert forall|i: int| 0 <= i < items.len() implies !seen.contains(
        text_hash(#[trigger] items[i]),
    ) by {
        law_hash_is_std_hash_of_whole_text(items[i], items[i]);
    }
    lemma_dedup_of_distinct(items, seen);
}

/// Dropping repeats a second time changes nothing.
pub proof fn law_dedup_idempotent(items: Seq<Seq<char>>, seen: Set<u64>)
    ensures
        dedup_from(dedup_from(items, seen), seen) == dedup_from(items, seen),
{
    law_dedup_distinct(items, seen);
    lemma_dedup_of_distinct(dedup_from(items, seen), seen);
}

/// No repeats: the items that pass have pairwise different hashes, so no
/// text passes twice, and none has a hash that was met before.
pub proof fn law_dedup_distinct(items: Seq<Seq<char>>, seen: Set<u64>)
    ensures
        forall|i: int, j: int|
            0 <= i < j < dedup_from(items, seen).len() ==> text_hash(
                #[trigger] dedup_from(items, seen)[i],
            ) != text_hash(#[trigger] dedup_from(items, seen)[j]),
        forall|i: int, j: int|
            0 <= i < j < dedup_from(items, seen).len() ==> #[trigger] dedup_from(items, seen)[i]
                != #[trigger] dedup_from(items, seen)[j],
        forall|i: int|
            0 <= i < dedup_from(items, seen).len() ==> !seen.contains(
                text_hash(#[trigger] dedup_from(items, seen)[i]),
            ),
    decreases items.len(),
{
    if items.len() > 0 {
        let h = text_hash(items[0]);
        law_dedup_distinct(items.drop_first(), seen);
        law_dedup_distinct(items.drop_first(), seen.insert(h));
        let out = dedup_from(items, seen);
        if seen.contains(h) {
            assert(out == dedup_from(items.drop_first(), seen));
        } else {
            let rest = dedup_from(items.drop_first(), seen.insert(h));
            assert(out == seq![items[0]] + rest);
            assert(out[0] == items[0]);
            assert forall|i: int| 0 <= i < out.len() implies !seen.contains(
                text_hash(#[trigger] out[i]),
            ) by {
                if i > 0 {
                    assert(out[i] == rest[i - 1]);
                }
            }
            assert forall|i: int, j: int| 0 <= i < j < out.len() implies text_hash(
                #[trigger] out[i],
            ) != text_hash(#[trigger] out[j]) by {
                assert(out[j] == rest[j - 1]);
                if i > 0 {
                    assert(out[i] == rest[i - 1]);
                }
            }
        }
    }
}

/// Nothing is invented: every item that passes is one of the items.
pub proof fn law_dedup_from_items(items: Seq<Seq<char>>, seen: Set<u64>)
    ensures
        forall|i: int|
            0 <= i < dedup_from(items, seen).len() ==> items.contains(
                #[trigger] dedup_from(items, seen)[i],
            ),
    decreases items.len(),
{
    if items.len() > 0 {
        let h = text_hash(items[0]);
        law_dedup_from_items(items.drop_first(), seen);
        law_dedup_from_items(items.drop_first(), seen.insert(h));
        let out = dedup_from(items, seen);
        assert forall|i: int| 0 <= i < out.len() implies items.contains(#[trigger] out[i]) by {
            let tail = items.drop_first();
            if seen.contains(h) {
                let rest = dedup_from(tail, seen);
                assert(out == rest);
                assert(tail.contains(rest[i]));
                let k = choose|k: int| 0 <= k < tail.len() && tail[k] == rest[i];
                assert(items[k + 1] == out[i]);
            } else if i == 0 {
                assert(items[0] == out[0]);
            } else {
                let rest = dedup_from(tail, seen.insert(h));
                assert(out[i] == rest[i - 1]);
                assert(tail.contains(rest[i - 1]));
                let k = choose|k: int| 0 <= k < tail.len() && tail[k] == rest[i - 1];
                assert(items[k + 1] == out[i]);
            }
        }
    }
}

/// Nothing is lost but repeats: every item's hash was met before or is the
/// hash of an item that passes.
pub proof fn law_dedup_covers(items: Seq<Seq<char>>, seen: Set<u64>)
    ensures
        forall|j: int|
            0 <= j < items.len() ==> seen.contains(text_hash(#[trigger] items[j])) || exists|
                i: int,
            |
                0 <= i < dedup_from(items, seen).len() && text_hash(dedup_from(items, seen)[i])
                    == text_hash(items[j]),
    decreases items.len(),
{
    if items.len() > 0 {
        let h = text_hash(items[0]);
        law_dedup_covers(items.drop_first(), seen);
        law_dedup_covers(items.drop_first(), seen.insert(h));
        let out = dedup_from(items, seen);
        assert forall|j: int| 0 <= j < items.len() implies seen.contains(
            text_hash(#[trigger] items[j]),
        ) || exists|i: int| 0 <= i < out.len() && text_hash(out[i]) == text_hash(items[j]) by {
            if !seen.contains(text_hash(items[j])) {
                if seen.contains(h) {
                    assert(items.drop_first()[j - 1] == items[j]);
                } else if j == 0 || text_hash(items[j]) == h {
                    assert(text_hash(out[0]) == text_hash(items[j]));
                } else {
                    let rest = dedup_from(items.drop_first(), seen.insert(h));
                    assert(items.drop_first()[j - 1] == items[j]);
                    let i = choose|i: int|
                        0 <= i < rest.len() && text_hash(rest[i]) == text_hash(items[j]);
                    assert(out[i + 1] == rest[i]);
                }
            }
        }
    }
}

} // verus!
