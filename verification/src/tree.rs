//! What a whole walk yields, on a directory tree that stays as it is: the
//! walk hands out each file within the depth limit exactly once, and
//! nothing else.
use vstd::prelude::*;
use vstd::multiset::Multiset;
use crate::walk::{
    entries_queued, pending_after, recursion_allows, walk_action, with_input, Recursion, WalkAction,
};

verus! {

/// A directory tree that stays as it is, seen through three functions of a
/// path: whether it is a directory, the paths of its entries in the order
/// the directory lists them, and its height. `tree_ok` holds when every
/// entry of a directory is lower than the directory, so the tree is finite
/// below each path.
pub open spec fn tree_ok(
    is_dir: spec_fn(Seq<char>) -> bool,
    entries: spec_fn(Seq<char>) -> Seq<Seq<char>>,
    height: spec_fn(Seq<char>) -> nat,
) -> bool {
    forall|p: Seq<char>, i: int|
        is_dir(p) && 0 <= i < entries(p).len() ==> height(#[trigger] entries(p)[i]) < height(p)
}

/// The files that a path found at `depth` stands for: the path itself when
/// it is not a directory; for a directory that the limit lets the walk
/// enter, the files of its entries one level deeper; otherwise none.
pub open spec fn files_under(
    is_dir: spec_fn(Seq<char>) -> bool,
    entries: spec_fn(Seq<char>) -> Seq<Seq<char>>,
    height: spec_fn(Seq<char>) -> nat,
    limit: Recursion,
    p: Seq<char>,
    depth: nat,
) -> Multiset<Seq<char>>
    decreases height(p), 1nat, 0nat,
{
    if !is_dir(p) {
        Multiset::singleton(p)
    } else if !recursion_allows(limit, depth) {
        Multiset::empty()
    } else {
        files_in(is_dir, entries, height, limit, entries(p), height(p), depth + 1)
    }
}

/// The files that the paths `es`, all found at `depth` and lower than
/// `bound`, stand for together.
pub open spec fn files_in(
    is_dir: spec_fn(Seq<char>) -> bool,
    entries: spec_fn(Seq<char>) -> Seq<Seq<char>>,
    height: spec_fn(Seq<char>) -> nat,
    limit: Recursion,
    es: Seq<Seq<char>>,
    bound: nat,
    depth: nat,
) -> Multiset<Seq<char>>
    decreases bound, 0nat, es.len(),
{
    if es.len() == 0 {
        Multiset::empty()
    } else if height(es[0]) < bound {
        files_under(is_dir, entries, height, limit, es[0], depth).add(
            files_in(is_dir, entries, height, limit, es.drop_first(), bound, depth),
        )
    } else {
        Multiset::empty()
    }
}

/// The files that the queued paths stand for, each at its depth.
pub open spec fn queued_files(
    is_dir: spec_fn(Seq<char>) -> bool,
    entries: spec_fn(Seq<char>) -> Seq<Seq<char>>,
    height: spec_fn(Seq<char>) -> nat,
    limit: Recursion,
    queue: Seq<(Seq<char>, usize)>,
) -> Multiset<Seq<char>>
    decreases queue.len(),
{
    if queue.len() == 0 {
        Multiset::empty()
    } else {
        files_under(is_dir, entries, height, limit, queue[0].0, queue[0].1 as nat).add(
            queued_files(is_dir, entries, height, limit, queue.drop_first()),
        )
    }
}

/// The files that the paths still to be given stand for, each at depth 0.
pub open spec fn pending_files(
    is_dir: spec_fn(Seq<char>) -> bool,
    entries: spec_fn(Seq<char>) -> Seq<Seq<char>>,
    height: spec_fn(Seq<char>) -> nat,
    limit: Recursion,
    pending: Seq<Seq<char>>,
) -> Multiset<Seq<char>>
    decreases pending.len(),
{
    if pending.len() == 0 {
        Multiset::empty()
    } else {
        files_under(is_dir, entries, height, limit, pending[0], 0).add(
            pending_files(is_dir, entries, height, limit, pending.drop_first()),
        )
    }
}

/// One turn of the walk as the program runs it on the tree: a pull
/// (`DirWalker::pull`); if it found nothing the walk is over; else the path
/// taken is emitted, or, a directory the limit allows, has its entries
/// queued one level deeper (`DirWalker::push_entries`), or is dropped, as
/// `classify` decides. The result: whether the walk is over, the path
/// emitted if any, the queue and the paths still to be given.
pub open spec fn walk_step(
    is_dir: spec_fn(Seq<char>) -> bool,
    entries: spec_fn(Seq<char>) -> Seq<Seq<char>>,
    limit: Recursion,
    queue: Seq<(Seq<char>, usize)>,
    pending: Seq<Seq<char>>,
) -> (bool, Option<Seq<char>>, Seq<(Seq<char>, usize)>, Seq<Seq<char>>) {
    let q1 = with_input(queue, pending);
    let p2 = pending_after(pending);
    if q1.len() == 0 {
        (true, None, q1, p2)
    } else {
        let (p, d) = q1.last();
        let q2 = q1.drop_last();
        match walk_action(limit, d as nat, is_dir(p)) {
            WalkAction::Emit => (false, Some(p), q2, p2),
            WalkAction::Descend => (false, None, entries_queued(q2, entries(p), (d + 1) as usize), p2),
            WalkAction::Skip => (false, None, q2, p2),
        }
    }
}

/// What `n` turns of the walk emit, stopping when the walk is over.
pub open spec fn run_emitted(
    is_dir: spec_fn(Seq<char>) -> bool,
    entries: spec_fn(Seq<char>) -> Seq<Seq<char>>,
    limit: Recursion,
    queue: Seq<(Seq<char>, usize)>,
    pending: Seq<Seq<char>>,
    n: nat,
) -> Multiset<Seq<char>>
    decreases n,
{
    if n == 0 {
        Multiset::empty()
    } else {
        let st = walk_step(is_dir, entries, limit, queue, pending);
        if st.0 {
            Multiset::empty()
        } else {
            let here = match st.1 {
                Some(p) => Multiset::singleton(p),
                None => Multiset::empty(),
            };
            here.add(run_emitted(is_dir, entries, limit, st.2, st.3, (n - 1) as nat))
        }
    }
}

/// The queue and the paths still to be given after `n` turns, and whether
/// the walk was over by then.
pub open spec fn run_state(
    is_dir: spec_fn(Seq<char>) -> bool,
    entries: spec_fn(Seq<char>) -> Seq<Seq<char>>,
    limit: Recursion,
    queue: Seq<(Seq<char>, usize)>,
    pending: Seq<Seq<char>>,
    n: nat,
) -> (Seq<(Seq<char>, usize)>, Seq<Seq<char>>, bool)
    decreases n,
{
    if n == 0 {
        (queue, pending, false)
    } else {
        let st = walk_step(is_dir, entries, limit, queue, pending);
        if st.0 {
            (st.2, st.3, true)
        } else {
            run_state(is_dir, entries, limit, st.2, st.3, (n - 1) as nat)
        }
    }
}

/// Depths stay representable: each queued path's depth plus its height,
/// and each given path's height, is below `usize::MAX`.
pub open spec fn depths_fit(
    height: spec_fn(Seq<char>) -> nat,
    queue: Seq<(Seq<char>, usize)>,
    pending: Seq<Seq<char>>,
) -> bool {
    &&& forall|i: int| 0 <= i < queue.len() ==> (#[trigger] queue[i]).1 + height(queue[i].0) < usize::MAX
    &&& forall|i: int| 0 <= i < pending.len() ==> height(#[trigger] pending[i]) < usize::MAX
}

proof fn lemma_queued_concat(
    is_dir: spec_fn(Seq<char>) -> bool,
    entries: spec_fn(Seq<char>) -> Seq<Seq<char>>,
    height: spec_fn(Seq<char>) -> nat,
    limit: Recursion,
    a: Seq<(Seq<char>, usize)>,
    b: Seq<(Seq<char>, usize)>,
)
    ensures
        queued_files(is_dir, entries, height, limit, a + b) =~= queued_files(
            is_dir,
            entries,
            height,
            limit,
            a,
        ).add(queued_files(is_dir, entries, height, limit, b)),
    decreases a.len(),
{
    if a.len() == 0 {
        assert(a + b =~= b);
    } else {
        lemma_queued_concat(is_dir, entries, height, limit, a.drop_first(), b);
        assert((a + b).drop_first() =~= a.drop_first() + b);
        assert((a + b)[0] == a[0]);
    }
}

proof fn lemma_queued_single(
    is_dir: spec_fn(Seq<char>) -> bool,
    entries: spec_fn(Seq<char>) -> Seq<Seq<char>>,
    height: spec_fn(Seq<char>) -> nat,
    limit: Recursion,
    x: Seq<char>,
    d: usize,
)
    ensures
        queued_files(is_dir, entries, height, limit, seq![(x, d)]) =~= files_under(
            is_dir,
            entries,
            height,
            limit,
            x,
            d as nat,
        ),
{
    let one = seq![(x, d)];
    assert(one.drop_first() =~= Seq::<(Seq<char>, usize)>::empty());
    assert(one[0] == (x, d));
    assert(queued_files(is_dir, entries, height, limit, one.drop_first()) =~= Multiset::<
        Seq<char>,
    >::empty());
}

proof fn lemma_entries_files(
    is_dir: spec_fn(Seq<char>) -> bool,
    entries: spec_fn(Seq<char>) -> Seq<Seq<char>>,
    height: spec_fn(Seq<char>) -> nat,
    limit: Recursion,
    es: Seq<Seq<char>>,
    bound: nat,
    depth: usize,
)
    requires
        forall|i: int| 0 <= i < es.len() ==> height(#[trigger] es[i]) < bound,
    ensures
        queued_files(
            is_dir,
            entries,
            height,
            limit,
            Seq::new(es.len(), |k: int| (es[es.len() - 1 - k], depth)),
        ) =~= files_in(is_dir, entries, height, limit, es, bound, depth as nat),
    decreases es.len(),
{
    let r = Seq::new(es.len(), |k: int| (es[es.len() - 1 - k], depth));
    if es.len() == 0 {
        assert(r =~= Seq::<(Seq<char>, usize)>::empty());
    } else {
        let rest = es.drop_first();
        lemma_entries_files(is_dir, entries, height, limit, rest, bound, depth);
        let r2 = Seq::new(rest.len(), |k: int| (rest[rest.len() - 1 - k], depth));
        assert(r =~= r2 + seq![(es[0], depth)]);
        lemma_queued_concat(is_dir, entries, height, limit, r2, seq![(es[0], depth)]);
        lemma_queued_single(is_dir, entries, height, limit, es[0], depth);
    }
}

/// One turn of the walk keeps the files accounted for: what it emits,
/// plus the files of what is left queued and given, are the files of what
/// was queued and given before; and depths stay representable.
pub proof fn law_walk_step_keeps_files(
    is_dir: spec_fn(Seq<char>) -> bool,
    entries: spec_fn(Seq<char>) -> Seq<Seq<char>>,
    height: spec_fn(Seq<char>) -> nat,
    limit: Recursion,
    queue: Seq<(Seq<char>, usize)>,
    pending: Seq<Seq<char>>,
)
    requires
        tree_ok(is_dir, entries, height),
        depths_fit(height, queue, pending),
    ensures
        ({
            let st = walk_step(is_dir, entries, limit, queue, pending);
            let here = match st.1 {
                Some(p) => Multiset::singleton(p),
                None => Multiset::empty(),
            };
            &&& depths_fit(height, st.2, st.3)
            &&& here.add(queued_files(is_dir, entries, height, limit, st.2)).add(
                pending_files(is_dir, entries, height, limit, st.3),
            ) =~= queued_files(is_dir, entries, height, limit, queue).add(
                pending_files(is_dir, entries, height, limit, pending),
            )
            &&& st.0 ==> st.2.len() == 0 && st.3.len() == 0 && here =~= Multiset::empty()
        }),
{
    let q1 = with_input(queue, pending);
    let p2 = pending_after(pending);
    // moving a given path in keeps the total
    assert(queued_files(is_dir, entries, height, limit, q1).add(
        pending_files(is_dir, entries, height, limit, p2),
    ) =~= queued_files(is_dir, entries, height, limit, queue).add(
        pending_files(is_dir, entries, height, limit, pending),
    )) by {
        if pending.len() > 0 {
            assert(q1 =~= seq![(pending[0], 0usize)] + queue);
            lemma_queued_concat(is_dir, entries, height, limit, seq![(pending[0], 0usize)], queue);
            lemma_queued_single(is_dir, entries, height, limit, pending[0], 0usize);
            assert(p2 == pending.drop_first());
        }
    }
    assert(depths_fit(height, q1, p2)) by {
        if pending.len() > 0 {
            assert forall|i: int| 0 <= i < q1.len() implies (#[trigger] q1[i]).1 + height(q1[i].0)
                < usize::MAX by {
                if i > 0 {
                    assert(q1[i] == queue[i - 1]);
                }
            }
            assert forall|i: int| 0 <= i < p2.len() implies height(#[trigger] p2[i]) < usize::MAX by {
                assert(p2[i] == pending[i + 1]);
            }
        }
    }
    if q1.len() > 0 {
        let (p, d) = q1.last();
        let q2 = q1.drop_last();
        assert(q1 =~= q2 + seq![(p, d)]);
        lemma_queued_concat(is_dir, entries, height, limit, q2, seq![(p, d)]);
        lemma_queued_single(is_dir, entries, height, limit, p, d);
        let fu = files_under(is_dir, entries, height, limit, p, d as nat);
        assert(queued_files(is_dir, entries, height, limit, q1) =~= queued_files(
            is_dir,
            entries,
            height,
            limit,
            q2,
        ).add(fu));
        assert(depths_fit(height, q2, p2)) by {
            assert forall|i: int| 0 <= i < q2.len() implies (#[trigger] q2[i]).1 + height(q2[i].0)
                < usize::MAX by {
                assert(q2[i] == q1[i]);
            }
        }
        assert(d + height(p) < usize::MAX) by {
            assert(q1[q1.len() - 1] == (p, d));
        }
        match walk_action(limit, d as nat, is_dir(p)) {
            WalkAction::Emit => {
                assert(fu =~= Multiset::singleton(p));
            },
            WalkAction::Skip => {
                assert(fu =~= Multiset::<Seq<char>>::empty());
            },
            WalkAction::Descend => {
                let es = entries(p);
                let dd = (d + 1) as usize;
                assert forall|i: int| 0 <= i < es.len() implies height(#[trigger] es[i]) < height(
                    p,
                ) by {
                    assert(height(entries(p)[i]) < height(p));
                }
                lemma_entries_files(is_dir, entries, height, limit, es, height(p), dd);
                let r = Seq::new(es.len(), |k: int| (es[es.len() - 1 - k], dd));
                let q3 = entries_queued(q2, es, dd);
                assert(q3 =~= r + q2);
                lemma_queued_concat(is_dir, entries, height, limit, r, q2);
                assert(fu =~= files_in(is_dir, entries, height, limit, es, height(p), dd as nat));
                assert(depths_fit(height, q3, p2)) by {
                    assert forall|i: int| 0 <= i < q3.len() implies (#[trigger] q3[i]).1 + height(
                        q3[i].0,
                    ) < usize::MAX by {
                        if i < es.len() {
                            assert(q3[i] == (es[es.len() - 1 - i], dd));
                            assert(height(es[es.len() - 1 - i]) < height(p));
                        } else {
                            assert(q3[i] == q2[i - es.len()]);
                        }
                    }
                }
            },
        }
    }
}

/// The run law: on a tree that stays as it is, at every point of a walk
/// started from an empty queue and the paths `inputs`, what it has emitted
/// together with the files still queued or to be given are exactly the
/// files of the inputs; so when the walk is over it has emitted each file
/// within the depth limit exactly once (each non-directory below an input
/// whose directories the limit let it enter, inputs that are files
/// themselves included) and nothing else.
pub proof fn law_walk_emits_each_file_once(
    is_dir: spec_fn(Seq<char>) -> bool,
    entries: spec_fn(Seq<char>) -> Seq<Seq<char>>,
    height: spec_fn(Seq<char>) -> nat,
    limit: Recursion,
    queue: Seq<(Seq<char>, usize)>,
    pending: Seq<Seq<char>>,
    n: nat,
)
    requires
        tree_ok(is_dir, entries, height),
        depths_fit(height, queue, pending),
    ensures
        ({
            let (q, p, over) = run_state(is_dir, entries, limit, queue, pending, n);
            &&& run_emitted(is_dir, entries, limit, queue, pending, n).add(
                queued_files(is_dir, entries, height, limit, q),
            ).add(pending_files(is_dir, entries, height, limit, p)) =~= queued_files(
                is_dir,
                entries,
                height,
                limit,
                queue,
            ).add(pending_files(is_dir, entries, height, limit, pending))
            &&& over ==> run_emitted(is_dir, entries, limit, queue, pending, n) =~= queued_files(
                is_dir,
                entries,
                height,
                limit,
                queue,
            ).add(pending_files(is_dir, entries, height, limit, pending))
        }),
    decreases n,
{
    let e = Multiset::<Seq<char>>::empty();
    if n == 0 {
    } else {
        law_walk_step_keeps_files(is_dir, entries, height, limit, queue, pending);
        let st = walk_step(is_dir, entries, limit, queue, pending);
        if st.0 {
            assert(queued_files(is_dir, entries, height, limit, st.2) =~= e);
            assert(pending_files(is_dir, entries, height, limit, st.3) =~= e);
        } else {
            law_walk_emits_each_file_once(is_dir, entries, height, limit, st.2, st.3, (n - 1) as nat);
            let (q, p, over) = run_state(is_dir, entries, limit, st.2, st.3, (n - 1) as nat);
            if over {
                assert(queued_files(is_dir, entries, height, limit, q) =~= e) by {
                    lemma_over_is_empty(is_dir, entries, limit, st.2, st.3, (n - 1) as nat);
                }
                assert(pending_files(is_dir, entries, height, limit, p) =~= e) by {
                    lemma_over_is_empty(is_dir, entries, limit, st.2, st.3, (n - 1) as nat);
                }
            }
        }
    }
}

proof fn lemma_over_is_empty(
    is_dir: spec_fn(Seq<char>) -> bool,
    entries: spec_fn(Seq<char>) -> Seq<Seq<char>>,
    limit: Recursion,
    queue: Seq<(Seq<char>, usize)>,
    pending: Seq<Seq<char>>,
    n: nat,
)
    ensures
        run_state(is_dir, entries, limit, queue, pending, n).2 ==> run_state(
            is_dir,
            entries,
            limit,
            queue,
            pending,
            n,
        ).0.len() == 0 && run_state(is_dir, entries, limit, queue, pending, n).1.len() == 0,
    decreases n,
{
    if n > 0 {
        let st = walk_step(is_dir, entries, limit, queue, pending);
        if !st.0 {
            lemma_over_is_empty(is_dir, entries, limit, st.2, st.3, (n - 1) as nat);
        }
    }
}

} // verus!
