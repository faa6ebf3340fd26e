//! Walking the paths given on the command line, and the directories among
//! them, down to a depth limit.
use std::collections::VecDeque;
use vstd::prelude::*;
use vstd::string::*;
use crate::join::texts;
use crate::text::{decimal, decimal_spec};

verus! {

/// How deep the walk may go into directories.
#[derive(Debug)]
pub enum Recursion {
    /// No limit.
    All,
    /// Directories are entered only above this depth (a positive number).
    N(usize),
}

/// Whether a directory at `depth` may be entered under `limit`.
pub open spec fn recursion_allows(limit: Recursion, depth: nat) -> bool {
    match limit {
        Recursion::All => true,
        Recursion::N(n) => depth < n,
    }
}

/// A limit is well formed when its number of levels is positive, as the
/// tool's limits are.
pub open spec fn recursion_wf(limit: Recursion) -> bool {
    match limit {
        Recursion::All => true,
        Recursion::N(n) => n > 0,
    }
}

/// The tool's limit is well formed, and a well-formed limit always lets the
/// walk enter a directory given on the command line (depth 0).
pub proof fn law_limit_positive(limit: Recursion)
    ensures
        recursion_wf(MAX_DEPTH),
        recursion_wf(limit) ==> recursion_allows(limit, 0),
{
}

/// The text that names a limit: its number, or `unlimited`.
pub open spec fn recursion_text(limit: Recursion) -> Seq<char> {
    match limit {
        Recursion::All => "unlimited"@,
        Recursion::N(n) => decimal_spec(n as nat),
    }
}

/// The limit the tool walks with.
pub const MAX_DEPTH: Recursion = Recursion::All;

impl Recursion {
    /// Whether a directory found at `depth` may be entered.
    pub fn can_recurse(&self, depth: usize) -> (r: bool)
        ensures
            r == recursion_allows(*self, depth as nat),
    {
        match self {
            Recursion::All => true,
            Recursion::N(n) => depth < *n,
        }
    }

    /// The limit as the splash screen shows it.
    pub fn to_string(&self) -> (r: String)
        ensures
            r@ == recursion_text(*self),
    {
        match self {
            Recursion::All => String::from_str("unlimited"),
            Recursion::N(n) => decimal(*n),
        }
    }
}

/// A limit that lets the walk enter a directory at some depth lets it
/// enter every directory above it too.
pub proof fn law_recursion_monotone(limit: Recursion, shallow: nat, deep: nat)
    requires
        shallow <= deep,
        recursion_allows(limit, deep),
    ensures
        recursion_allows(limit, shallow),
{
}

/// Whether the asynchronous walk reads a directory found at `depth`: it
/// reads every directory given on the command line (depth 0), and a
/// directory below one where the limit allowed the depth of the directory
/// holding it.
pub open spec fn stream_reads(limit: Recursion, depth: nat) -> bool {
    depth == 0 || recursion_allows(limit, (depth - 1) as nat)
}

/// Decides whether the asynchronous walk reads a directory at `depth`.
pub fn stream_enters(limit: &Recursion, depth: usize) -> (r: bool)
    ensures
        r == stream_reads(*limit, depth as nat),
{
    depth == 0 || limit.can_recurse(depth - 1)
}

/// How the two walks relate: the asynchronous walk reads a directory one
/// level deeper than the queued walk enters (a directory at `depth + 1`
/// exactly when the queued walk would enter one at `depth`), and without a
/// limit, as the tool runs, both read every directory.
pub proof fn law_walks_agree(limit: Recursion, depth: nat)
    ensures
        stream_reads(limit, depth + 1) == recursion_allows(limit, depth),
        recursion_allows(limit, depth) ==> stream_reads(limit, depth),
        limit is All ==> stream_reads(limit, depth) && recursion_allows(limit, depth),
{
}

/// Without recursion, a path given on the command line is kept only when
/// it is not a directory; directories are passed over with a warning.
pub fn keeps_path(is_dir: bool) -> (r: bool)
    ensures
        r == !is_dir,
{
    !is_dir
}

/// What to do with a path taken from the walk.
#[derive(Debug, PartialEq, Eq, Structural)]
pub enum WalkAction {
    /// It is not a directory: hand it on.
    Emit,
    /// A directory that may be entered: read it and queue its entries one
    /// level deeper.
    Descend,
    /// A directory beyond the limit: drop it.
    Skip,
}

/// The action for a path at `depth` that is, or is not, a directory.
pub open spec fn walk_action(limit: Recursion, depth: nat, is_dir: bool) -> WalkAction {
    if !is_dir {
        WalkAction::Emit
    } else if recursion_allows(limit, depth) {
        WalkAction::Descend
    } else {
        WalkAction::Skip
    }
}

/// Decides what to do with a path at `depth`, given whether it is a
/// directory.
pub fn classify(limit: &Recursion, depth: usize, is_dir: bool) -> (r: WalkAction)
    ensures
        r == walk_action(*limit, depth as nat, is_dir),
{
    if !is_dir {
        WalkAction::Emit
    } else if limit.can_recurse(depth) {
        WalkAction::Descend
    } else {
        WalkAction::Skip
    }
}

/// `queue` after the entries of a directory are put at its front one by
/// one, each at `depth`: the last entry ends up first.
pub open spec fn entries_queued(
    queue: Seq<(Seq<char>, usize)>,
    entries: Seq<Seq<char>>,
    depth: usize,
) -> Seq<(Seq<char>, usize)> {
    Seq::new(entries.len(), |k: int| (entries[entries.len() - 1 - k], depth)) + queue
}

/// `queue` once the next of the `pending` paths, if any, is moved in at
/// its front, at depth 0.
pub open spec fn with_input(
    queue: Seq<(Seq<char>, usize)>,
    pending: Seq<Seq<char>>,
) -> Seq<(Seq<char>, usize)> {
    if pending.len() > 0 {
        seq![(pending[0], 0usize)] + queue
    } else {
        queue
    }
}

/// The paths still given after one is moved into the queue.
pub open spec fn pending_after(pending: Seq<Seq<char>>) -> Seq<Seq<char>> {
    if pending.len() > 0 {
        pending.drop_first()
    } else {
        pending
    }
}

/// What `n` successive pulls hand out when every path pulled is emitted
/// (no directory is entered), starting from `queue` and `pending`; it stops
/// at the first pull that finds nothing.
pub open spec fn emitted_run(
    queue: Seq<(Seq<char>, usize)>,
    pending: Seq<Seq<char>>,
    n: nat,
) -> Seq<(Seq<char>, usize)>
    decreases n,
{
    if n == 0 {
        Seq::empty()
    } else {
        let q1 = with_input(queue, pending);
        if q1.len() == 0 {
            Seq::empty()
        } else {
            seq![q1.last()] + emitted_run(q1.drop_last(), pending_after(pending), (n - 1) as nat)
        }
    }
}

/// Paths that are not directories come out as given: from an empty queue,
/// the pulls hand out every given path once, in the order given, each at
/// depth 0, and the pull after them finds nothing.
pub proof fn law_inputs_in_order(pending: Seq<Seq<char>>)
    ensures
        emitted_run(Seq::empty(), pending, pending.len() + 1) == pending.map_values(
            |p: Seq<char>| (p, 0usize),
        ),
    decreases pending.len(),
{
    let e = Seq::<(Seq<char>, usize)>::empty();
    if pending.len() == 0 {
        assert(with_input(e, pending).len() == 0);
        assert(emitted_run(e, pending, 1) =~= Seq::<(Seq<char>, usize)>::empty());
        assert(pending.map_values(|p: Seq<char>| (p, 0usize)) =~= Seq::<
            (Seq<char>, usize),
        >::empty());
    } else {
        law_inputs_in_order(pending.drop_first());
        let q1 = with_input(e, pending);
        assert(q1 =~= seq![(pending[0], 0usize)]);
        assert(q1.drop_last() =~= e);
        assert(pending.map_values(|p: Seq<char>| (p, 0usize)) =~= seq![(pending[0], 0usize)]
            + pending.drop_first().map_values(|p: Seq<char>| (p, 0usize)));
    }
}

/// A walk that has run out stays out: after a pull that finds nothing, the
/// queue and the given paths are empty, so the next pull finds nothing too.
pub proof fn law_exhausted_stays_exhausted(
    queue: Seq<(Seq<char>, usize)>,
    pending: Seq<Seq<char>>,
)
    requires
        with_input(queue, pending).len() == 0,
    ensures
        queue.len() == 0,
        pending.len() == 0,
        with_input(with_input(queue, pending), pending_after(pending)).len() == 0,
{
}

/// A path is only handed on when it is not a directory.
pub proof fn law_no_directory_emitted(limit: Recursion, depth: nat, is_dir: bool)
    ensures
        walk_action(limit, depth, is_dir) == WalkAction::Emit ==> !is_dir,
        walk_action(limit, depth, is_dir) == WalkAction::Descend ==> is_dir && recursion_allows(
            limit,
            depth,
        ),
{
}

/// Every queued path below a given one lies where the limit let the walk
/// enter its directory: a path at depth `d >= 1` was queued from a
/// directory at depth `d - 1` that the limit allows.
pub open spec fn depths_allowed(limit: Recursion, queue: Seq<(Seq<char>, usize)>) -> bool {
    forall|i: int|
        0 <= i < queue.len() && (#[trigger] queue[i]).1 >= 1 ==> recursion_allows(
            limit,
            (queue[i].1 - 1) as nat,
        )
}

/// The walk keeps to its limit: moving a given path in (at depth 0),
/// taking a path out, and queuing the entries of a directory that the
/// limit let it enter all keep every queued path within the limit.
pub proof fn law_depths_allowed_kept(
    limit: Recursion,
    queue: Seq<(Seq<char>, usize)>,
    pending: Seq<Seq<char>>,
    entries: Seq<Seq<char>>,
    parent_depth: usize,
)
    requires
        depths_allowed(limit, queue),
        parent_depth < usize::MAX,
    ensures
        depths_allowed(limit, with_input(queue, pending)),
        with_input(queue, pending).len() > 0 ==> depths_allowed(
            limit,
            with_input(queue, pending).drop_last(),
        ),
        recursion_allows(limit, parent_depth as nat) ==> depths_allowed(
            limit,
            entries_queued(queue, entries, (parent_depth + 1) as usize),
        ),
{
    let q1 = with_input(queue, pending);
    assert forall|i: int| 0 <= i < q1.len() && (#[trigger] q1[i]).1 >= 1 implies recursion_allows(
        limit,
        (q1[i].1 - 1) as nat,
    ) by {
        if pending.len() > 0 && i > 0 {
            assert(q1[i] == queue[i - 1]);
        }
    }
    if q1.len() > 0 {
        let q2 = q1.drop_last();
        assert forall|i: int| 0 <= i < q2.len() && (#[trigger] q2[i]).1 >= 1 implies recursion_allows(
            limit,
            (q2[i].1 - 1) as nat,
        ) by {
            assert(q2[i] == q1[i]);
        }
    }
    if recursion_allows(limit, parent_depth as nat) {
        let q = entries_queued(queue, entries, (parent_depth + 1) as usize);
        assert forall|i: int| 0 <= i < q.len() && (#[trigger] q[i]).1 >= 1 implies recursion_allows(
            limit,
            (q[i].1 - 1) as nat,
        ) by {
            if i >= entries.len() {
                assert(q[i] == queue[i - entries.len()]);
            }
        }
    }
}

/// The walk over paths and the directories among them. Paths wait in a
/// queue with their depth; new paths go in at the front and the next path
/// is taken from the back. Each step first moves one of the given paths,
/// at depth 0, into the queue.
#[derive(Debug)]
pub struct DirWalker {
    paths: VecDeque<(String, usize)>,
    inputs: Vec<String>,
    next_input: usize,
}

impl DirWalker {
    /// The queue of waiting paths with their depths, front first.
    pub closed spec fn queue(&self) -> Seq<(Seq<char>, usize)> {
        self.paths@.map_values(|p: (String, usize)| (p.0@, p.1))
    }

    /// The given paths not yet moved into the queue.
    pub closed spec fn pending(&self) -> Seq<Seq<char>> {
        if self.next_input <= self.inputs.len() {
            texts(self.inputs@).skip(self.next_input as int)
        } else {
            Seq::empty()
        }
    }

    /// The queue once the next given path, if any, is moved in.
    pub open spec fn queue_with_input(&self) -> Seq<(Seq<char>, usize)> {
        with_input(self.queue(), self.pending())
    }

    /// Takes the next path to look at: moves the next given path, if any,
    /// to the front of the queue, then takes the path at the back.
    pub fn pull(&mut self) -> (r: Option<(String, usize)>)
        ensures
            final(self).pending() == pending_after(old(self).pending()),
            match r {
                None => {
                    &&& old(self).queue_with_input().len() == 0
                    &&& final(self).queue().len() == 0
                    &&& final(self).pending().len() == 0
                },
                Some(p) => {
                    &&& old(self).queue_with_input().len() > 0
                    &&& (p.0@, p.1) == old(self).queue_with_input().last()
                    &&& final(self).queue() == old(self).queue_with_input().drop_last()
                },
            },
    {
        let ghost q0 = self.queue();
        let ghost p0 = self.pending();
        if self.next_input < self.inputs.len() {
            let next = self.inputs[self.next_input].clone();
            self.paths.push_front((next, 0));
            self.next_input = self.next_input + 1;
            proof {
                assert(p0[0] == next@);
                assert(self.pending() =~= p0.drop_first());
                assert(self.queue() =~= seq![(next@, 0usize)] + q0);
            }
        } else {
            assert(self.pending() =~= p0);
            assert(p0.len() == 0);
        }
        let ghost q1 = self.queue();
        let r = self.paths.pop_back();
        proof {
            if r.is_some() {
                assert(self.queue() =~= q1.drop_last());
            }
        }
        r
    }

    /// Queues the entries of a directory found at `parent_depth`, one level
    /// deeper, each put at the front in the order given.
    pub fn push_entries(&mut self, entries: Vec<String>, parent_depth: usize)
        requires
            parent_depth < usize::MAX,
        ensures
            final(self).pending() == old(self).pending(),
            final(self).queue() == entries_queued(
                old(self).queue(),
                texts(entries@),
                (parent_depth + 1) as usize,
            ),
    {
        let depth = parent_depth + 1;
        let ghost q0 = self.queue();
        let ghost es = texts(entries@);
        let n = entries.len();
        let mut i: usize = 0;
        while i < n
            invariant
                n == entries.len(),
                es == texts(entries@),
                i <= n,
                self.pending() == old(self).pending(),
                q0 == old(self).queue(),
                self.queue() == entries_queued(q0, es.take(i as int), depth),
            decreases n - i,
        {
            let e = entries[i].clone();
            let ghost before = self.queue();
            self.paths.push_front((e, depth));
            proof {
                assert(self.queue() =~= seq![(e@, depth)] + before);
                assert(entries_queued(q0, es.take(i + 1), depth) =~= seq![(e@, depth)]
                    + entries_queued(q0, es.take(i as int), depth));
            }
            i = i + 1;
        }
        assert(es.take(n as int) =~= es);
    }
}

/// Starts a walk over `inputs` with an empty queue.
pub fn walk_dirs(inputs: Vec<String>) -> (w: DirWalker)
    ensures
        w.queue() == Seq::<(Seq<char>, usize)>::empty(),
        w.pending() == texts(inputs@),
{
    let paths: VecDeque<(String, usize)> = if inputs.len() == 0 {
        VecDeque::new()
    } else {
        VecDeque::with_capacity(inputs.len())
    };
    let w = DirWalker { paths, inputs, next_input: 0 };
    assert(w.queue() =~= Seq::<(Seq<char>, usize)>::empty());
    assert(w.pending() =~= texts(w.inputs@));
    w
}

/// The depth limit holds of the whole walk: when every queued path lies
/// within a limit of `n` levels and a directory is entered only where the
/// limit allows it, every path queued afterwards lies within it too.
pub proof fn law_depth_within_limit(
    queue: Seq<(Seq<char>, usize)>,
    entries: Seq<Seq<char>>,
    parent_depth: usize,
    n: usize,
)
    requires
        forall|i: int| 0 <= i < queue.len() ==> (#[trigger] queue[i]).1 <= n,
        recursion_allows(Recursion::N(n), parent_depth as nat),
    ensures
        forall|i: int|
            0 <= i < entries_queued(queue, entries, (parent_depth + 1) as usize).len() ==> (
            #[trigger] entries_queued(queue, entries, (parent_depth + 1) as usize)[i]).1 <= n,
{
    let q = entries_queued(queue, entries, (parent_depth + 1) as usize);
    assert forall|i: int| 0 <= i < q.len() implies (#[trigger] q[i]).1 <= n by {
        if i >= entries.len() {
            assert(q[i] == queue[i - entries.len()]);
        }
    }
}

} // verus!
