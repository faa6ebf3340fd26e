//! Joining strings with a separator.
use vstd::prelude::*;
use vstd::string::*;

verus! {

/// `list` joined by `sep`: the items in order with `sep` between each
/// neighbouring pair, and the empty text for an empty list.
pub open spec fn seq_join(list: Seq<Seq<char>>, sep: Seq<char>) -> Seq<char>
    decreases list.len(),
{
    if list.len() == 0 {
        Seq::empty()
    } else if list.len() == 1 {
        list[0]
    } else {
        seq_join(list.drop_last(), sep) + sep + list.last()
    }
}

/// The texts of a list of strings.
pub open spec fn texts(list: Seq<String>) -> Seq<Seq<char>> {
    list.map_values(|s: String| s@)
}

/// Joining a collection of strings into one.
pub trait StringJoinExt: Sized {
    /// The items of `self`, in order, with `sep` between neighbours.
    fn join(self, sep: &str) -> String;
}

impl StringJoinExt for Vec<String> {
    fn join(self, sep: &str) -> (r: String)
        ensures
            r@ == seq_join(texts(self@), sep@),
    {
        let mut r = String::new();
        let ghost all = texts(self@);
        let n = self.len();
        let mut i: usize = 0;
        while i < n
            invariant
                n == self.len(),
                all == texts(self@),
                i <= n,
                r@ == seq_join(all.take(i as int), sep@),
            decreases n - i,
        {
            if i != 0 {
                r.append(sep);
            }
            r.append(self[i].as_str());
            assert(all.take(i + 1).drop_last() =~= all.take(i as int));
            i = i + 1;
        }
        assert(all.take(n as int) =~= all);
        r
    }
}

/// Length law: the joined text is as long as all items together plus one
/// separator between each neighbouring pair.
pub proof fn law_join_len(list: Seq<Seq<char>>, sep: Seq<char>)
    requires
        list.len() > 0,
    ensures
        seq_join(list, sep).len() == total_len(list) + (list.len() - 1) * sep.len(),
    decreases list.len(),
{
    if list.len() > 1 {
        law_join_len(list.drop_last(), sep);
        assert(list.drop_last().push(list.last()) =~= list);
        lemma_total_len_push(list.drop_last(), list.last());
        assert((list.len() - 1) * sep.len() == (list.len() - 2) * sep.len() + sep.len())
            by (nonlinear_arith);
    } else {
        assert(total_len(list.drop_last()) == 0);
    }
}

/// The summed length of all items.
pub open spec fn total_len(list: Seq<Seq<char>>) -> int
    decreases list.len(),
{
    if list.len() == 0 {
        0
    } else {
        total_len(list.drop_last()) + list.last().len()
    }
}

proof fn lemma_total_len_push(list: Seq<Seq<char>>, x: Seq<char>)
    ensures
        total_len(list.push(x)) == total_len(list) + x.len(),
{
    assert(list.push(x).drop_last() =~= list);
}

/// Appending law: joining a list with one more item gives the join of the
/// list, the separator, and the item (the separator only when the list was
/// not empty).
pub proof fn law_join_push(list: Seq<Seq<char>>, x: Seq<char>, sep: Seq<char>)
    ensures
        seq_join(list.push(x), sep) == if list.len() == 0 {
            x
        } else {
            seq_join(list, sep) + sep + x
        },
{
    assert(list.push(x).drop_last() =~= list);
}

} // verus!
