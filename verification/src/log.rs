//! Logs that several parties know in part.

use vstd::prelude::*;

verus! {

/// Whether two parties know one log: what one of them knows is what the other
/// knows, or the beginning of it.
pub open spec fn one_log<T>(a: Seq<T>, b: Seq<T>) -> bool {
    a.is_prefix_of(b) || b.is_prefix_of(a)
}

/// A log as far as either of two parties knows it.
pub open spec fn longer<T>(a: Seq<T>, b: Seq<T>) -> Seq<T> {
    if a.len() <= b.len() {
        b
    } else {
        a
    }
}

/// Of one log, either party knows a beginning.
pub proof fn lemma_one_log<T>(a: Seq<T>, b: Seq<T>)
    requires
        one_log(a, b),
    ensures
        a.is_prefix_of(longer(a, b)),
        b.is_prefix_of(longer(a, b)),
        longer(a, b) == a || longer(a, b) == b,
{
    if a.len() == b.len() {
        assert(a =~= b);
    }
}

/// What a filter lets through is in the log, and as the filter asks.
pub proof fn lemma_filtered<T>(log: Seq<T>, pred: spec_fn(T) -> bool, item: T)
    requires
        log.filter(pred).contains(item),
    ensures
        pred(item),
        log.contains(item),
    decreases log.len(),
{
    reveal(Seq::filter);
    if log.len() > 0 {
        let earlier = log.drop_last();
        let through = earlier.filter(pred);
        let i = choose|i: int| 0 <= i < log.filter(pred).len() && log.filter(pred)[i] == item;
        if i < through.len() {
            assert(through[i] == item);
            lemma_filtered(earlier, pred, item);
            let k = choose|k: int| 0 <= k < earlier.len() && earlier[k] == item;
            assert(log[k] == item);
        } else {
            assert(log[log.len() - 1] == item);
        }
    }
}

} // verus!
