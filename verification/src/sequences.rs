//! Facts on sequences.

use vstd::prelude::*;

verus! {

/// What was kept of a sequence was in it.
pub proof fn lemma_kept<A>(s: Seq<A>, p: spec_fn(A) -> bool, x: A)
    requires
        s.filter(p).contains(x),
    ensures
        s.contains(x),
    decreases s.len(),
{
    reveal(Seq::filter);
    if s.len() > 0 {
        if p(s.last()) && x == s.last() {
            assert(s[s.len() - 1] == x);
        } else {
            let j = s.filter(p).index_of(x);
            assert(s.drop_last().filter(p)[j] == x);
            assert(s.drop_last().filter(p).contains(x));
            lemma_kept(s.drop_last(), p, x);
            let k = s.drop_last().index_of(x);
            assert(s[k] == x);
        }
    }
}

} // verus!
