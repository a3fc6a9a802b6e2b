//! What lists of all kinds have in common.

use vstd::prelude::*;

verus! {

/// The list back to front.
pub(crate) fn reversed<T>(v: Vec<T>) -> (r: Vec<T>)
    ensures
        r@ == v@.reverse(),
{
    let ghost all = v@;
    let mut v = v;
    let mut r: Vec<T> = Vec::new();
    while v.len() > 0
        invariant
            v@.len() + r@.len() == all.len(),
            v@ =~= all.take(v@.len() as int),
            r@ =~= all.reverse().take(r@.len() as int),
        decreases v@.len(),
    {
        if let Some(x) = v.pop() {
            r.push(x);
        }
    }
    assert(r@ =~= all.reverse());
    r
}

/// An entry of a list is its last or stands before it.
pub(crate) proof fn lemma_last_or_before<T>(s: Seq<T>, x: T)
    requires
        s.len() > 0,
    ensures
        s.contains(x) <==> s.drop_last().contains(x) || x == s.last(),
{
    if s.drop_last().contains(x) {
        let k = choose|k: int| 0 <= k < s.drop_last().len() && s.drop_last()[k] == x;
        assert(s[k] == x);
    }
    if x == s.last() {
        assert(s[s.len() - 1] == x);
    }
    if s.contains(x) && x != s.last() {
        let k = choose|k: int| 0 <= k < s.len() && s[k] == x;
        assert(s.drop_last()[k] == x);
    }
}

} // verus!
