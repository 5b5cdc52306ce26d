use vstd::prelude::*;

verus! {

/// Filtering a sequence after a push keeps the filtered prefix and appends
/// the new element exactly when the predicate accepts it.
pub proof fn lemma_filter_push<A>(s: Seq<A>, x: A, p: spec_fn(A) -> bool)
    ensures
        s.push(x).filter(p) == if p(x) {
            s.filter(p).push(x)
        } else {
            s.filter(p)
        },
{
    reveal(Seq::filter);
    assert(s.push(x).drop_last() =~= s);
    assert(s.push(x).last() == x);
}

/// A filtered sequence keeps any pairwise-distinct key distinct, and every
/// element of the filtered sequence occurs in the original.
pub proof fn lemma_filter_distinct_key<A, K>(s: Seq<A>, p: spec_fn(A) -> bool, key: spec_fn(A) -> K)
    requires
        forall|i: int, j: int| 0 <= i < j < s.len() ==> key(s[i]) != key(s[j]),
    ensures
        forall|i: int, j: int|
            0 <= i < j < s.filter(p).len() ==> key(s.filter(p)[i]) != key(s.filter(p)[j]),
        forall|i: int| 0 <= i < s.filter(p).len() ==> #[trigger] s.contains(s.filter(p)[i]),
    decreases s.len(),
{
    reveal(Seq::filter);
    let f = s.filter(p);
    if s.len() > 0 {
        let dl = s.drop_last();
        let fdl = dl.filter(p);
        assert(forall|i: int| 0 <= i < dl.len() ==> dl[i] == s[i]);
        lemma_filter_distinct_key(dl, p, key);
        if p(s.last()) {
            assert(f == fdl.push(s.last()));
        } else {
            assert(f == fdl);
        }
        assert forall|i: int| 0 <= i < f.len() implies #[trigger] s.contains(f[i]) by {
            if p(s.last()) && i == f.len() - 1 {
                assert(f[i] == s[s.len() - 1]);
            } else {
                assert(f[i] == fdl[i]);
                assert(dl.contains(fdl[i]));
                let w = choose|w: int| 0 <= w < dl.len() && dl[w] == fdl[i];
                assert(s[w] == f[i]);
            }
        }
        assert forall|i: int, j: int| 0 <= i < j < f.len() implies key(f[i]) != key(f[j]) by {
            if p(s.last()) && j == f.len() - 1 {
                assert(f[j] == s[s.len() - 1]);
                assert(f[i] == fdl[i]);
                assert(dl.contains(fdl[i]));
                let w = choose|w: int| 0 <= w < dl.len() && dl[w] == fdl[i];
                assert(key(s[w]) != key(s[s.len() - 1]));
            } else {
                assert(f[i] == fdl[i] && f[j] == fdl[j]);
            }
        }
    }
}

} // verus!
