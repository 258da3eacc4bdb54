//! Facts about sequences.

use vstd::prelude::*;

verus! {

/// Filtering one element more.
pub proof fn lemma_filter_next<A>(s: Seq<A>, f: spec_fn(A) -> bool, i: int)
    requires
        0 <= i < s.len(),
    ensures
        s.take(i + 1).filter(f) == if f(s[i]) {
            s.take(i).filter(f).push(s[i])
        } else {
            s.take(i).filter(f)
        },
{
    reveal(Seq::filter);
    assert(s.take(i + 1).drop_last() =~= s.take(i));
    assert(s.take(i + 1).last() == s[i]);
}

/// Filtering nothing.
pub proof fn lemma_filter_none<A>(s: Seq<A>, f: spec_fn(A) -> bool)
    ensures
        s.take(0).filter(f) == Seq::<A>::empty(),
{
    reveal(Seq::filter);
    assert(s.take(0).filter(f).len() == 0);
    assert(s.take(0).filter(f) =~= Seq::empty());
}

/// Filtering a sequence with one element behind it.
pub proof fn lemma_filter_push<A>(s: Seq<A>, f: spec_fn(A) -> bool, e: A)
    ensures
        s.push(e).filter(f) == if f(e) {
            s.filter(f).push(e)
        } else {
            s.filter(f)
        },
{
    reveal(Seq::filter);
    assert(s.push(e).drop_last() =~= s);
}

/// What is filtered from distinct elements is distinct, and taken from them.
pub proof fn lemma_filter_distinct<A>(s: Seq<A>, f: spec_fn(A) -> bool)
    requires
        s.no_duplicates(),
    ensures
        s.filter(f).no_duplicates(),
        forall|e: A| #[trigger] s.filter(f).contains(e) ==> s.contains(e),
    decreases s.len(),
{
    if s.len() == 0 {
        assert(s.take(0) =~= s);
        lemma_filter_none(s, f);
    } else {
        let rest = s.drop_last();
        let x = s.last();
        lemma_filter_distinct(rest, f);
        assert(rest.push(x) =~= s);
        lemma_filter_push(rest, f, x);
        let r = s.filter(f);
        let w = rest.filter(f);
        assert forall|e: A| #[trigger] r.contains(e) implies s.contains(e) by {
            let i = choose|i: int| 0 <= i < r.len() && r[i] == e;
            if i < w.len() {
                assert(w[i] == e);
                assert(w.contains(e));
                let k = choose|k: int| 0 <= k < rest.len() && rest[k] == e;
                assert(s[k] == e);
            } else {
                assert(s[s.len() - 1] == e);
            }
        }
        assert forall|i: int, j: int| 0 <= i < r.len() && 0 <= j < r.len() && i != j implies r[i]
            != r[j] by {
            if i >= w.len() {
                assert(w[j] == r[j]);
                assert(w.contains(w[j]));
                let k = choose|k: int| 0 <= k < rest.len() && rest[k] == w[j];
                assert(s[k] == w[j]);
            } else if j >= w.len() {
                assert(w[i] == r[i]);
                assert(w.contains(w[i]));
                let k = choose|k: int| 0 <= k < rest.len() && rest[k] == w[i];
                assert(s[k] == w[i]);
            }
        }
    }
}

/// Distinct elements stay distinct when one is moved.
pub proof fn lemma_moved_distinct<A>(s: Seq<A>, from: int, to: int)
    requires
        s.no_duplicates(),
        0 <= from < s.len(),
        0 <= to < s.len(),
    ensures
        s.remove(from).insert(to, s[from]).no_duplicates(),
{
}

} // verus!
