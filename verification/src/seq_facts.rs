//! Facts on sequences without repeated elements, as the queues and the
//! chunk store keep them.

use vstd::prelude::*;

verus! {

/// A sequence with an element pushed holds that element and what it held
/// before.
pub proof fn lemma_push_contains<A>(s: Seq<A>, x: A, c: A)
    ensures
        s.push(x).contains(c) <==> s.contains(c) || c == x,
{
    if s.contains(c) {
        let i = choose|i: int| 0 <= i < s.len() && s[i] == c;
        assert(s.push(x)[i] == c);
    }
    if c == x {
        assert(s.push(x)[s.len() as int] == c);
    }
    if s.push(x).contains(c) {
        let i = choose|i: int| 0 <= i < s.push(x).len() && s.push(x)[i] == c;
        if i < s.len() {
            assert(s[i] == c);
        }
    }
}

/// Pushing an element that a sequence does not hold keeps it free of
/// repetitions.
pub proof fn lemma_push_no_duplicates<A>(s: Seq<A>, x: A)
    requires
        s.no_duplicates(),
        !s.contains(x),
    ensures
        s.push(x).no_duplicates(),
{
    assert forall|i: int, j: int|
        0 <= i < s.push(x).len() && 0 <= j < s.push(x).len() && i != j implies s.push(x)[i]
        != s.push(x)[j] by {
        if i < s.len() && j < s.len() {
        } else if i < s.len() {
            assert(s.contains(s[i]));
        } else {
            assert(s.contains(s[j]));
        }
    }
}

/// A concatenation holds what its two parts hold.
pub proof fn lemma_concat_contains<A>(a: Seq<A>, b: Seq<A>, c: A)
    ensures
        (a + b).contains(c) <==> a.contains(c) || b.contains(c),
{
    if a.contains(c) {
        let i = choose|i: int| 0 <= i < a.len() && a[i] == c;
        assert((a + b)[i] == c);
    }
    if b.contains(c) {
        let i = choose|i: int| 0 <= i < b.len() && b[i] == c;
        assert((a + b)[a.len() + i] == c);
    }
    if (a + b).contains(c) {
        let i = choose|i: int| 0 <= i < (a + b).len() && (a + b)[i] == c;
        if i < a.len() {
            assert(a[i] == c);
        } else {
            assert(b[i - a.len()] == c);
        }
    }
}

/// Two sequences without repetitions that share no element concatenate to
/// one without repetitions.
pub proof fn lemma_concat_no_duplicates<A>(a: Seq<A>, b: Seq<A>)
    requires
        a.no_duplicates(),
        b.no_duplicates(),
        forall|c: A| !(a.contains(c) && b.contains(c)),
    ensures
        (a + b).no_duplicates(),
{
    assert forall|i: int, j: int|
        0 <= i < (a + b).len() && 0 <= j < (a + b).len() && i != j implies (a + b)[i] != (a
        + b)[j] by {
        if i < a.len() && j >= a.len() {
            assert(a.contains(a[i]));
            assert(b.contains(b[j - a.len()]));
        } else if j < a.len() && i >= a.len() {
            assert(a.contains(a[j]));
            assert(b.contains(b[i - a.len()]));
        }
    }
}

/// Dropping the first element of a sequence without repetitions removes
/// exactly that element.
pub proof fn lemma_drop_first<A>(s: Seq<A>, c: A)
    requires
        s.no_duplicates(),
        s.len() > 0,
    ensures
        s.drop_first().no_duplicates(),
        s.drop_first().contains(c) <==> s.contains(c) && c != s[0],
{
    let t = s.drop_first();
    assert forall|i: int| 0 <= i < t.len() implies t[i] == s[i + 1] by {}
    if t.contains(c) {
        let i = choose|i: int| 0 <= i < t.len() && t[i] == c;
        assert(s[i + 1] == c);
    }
    if s.contains(c) && c != s[0] {
        let i = choose|i: int| 0 <= i < s.len() && s[i] == c;
        assert(t[i - 1] == c);
    }
}

/// What a filtered sequence holds: the elements of the sequence that meet
/// the predicate. Filtering keeps a sequence free of repetitions.
pub proof fn lemma_filter<A>(s: Seq<A>, p: spec_fn(A) -> bool)
    ensures
        forall|c: A| #[trigger] s.filter(p).contains(c) <==> s.contains(c) && p(c),
        s.no_duplicates() ==> s.filter(p).no_duplicates(),
    decreases s.len(),
{
    reveal(Seq::filter);
    if s.len() > 0 {
        let rest = s.drop_last();
        let last = s.last();
        lemma_filter(rest, p);
        assert(s =~= rest.push(last));
        assert forall|c: A| #[trigger] s.filter(p).contains(c) <==> s.contains(c) && p(c) by {
            lemma_push_contains(rest, last, c);
            lemma_push_contains(rest.filter(p), last, c);
        }
        if s.no_duplicates() {
            assert(rest.no_duplicates());
            if p(last) {
                if rest.contains(last) {
                    let i = choose|i: int| 0 <= i < rest.len() && rest[i] == last;
                    assert(s[i] == s[s.len() - 1]);
                }
                lemma_push_no_duplicates(rest.filter(p), last);
            }
        }
    } else {
        assert forall|c: A| #[trigger] s.filter(p).contains(c) <==> s.contains(c) && p(c) by {}
    }
}

/// Filtering a longer prefix: the filtered prefix, with the next element
/// pushed where it meets the predicate.
pub proof fn lemma_filter_take<A>(s: Seq<A>, p: spec_fn(A) -> bool, k: int)
    requires
        0 <= k < s.len(),
    ensures
        s.take(k + 1).filter(p) == if p(s[k]) {
            s.take(k).filter(p).push(s[k])
        } else {
            s.take(k).filter(p)
        },
{
    assert(s.take(k + 1) =~= s.take(k).push(s[k]));
    s.take(k).lemma_filter_push(s[k], p);
}

/// Mapping a sequence with an element pushed: the mapped sequence, with
/// the mapped element pushed.
pub proof fn lemma_map_values_push<A, B>(s: Seq<A>, f: spec_fn(A) -> B, x: A)
    ensures
        s.push(x).map_values(f) == s.map_values(f).push(f(x)),
{
    assert(s.push(x).map_values(f) =~= s.map_values(f).push(f(x)));
}

} // verus!
