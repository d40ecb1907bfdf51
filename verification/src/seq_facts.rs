use vstd::prelude::*;

verus! {

broadcast use vstd::seq_lib::group_seq_properties;

/// An element of a flattened sequence of sequences comes from one of them.
pub proof fn lemma_flatten_contains<A>(s: Seq<Seq<A>>, x: A)
    ensures
        s.flatten().contains(x) <==> exists|idx: int| 0 <= idx < s.len() && #[trigger] s[idx].contains(x),
    decreases s.len(),
{
    if s.len() > 0 {
        let rest = s.drop_first();
        lemma_flatten_contains(rest, x);
        assert(s.flatten() == s[0] + rest.flatten());
        if s.flatten().contains(x) {
            if !s[0].contains(x) {
                let idx = choose|idx: int| 0 <= idx < rest.len() && #[trigger] rest[idx].contains(x);
                assert(s[idx + 1] == rest[idx]);
            }
        }
        if exists|idx: int| 0 <= idx < s.len() && #[trigger] s[idx].contains(x) {
            let idx = choose|idx: int| 0 <= idx < s.len() && #[trigger] s[idx].contains(x);
            if idx > 0 {
                assert(rest[idx - 1] == s[idx]);
            }
        }
    }
}

/// Flattening sequences that are duplicate-free and pairwise disjoint gives a
/// duplicate-free sequence.
pub proof fn lemma_flatten_no_duplicates<A>(s: Seq<Seq<A>>)
    requires
        forall|i: int| 0 <= i < s.len() ==> #[trigger] s[i].no_duplicates(),
        forall|i: int, j: int| 0 <= i < j < s.len() ==> #[trigger] s[i].disjoint(#[trigger] s[j]),
    ensures
        s.flatten().no_duplicates(),
    decreases s.len(),
{
    if s.len() > 0 {
        let rest = s.drop_first();
        assert forall|i: int, j: int| 0 <= i < j < rest.len() implies #[trigger] rest[i].disjoint(
            #[trigger] rest[j],
        ) by {
            assert(s[i + 1].disjoint(s[j + 1]));
        }
        assert forall|i: int| 0 <= i < rest.len() implies #[trigger] rest[i].no_duplicates() by {
            assert(s[i + 1].no_duplicates());
        }
        lemma_flatten_no_duplicates(rest);
        assert(s.flatten() == s[0] + rest.flatten());
        assert forall|a: int, b: int|
            0 <= a < s[0].len() && 0 <= b < rest.flatten().len() implies s[0][a]
            != rest.flatten()[b] by {
            let x = rest.flatten()[b];
            assert(rest.flatten().contains(x));
            lemma_flatten_contains(rest, x);
            let idx = choose|idx: int| 0 <= idx < rest.len() && #[trigger] rest[idx].contains(x);
            assert(s[0].disjoint(s[idx + 1]));
            let c = choose|c: int| 0 <= c < rest[idx].len() && rest[idx][c] == x;
            assert(s[idx + 1][c] == x);
        }
        assert(s[0].no_duplicates());
        vstd::seq_lib::lemma_no_dup_in_concat(s[0], rest.flatten());
    }
}

/// Keeping part of a duplicate-free sequence leaves it duplicate-free.
pub proof fn lemma_filter_no_duplicates<A>(s: Seq<A>, p: spec_fn(A) -> bool)
    requires
        s.no_duplicates(),
    ensures
        s.filter(p).no_duplicates(),
    decreases s.len(),
{
    reveal(Seq::filter);
    if s.len() > 0 {
        let rest = s.drop_last();
        assert(rest.no_duplicates());
        lemma_filter_no_duplicates(rest, p);
        if p(s.last()) {
            if rest.filter(p).contains(s.last()) {
                rest.lemma_filter_contains_rev(p, s.last());
                let c = choose|c: int| 0 <= c < rest.len() && rest[c] == s.last();
                assert(s[c] == s[s.len() - 1]);
            }
        }
    }
}

/// Membership in a filtered sequence.
pub proof fn lemma_filter_contains_iff<A>(s: Seq<A>, p: spec_fn(A) -> bool, x: A)
    ensures
        s.filter(p).contains(x) <==> s.contains(x) && p(x),
{
    broadcast use vstd::seq_lib::group_filter_ensures;

    if s.filter(p).contains(x) {
        s.lemma_filter_contains_rev(p, x);
        let c = choose|c: int| 0 <= c < s.filter(p).len() && s.filter(p)[c] == x;
        assert(p(s.filter(p)[c]));
    }
    if s.contains(x) && p(x) {
        let c = choose|c: int| 0 <= c < s.len() && s[c] == x;
        s.lemma_filter_contains(p, c);
    }
}

} // verus!
