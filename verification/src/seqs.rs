use vstd::prelude::*;

verus! {

/// The concatenation of `f` applied to each element of `s`, in order.
pub open spec fn concat_map<A, B>(s: Seq<A>, f: spec_fn(A) -> Seq<B>) -> Seq<B>
    decreases s.len(),
{
    if s.len() == 0 {
        seq![]
    } else {
        f(s[0]) + concat_map(s.drop_first(), f)
    }
}

pub proof fn lemma_concat_map_push<A, B>(s: Seq<A>, f: spec_fn(A) -> Seq<B>, x: A)
    ensures
        concat_map(s.push(x), f) == concat_map(s, f) + f(x),
    decreases s.len(),
{
    if s.len() == 0 {
        assert(s.push(x)[0] == x);
        assert(s.push(x).drop_first() =~= Seq::<A>::empty());
        assert(concat_map(Seq::<A>::empty(), f) == Seq::<B>::empty());
        assert(concat_map(s.push(x), f) =~= concat_map(s, f) + f(x));
    } else {
        lemma_concat_map_push(s.drop_first(), f, x);
        assert(s.push(x).drop_first() =~= s.drop_first().push(x));
        assert(s.push(x)[0] == s[0]);
        assert(concat_map(s.push(x), f) =~= concat_map(s, f) + f(x));
    }
}

/// Extending a prefix by one element appends that element's image.
pub proof fn lemma_concat_map_take_succ<A, B>(s: Seq<A>, f: spec_fn(A) -> Seq<B>, j: int)
    requires
        0 <= j < s.len(),
    ensures
        concat_map(s.take(j + 1), f) == concat_map(s.take(j), f) + f(s[j]),
{
    assert(s.take(j + 1) =~= s.take(j).push(s[j]));
    lemma_concat_map_push(s.take(j), f, s[j]);
}

/// The concatenation splits at any point into the prefix's and the
/// suffix's concatenations.
pub proof fn lemma_concat_map_split<A, B>(s: Seq<A>, f: spec_fn(A) -> Seq<B>, k: int)
    requires
        0 <= k <= s.len(),
    ensures
        concat_map(s, f) == concat_map(s.take(k), f) + concat_map(s.skip(k), f),
    decreases k,
{
    if k == 0 {
        assert(s.take(0) =~= Seq::<A>::empty());
        assert(s.skip(0) =~= s);
        assert(concat_map(Seq::<A>::empty(), f) == Seq::<B>::empty());
        assert(concat_map(s, f) =~= concat_map(s.take(0), f) + concat_map(s.skip(0), f));
    } else {
        lemma_concat_map_split(s, f, k - 1);
        lemma_concat_map_take_succ(s, f, k - 1);
        assert(s.skip(k - 1).len() > 0);
        assert(s.skip(k - 1)[0] == s[k - 1]);
        assert(s.skip(k - 1).drop_first() =~= s.skip(k));
        assert(concat_map(s.skip(k - 1), f) == f(s[k - 1]) + concat_map(s.skip(k), f));
        assert(concat_map(s, f) =~= concat_map(s.take(k), f) + concat_map(s.skip(k), f));
    }
}

/// Element `j`'s image sits in the concatenation at the offset given by the
/// prefix before it.
pub proof fn lemma_concat_map_segment<A, B>(s: Seq<A>, f: spec_fn(A) -> Seq<B>, j: int)
    requires
        0 <= j < s.len(),
    ensures
        concat_map(s.take(j), f).len() + f(s[j]).len() <= concat_map(s, f).len(),
        concat_map(s, f).subrange(
            concat_map(s.take(j), f).len() as int,
            (concat_map(s.take(j), f).len() + f(s[j]).len()) as int,
        ) == f(s[j]),
        concat_map(s.take(j + 1), f).len() == concat_map(s.take(j), f).len() + f(s[j]).len(),
{
    lemma_concat_map_split(s, f, j + 1);
    lemma_concat_map_take_succ(s, f, j);
    let off = concat_map(s.take(j), f).len() as int;
    assert(concat_map(s, f).subrange(off, off + f(s[j]).len()) =~= f(s[j]));
}

/// How many elements of `s` satisfy `p`.
pub open spec fn count_matching<A>(s: Seq<A>, p: spec_fn(A) -> bool) -> int
    decreases s.len(),
{
    if s.len() == 0 {
        0
    } else {
        (if p(s[0]) {
            1int
        } else {
            0int
        }) + count_matching(s.drop_first(), p)
    }
}

pub proof fn lemma_count_matching_push<A>(s: Seq<A>, p: spec_fn(A) -> bool, x: A)
    ensures
        count_matching(s.push(x), p) == count_matching(s, p) + (if p(x) {
            1int
        } else {
            0int
        }),
    decreases s.len(),
{
    if s.len() == 0 {
        assert(s.push(x)[0] == x);
        assert(s.push(x).drop_first() =~= Seq::<A>::empty());
        assert(count_matching(Seq::<A>::empty(), p) == 0);
        assert(count_matching(s, p) == 0);
    } else {
        lemma_count_matching_push(s.drop_first(), p, x);
        assert(s.push(x).drop_first() =~= s.drop_first().push(x));
        assert(s.push(x)[0] == s[0]);
    }
}

/// The elements of `s` that satisfy `p`, in order.
pub open spec fn matching<A>(s: Seq<A>, p: spec_fn(A) -> bool) -> Seq<A>
    decreases s.len(),
{
    if s.len() == 0 {
        seq![]
    } else if p(s[0]) {
        seq![s[0]] + matching(s.drop_first(), p)
    } else {
        matching(s.drop_first(), p)
    }
}

/// Every element that `matching` keeps satisfies the predicate.
pub proof fn lemma_matching_all<A>(s: Seq<A>, p: spec_fn(A) -> bool)
    ensures
        forall|i: int| 0 <= i < matching(s, p).len() ==> p(#[trigger] matching(s, p)[i]),
    decreases s.len(),
{
    if s.len() > 0 {
        lemma_matching_all(s.drop_first(), p);
        let m = matching(s, p);
        let mrest = matching(s.drop_first(), p);
        if p(s[0]) {
            assert forall|i: int| 0 <= i < m.len() implies p(#[trigger] m[i]) by {
                if i == 0 {
                    assert(m[0] == s[0]);
                } else {
                    assert(m[i] == mrest[i - 1]);
                }
            }
        } else {
            assert(m == mrest);
        }
    }
}

pub proof fn lemma_matching_push<A>(s: Seq<A>, p: spec_fn(A) -> bool, x: A)
    ensures
        matching(s.push(x), p) == if p(x) {
            matching(s, p).push(x)
        } else {
            matching(s, p)
        },
    decreases s.len(),
{
    if s.len() == 0 {
        assert(s.push(x)[0] == x);
        assert(s.push(x).drop_first() =~= Seq::<A>::empty());
        assert(matching(Seq::<A>::empty(), p) == Seq::<A>::empty());
        assert(matching(s, p) == Seq::<A>::empty());
        if p(x) {
            assert(matching(s.push(x), p) =~= matching(s, p).push(x));
        }
    } else {
        lemma_matching_push(s.drop_first(), p, x);
        assert(s.push(x).drop_first() =~= s.drop_first().push(x));
        assert(s.push(x)[0] == s[0]);
        if p(x) {
            if p(s[0]) {
                assert(matching(s.push(x), p) =~= matching(s, p).push(x));
            } else {
                assert(matching(s.push(x), p) =~= matching(s, p).push(x));
            }
        }
    }
}

} // verus!
