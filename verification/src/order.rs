//! Stable sorting, and the order of strings.
use vstd::prelude::*;

verus! {

/// `x` put into `s` behind the last element that does not come after it.
pub open spec fn put_in_order<T>(s: Seq<T>, x: T, leq: spec_fn(T, T) -> bool) -> Seq<T>
    decreases s.len(),
{
    if s.len() == 0 || leq(s.last(), x) {
        s.push(x)
    } else {
        put_in_order(s.drop_last(), x, leq).push(s.last())
    }
}

/// Where an element is put: behind the last one that does not come after it.
pub proof fn lemma_put_at<T>(s: Seq<T>, x: T, leq: spec_fn(T, T) -> bool, i: int)
    requires
        0 <= i <= s.len(),
        i == 0 || leq(s[i - 1], x),
        forall|k: int| i <= k < s.len() ==> !leq(#[trigger] s[k], x),
    ensures
        put_in_order(s, x, leq) == s.insert(i, x),
    decreases s.len(),
{
    if i < s.len() {
        assert(!leq(s[s.len() - 1], x));
        assert forall|k: int| i <= k < s.drop_last().len() implies !leq(
            #[trigger] s.drop_last()[k],
            x,
        ) by {
            assert(s.drop_last()[k] == s[k]);
        }
        lemma_put_at(s.drop_last(), x, leq, i);
        assert(s.insert(i, x) =~= s.drop_last().insert(i, x).push(s.last()));
    } else {
        assert(s.insert(i, x) =~= s.push(x));
    }
}

/// `s` in the order of `leq`; elements that come neither before nor after each
/// other stay as they stood.
pub open spec fn in_order<T>(s: Seq<T>, leq: spec_fn(T, T) -> bool) -> Seq<T>
    decreases s.len(),
{
    if s.len() == 0 {
        s
    } else {
        put_in_order(in_order(s.drop_last(), leq), s.last(), leq)
    }
}

/// Whether each element of `s` may stand before all that follow it.
pub open spec fn is_ordered<T>(s: Seq<T>, leq: spec_fn(T, T) -> bool) -> bool {
    forall|i: int, j: int| 0 <= i < j < s.len() ==> #[trigger] leq(s[i], s[j])
}

/// Whether any two elements are comparable by `leq`, and it is transitive.
pub open spec fn is_total_preorder<T>(leq: spec_fn(T, T) -> bool) -> bool {
    &&& forall|a: T, b: T| #[trigger] leq(a, b) || leq(b, a)
    &&& forall|a: T, b: T, c: T| #[trigger] leq(a, b) && #[trigger] leq(b, c) ==> leq(a, c)
}

/// Putting an element into an ordered sequence keeps the order and the elements.
pub proof fn lemma_put_in_order<T>(s: Seq<T>, x: T, leq: spec_fn(T, T) -> bool)
    requires
        is_total_preorder(leq),
        is_ordered(s, leq),
    ensures
        is_ordered(put_in_order(s, x, leq), leq),
        put_in_order(s, x, leq).to_multiset() == s.to_multiset().insert(x),
        put_in_order(s, x, leq).len() == s.len() + 1,
    decreases s.len(),
{
    broadcast use vstd::seq_lib::group_to_multiset_ensures;

    if s.len() == 0 || leq(s.last(), x) {
        let r = s.push(x);
        assert forall|i: int, j: int| 0 <= i < j < r.len() implies #[trigger] leq(r[i], r[j]) by {
            if j == s.len() {
                if i < s.len() - 1 {
                    assert(leq(s[i], s[s.len() - 1]));
                }
            }
        }
    } else {
        let init = s.drop_last();
        lemma_put_in_order(init, x, leq);
        let inner = put_in_order(init, x, leq);
        let r = inner.push(s.last());
        assert(leq(x, s.last()));
        assert forall|i: int, j: int| 0 <= i < j < r.len() implies #[trigger] leq(r[i], r[j]) by {
            if j == inner.len() {
                assert(inner.to_multiset().count(inner[i]) > 0) by {
                    assert(inner.contains(inner[i]));
                }
                assert(init.to_multiset().insert(x).count(inner[i]) > 0);
                if inner[i] != x {
                    assert(init.to_multiset().count(inner[i]) > 0);
                    assert(init.contains(inner[i]));
                    let k = choose|k: int| 0 <= k < init.len() && init[k] == inner[i];
                    assert(leq(s[k], s[s.len() - 1]));
                }
            }
        }
        assert(s =~= init.push(s.last()));
        assert(r.to_multiset() =~= s.to_multiset().insert(x));
    }
}

/// Sorting gives an ordered sequence of the same elements.
pub proof fn lemma_in_order<T>(s: Seq<T>, leq: spec_fn(T, T) -> bool)
    requires
        is_total_preorder(leq),
    ensures
        is_ordered(in_order(s, leq), leq),
        in_order(s, leq).to_multiset() == s.to_multiset(),
        in_order(s, leq).len() == s.len(),
    decreases s.len(),
{
    broadcast use vstd::seq_lib::group_to_multiset_ensures;

    if s.len() > 0 {
        let init = s.drop_last();
        lemma_in_order(init, leq);
        lemma_put_in_order(in_order(init, leq), s.last(), leq);
        assert(s =~= init.push(s.last()));
    }
}

/// Filtering keeps exactly the elements that have the property.
pub proof fn lemma_filter_members<T>(s: Seq<T>, p: spec_fn(T) -> bool)
    ensures
        forall|x: T| #[trigger] s.filter(p).contains(x) <==> s.contains(x) && p(x),
{
    assert forall|x: T| #[trigger] s.filter(p).contains(x) <==> s.contains(x) && p(x) by {
        if s.filter(p).contains(x) {
            let i = choose|i: int| 0 <= i < s.filter(p).len() && s.filter(p)[i] == x;
            s.lemma_filter_pred(p, i);
            s.lemma_filter_contains_rev(p, x);
        }
        if s.contains(x) && p(x) {
            let i = choose|i: int| 0 <= i < s.len() && s[i] == x;
            s.lemma_filter_contains(p, i);
        }
    }
}

/// Sorting keeps exactly the elements that are there.
pub proof fn lemma_in_order_members<T>(s: Seq<T>, leq: spec_fn(T, T) -> bool)
    requires
        is_total_preorder(leq),
    ensures
        forall|x: T| #[trigger] in_order(s, leq).contains(x) <==> s.contains(x),
{
    let t = in_order(s, leq);
    lemma_in_order(s, leq);
    s.to_multiset_ensures();
    t.to_multiset_ensures();
    assert forall|x: T| #[trigger] t.contains(x) <==> s.contains(x) by {
        assert(t.contains(x) <==> t.to_multiset().count(x) > 0);
        assert(s.contains(x) <==> s.to_multiset().count(x) > 0);
    }
}

/// Two ordered sequences of the same elements are equal if no two elements of
/// theirs, at different places, may stand in either order.
pub proof fn lemma_order_is_unique<T>(a: Seq<T>, b: Seq<T>, leq: spec_fn(T, T) -> bool)
    requires
        is_ordered(a, leq),
        is_ordered(b, leq),
        a.to_multiset() == b.to_multiset(),
        forall|i: int, j: int|
            0 <= i < a.len() && 0 <= j < a.len() && i != j ==> !(#[trigger] leq(a[i], a[j]) && leq(
                a[j],
                a[i],
            )),
    ensures
        a == b,
    decreases a.len(),
{
    broadcast use vstd::seq_lib::group_to_multiset_ensures;

    a.to_multiset_ensures();
    b.to_multiset_ensures();
    if a.len() > 0 {
        let x = a.last();
        let y = b.last();
        assert(b.contains(y));
        assert(b.to_multiset().count(y) > 0);
        assert(a.contains(y));
        let i = choose|i: int| 0 <= i < a.len() && a[i] == y;
        assert(a.contains(x));
        assert(a.to_multiset().count(x) > 0);
        assert(b.contains(x));
        let j = choose|j: int| 0 <= j < b.len() && b[j] == x;
        if i != a.len() - 1 {
            assert(leq(a[i], a[a.len() - 1]));
            if j != b.len() - 1 {
                assert(leq(b[j], b[b.len() - 1]));
                assert(leq(a[a.len() - 1], a[i]));
            }
        }
        assert(x == y);
        assert(a =~= a.drop_last().push(x));
        assert(b =~= b.drop_last().push(y));
        assert(a.drop_last().to_multiset() =~= a.to_multiset().remove(x));
        assert(b.drop_last().to_multiset() =~= b.to_multiset().remove(x));
        assert forall|i: int, j: int|
            0 <= i < a.drop_last().len() && 0 <= j < a.drop_last().len() && i != j implies !(
        #[trigger] leq(a.drop_last()[i], a.drop_last()[j]) && leq(
            a.drop_last()[j],
            a.drop_last()[i],
        )) by {
            assert(!(leq(a[i], a[j]) && leq(a[j], a[i])));
        }
        lemma_order_is_unique(a.drop_last(), b.drop_last(), leq);
    }
}

/// Whether `a` comes before `b`, or is `b`, character by character.
pub open spec fn text_leq(a: Seq<char>, b: Seq<char>) -> bool
    decreases a.len(),
{
    if a.len() == 0 {
        true
    } else if b.len() == 0 {
        false
    } else if a[0] == b[0] {
        text_leq(a.subrange(1, a.len() as int), b.subrange(1, b.len() as int))
    } else {
        a[0] < b[0]
    }
}

/// Any two strings are comparable.
pub proof fn lemma_text_leq_total(a: Seq<char>, b: Seq<char>)
    ensures
        text_leq(a, b) || text_leq(b, a),
    decreases a.len(),
{
    if a.len() > 0 && b.len() > 0 && a[0] == b[0] {
        lemma_text_leq_total(a.subrange(1, a.len() as int), b.subrange(1, b.len() as int));
    }
}

/// The order of strings is transitive.
pub proof fn lemma_text_leq_transitive(a: Seq<char>, b: Seq<char>, c: Seq<char>)
    requires
        text_leq(a, b),
        text_leq(b, c),
    ensures
        text_leq(a, c),
    decreases a.len(),
{
    if a.len() > 0 && b.len() > 0 && c.len() > 0 && a[0] == b[0] && b[0] == c[0] {
        lemma_text_leq_transitive(
            a.subrange(1, a.len() as int),
            b.subrange(1, b.len() as int),
            c.subrange(1, c.len() as int),
        );
    }
}

/// Two strings that may stand in either order are equal.
pub proof fn lemma_text_leq_antisymmetric(a: Seq<char>, b: Seq<char>)
    requires
        text_leq(a, b),
        text_leq(b, a),
    ensures
        a == b,
    decreases a.len(),
{
    if a.len() > 0 {
        let a1 = a.subrange(1, a.len() as int);
        let b1 = b.subrange(1, b.len() as int);
        lemma_text_leq_antisymmetric(a1, b1);
        assert(a =~= seq![a[0]] + a1);
        assert(b =~= seq![b[0]] + b1);
    } else {
        assert(a =~= b);
    }
}

/// Whether `a` comes before `b`, or is `b`, character by character.
pub fn text_before(a: &str, b: &str) -> (res: bool)
    ensures
        res == text_leq(a@, b@),
{
    let av = crate::text::chars_of(a);
    let bv = crate::text::chars_of(b);
    let mut i: usize = 0;
    assert(a@.subrange(0, a@.len() as int) =~= a@);
    assert(b@.subrange(0, b@.len() as int) =~= b@);
    while i < av.len() && i < bv.len()
        invariant
            i <= av@.len(),
            i <= bv@.len(),
            av@ == a@,
            bv@ == b@,
            text_leq(a@, b@) == text_leq(
                a@.subrange(i as int, a@.len() as int),
                b@.subrange(i as int, b@.len() as int),
            ),
        decreases av@.len() - i,
    {
        if av[i] != bv[i] {
            return av[i] < bv[i];
        }
        proof {
            let ra = a@.subrange(i as int, a@.len() as int);
            let rb = b@.subrange(i as int, b@.len() as int);
            assert(ra.subrange(1, ra.len() as int) =~= a@.subrange(i + 1, a@.len() as int));
            assert(rb.subrange(1, rb.len() as int) =~= b@.subrange(i + 1, b@.len() as int));
        }
        i = i + 1;
    }
    i == av.len()
}

} // verus!
