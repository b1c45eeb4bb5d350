//! Lists up to their order.

use vstd::prelude::*;
use vstd::seq_lib::*;
use crate::chunks::concat;

verus! {

/// Two lists that hold the same things hold the same images.
pub proof fn lemma_map_keeps_multiset<A, B>(s: Seq<A>, t: Seq<A>, f: spec_fn(A) -> B)
    requires
        s.to_multiset() == t.to_multiset(),
    ensures
        s.map_values(f).to_multiset() == t.map_values(f).to_multiset(),
    decreases s.len(),
{
    broadcast use group_to_multiset_ensures;

    assert(s.len() == s.to_multiset().len());
    assert(t.len() == t.to_multiset().len());
    if s.len() > 0 {
        let x = s.last();
        assert(s.contains(x)) by {
            assert(s[s.len() - 1] == x);
        }
        assert(s.to_multiset().count(x) > 0);
        assert(t.contains(x));
        let k = choose|k: int| 0 <= k < t.len() && t[k] == x;
        let s1 = s.drop_last();
        let t1 = t.remove(k);
        assert(s =~= s1.push(x));
        assert(s.to_multiset() =~= s1.to_multiset().insert(x));
        assert(t1.to_multiset() =~= t.to_multiset().remove(x));
        assert(s1.to_multiset() =~= t1.to_multiset());
        lemma_map_keeps_multiset(s1, t1, f);
        let fs = s.map_values(f);
        let ft = t.map_values(f);
        assert(fs =~= s1.map_values(f).push(f(x)));
        assert(ft.remove(k) =~= t1.map_values(f));
        assert(ft.remove(k).to_multiset() =~= ft.to_multiset().remove(f(x)));
        assert(ft.contains(f(x))) by {
            assert(ft[k] == f(x));
        }
        assert(ft.to_multiset().count(f(x)) > 0);
        assert(fs.to_multiset() =~= s1.map_values(f).to_multiset().insert(f(x)));
        assert(ft.to_multiset() =~= ft.to_multiset().remove(f(x)).insert(f(x)));
    } else {
        assert(s.map_values(f) =~= t.map_values(f));
    }
}

/// A list of lists, put together, is two such lists put together, one behind the other.
pub proof fn lemma_concat_add<T>(a: Seq<Seq<T>>, b: Seq<Seq<T>>)
    ensures
        concat(a + b) == concat(a) + concat(b),
    decreases b.len(),
{
    if b.len() == 0 {
        assert(a + b =~= a);
        assert(concat(a) + concat(b) =~= concat(a));
    } else {
        lemma_concat_add(a, b.drop_last());
        assert((a + b).drop_last() =~= a + b.drop_last());
        assert(concat(a + b) =~= concat(a) + concat(b));
    }
}

proof fn lemma_concat_remove<T>(parts: Seq<Seq<T>>, k: int)
    requires
        0 <= k < parts.len(),
    ensures
        concat(parts).to_multiset() == concat(parts.remove(k)).to_multiset().add(
            parts[k].to_multiset(),
        ),
{
    let front = parts.take(k);
    let back = parts.skip(k + 1);
    let one = seq![parts[k]];
    assert(parts =~= (front + one) + back);
    assert(parts.remove(k) =~= front + back);
    lemma_concat_add(front + one, back);
    lemma_concat_add(front, one);
    lemma_concat_add(front, back);
    assert(one.drop_last() =~= Seq::empty());
    assert(concat(one.drop_last()) =~= Seq::empty());
    assert(concat(one) =~= parts[k]);
    lemma_multiset_commutative(concat(front) + parts[k], concat(back));
    lemma_multiset_commutative(concat(front), parts[k]);
    lemma_multiset_commutative(concat(front), concat(back));
    assert(concat(parts).to_multiset() =~= concat(parts.remove(k)).to_multiset().add(
        parts[k].to_multiset(),
    ));
}

/// Two lists of lists that hold the same lists hold the same things.
pub proof fn lemma_concat_keeps_multiset<T>(a: Seq<Seq<T>>, b: Seq<Seq<T>>)
    requires
        a.to_multiset() == b.to_multiset(),
    ensures
        concat(a).to_multiset() == concat(b).to_multiset(),
    decreases a.len(),
{
    broadcast use group_to_multiset_ensures;

    assert(a.len() == a.to_multiset().len());
    assert(b.len() == b.to_multiset().len());
    if a.len() > 0 {
        let x = a.last();
        assert(a[a.len() - 1] == x);
        assert(a.contains(x));
        assert(a.to_multiset().count(x) > 0);
        assert(b.contains(x));
        let k = choose|k: int| 0 <= k < b.len() && b[k] == x;
        assert(a.remove(a.len() - 1) =~= a.drop_last());
        assert(a.drop_last().to_multiset() =~= a.to_multiset().remove(x));
        assert(b.remove(k).to_multiset() =~= b.to_multiset().remove(x));
        lemma_concat_keeps_multiset(a.drop_last(), b.remove(k));
        lemma_concat_remove(a, a.len() - 1);
        lemma_concat_remove(b, k);
    } else {
        assert(a =~= b);
    }
}

/// Lists of lists hold the same things where each list of the one holds what its counterpart
/// holds.
pub proof fn lemma_concat_pointwise<T>(a: Seq<Seq<T>>, b: Seq<Seq<T>>)
    requires
        a.len() == b.len(),
        forall|i: int|
            0 <= i < a.len() ==> (#[trigger] a[i]).to_multiset() == b[i].to_multiset(),
    ensures
        concat(a).to_multiset() == concat(b).to_multiset(),
    decreases a.len(),
{
    if a.len() > 0 {
        let a1 = a.drop_last();
        let b1 = b.drop_last();
        assert forall|i: int| 0 <= i < a1.len() implies (#[trigger] a1[i]).to_multiset()
            == b1[i].to_multiset() by {
            assert(a[i].to_multiset() == b[i].to_multiset());
        }
        lemma_concat_pointwise(a1, b1);
        assert(a[a.len() - 1].to_multiset() == b[b.len() - 1].to_multiset());
        lemma_multiset_commutative(concat(a1), a.last());
        lemma_multiset_commutative(concat(b1), b.last());
    } else {
        assert(a =~= b);
    }
}

/// The images of lists, put together, are the image of the lists put together.
pub proof fn lemma_concat_map<A, B>(parts: Seq<Seq<A>>, images: Seq<Seq<B>>, f: spec_fn(A) -> B)
    requires
        images.len() == parts.len(),
        forall|i: int| 0 <= i < parts.len() ==> #[trigger] images[i] == parts[i].map_values(f),
    ensures
        concat(images) == concat(parts).map_values(f),
    decreases parts.len(),
{
    if parts.len() > 0 {
        let p1 = parts.drop_last();
        let i1 = images.drop_last();
        assert forall|i: int| 0 <= i < p1.len() implies #[trigger] i1[i] == p1[i].map_values(f) by {
            assert(images[i] == parts[i].map_values(f));
        }
        lemma_concat_map(p1, i1, f);
        assert(images[images.len() - 1] == parts[parts.len() - 1].map_values(f));
    }
    assert(concat(images) =~= concat(parts).map_values(f));
}

/// What stands in lists that were put together stands in one of them.
pub proof fn lemma_concat_contains<T>(parts: Seq<Seq<T>>, x: T)
    requires
        concat(parts).contains(x),
    ensures
        exists|i: int| 0 <= i < parts.len() && (#[trigger] parts[i]).contains(x),
    decreases parts.len(),
{
    if parts.len() > 0 {
        let before = concat(parts.drop_last());
        let last = parts.last();
        let k = choose|k: int| 0 <= k < concat(parts).len() && concat(parts)[k] == x;
        if k < before.len() {
            assert(before[k] == x);
            lemma_concat_contains(parts.drop_last(), x);
            let i = choose|i: int|
                0 <= i < parts.len() - 1 && (#[trigger] parts.drop_last()[i]).contains(x);
            assert(parts[i].contains(x));
        } else {
            assert(last[k - before.len()] == x);
            assert(parts[parts.len() - 1].contains(x));
        }
    }
}

/// What stands in one of several lists stands in them put together.
pub proof fn lemma_concat_holds<T>(parts: Seq<Seq<T>>, i: int, j: int)
    requires
        0 <= i < parts.len(),
        0 <= j < parts[i].len(),
    ensures
        concat(parts).contains(parts[i][j]),
    decreases parts.len(),
{
    let before = concat(parts.drop_last());
    if i == parts.len() - 1 {
        assert(concat(parts)[before.len() + j] == parts[i][j]);
    } else {
        lemma_concat_holds(parts.drop_last(), i, j);
        let x = parts[i][j];
        let k = choose|k: int| 0 <= k < before.len() && before[k] == x;
        assert(concat(parts)[k] == x);
    }
}

/// One list, put together, is the list itself, and no list at all is empty. With
/// [`lemma_concat_add`] this says what any lists are, put together.
pub proof fn one_list_put_together_is_itself<T>(part: Seq<T>)
    ensures
        concat(seq![part]) == part,
        concat(Seq::<Seq<T>>::empty()) == Seq::<T>::empty(),
{
    assert(seq![part].drop_last() =~= Seq::empty());
    assert(concat(seq![part].drop_last()) =~= Seq::empty());
    assert(concat(seq![part]) =~= part);
}

} // verus!
