//! A stable merge sort over any strict weak order.

use vstd::prelude::*;

verus! {

/// `lt` orders its arguments: it is transitive, and so is being neither
/// before nor after.
pub open spec fn strict_weak_order<T>(lt: spec_fn(T, T) -> bool) -> bool {
    &&& forall|a: T| !#[trigger] lt(a, a)
    &&& forall|a: T, b: T, c: T| #[trigger] lt(a, b) && #[trigger] lt(b, c) ==> lt(a, c)
    &&& forall|a: T, b: T, c: T| !#[trigger] lt(a, b) && !#[trigger] lt(b, c) ==> !lt(a, c)
}

/// `t` with `e` put behind everything that does not come after it.
pub open spec fn inserted<T>(t: Seq<T>, e: T, lt: spec_fn(T, T) -> bool) -> Seq<T>
    decreases t.len(),
{
    if t.len() > 0 && lt(e, t.last()) {
        inserted(t.drop_last(), e, lt).push(t.last())
    } else {
        t.push(e)
    }
}

/// The items of `s` in order; items of which neither comes before the other
/// keep their places relative to each other.
pub open spec fn sorted<T>(s: Seq<T>, lt: spec_fn(T, T) -> bool) -> Seq<T>
    decreases s.len(),
{
    if s.len() == 0 {
        s
    } else {
        inserted(sorted(s.drop_last(), lt), s.last(), lt)
    }
}

/// No item of `s` comes before an earlier one.
pub open spec fn in_order<T>(s: Seq<T>, lt: spec_fn(T, T) -> bool) -> bool {
    forall|i: int, j: int| 0 <= i < j < s.len() ==> !lt(#[trigger] s[j], #[trigger] s[i])
}

/// Two sequences merged; of two items of which neither comes before the other
/// the one of `a` goes first.
spec fn merged<T>(a: Seq<T>, b: Seq<T>, lt: spec_fn(T, T) -> bool) -> Seq<T>
    decreases a.len() + b.len(),
{
    if b.len() == 0 {
        a
    } else if a.len() == 0 {
        b
    } else if lt(b.last(), a.last()) {
        merged(a.drop_last(), b, lt).push(a.last())
    } else {
        merged(a, b.drop_last(), lt).push(b.last())
    }
}

/// Inserting into a merge is merging with the item inserted into the second.
proof fn lemma_insert_merged<T>(a: Seq<T>, b: Seq<T>, e: T, lt: spec_fn(T, T) -> bool)
    requires
        strict_weak_order(lt),
    ensures
        inserted(merged(a, b, lt), e, lt) == merged(a, inserted(b, e, lt), lt),
    decreases a.len() + b.len(),
{
    if b.len() == 0 {
        let ib = inserted(b, e, lt);
        assert(ib =~= b.push(e));
        assert(ib.drop_last() =~= b);
        if a.len() > 0 && lt(e, a.last()) {
            lemma_insert_merged(a.drop_last(), b, e, lt);
        } else if a.len() == 0 {
            assert(a.push(e) =~= b.push(e));
        }
    } else if a.len() == 0 {
        lemma_inserted(b, e, lt);
    } else {
        let x = a.last();
        let y = b.last();
        let a1 = a.drop_last();
        let b1 = b.drop_last();
        let m = merged(a, b, lt);
        let ib = inserted(b, e, lt);
        lemma_inserted(b, e, lt);
        if lt(y, x) {
            let m1 = merged(a1, b, lt);
            assert(m == m1.push(x));
            assert(m.drop_last() =~= m1);
            lemma_insert_merged(a1, b, e, lt);
            if lt(e, x) {
                assert(lt(ib.last(), x)) by {
                    if lt(e, y) {
                        assert(ib.last() == y);
                    } else {
                        assert(ib.last() == e);
                    }
                }
            } else {
                assert(!lt(e, y)) by {
                    if lt(e, y) {
                        assert(lt(e, x));
                    }
                }
                assert(ib.drop_last() =~= b);
            }
        } else {
            let m1 = merged(a, b1, lt);
            assert(m == m1.push(y));
            assert(m.drop_last() =~= m1);
            lemma_insert_merged(a, b1, e, lt);
            if lt(e, y) {
                assert(ib.drop_last() =~= inserted(b1, e, lt));
            } else {
                assert(!lt(e, x));
                assert(ib.drop_last() =~= b);
            }
        }
    }
}

/// Inserting adds one item.
proof fn lemma_inserted<T>(t: Seq<T>, e: T, lt: spec_fn(T, T) -> bool)
    ensures
        inserted(t, e, lt).len() == t.len() + 1,
        inserted(t, e, lt).to_multiset() == t.to_multiset().insert(e),
    decreases t.len(),
{
    broadcast use vstd::seq_lib::group_to_multiset_ensures;

    if t.len() > 0 && lt(e, t.last()) {
        lemma_inserted(t.drop_last(), e, lt);
        assert(t =~= t.drop_last().push(t.last()));
        assert(t.to_multiset() =~= t.drop_last().to_multiset().insert(t.last()));
        assert(inserted(t, e, lt).to_multiset() =~= t.to_multiset().insert(e));
    }
}

/// Sorting the whole is merging the sorted halves.
proof fn lemma_sorted_halves<T>(a: Seq<T>, b: Seq<T>, lt: spec_fn(T, T) -> bool)
    requires
        strict_weak_order(lt),
    ensures
        sorted(a + b, lt) == merged(sorted(a, lt), sorted(b, lt), lt),
    decreases b.len(),
{
    if b.len() == 0 {
        assert(a + b =~= a);
    } else {
        let b1 = b.drop_last();
        lemma_sorted_halves(a, b1, lt);
        assert((a + b).drop_last() =~= a + b1);
        assert((a + b).last() == b.last());
        lemma_insert_merged(sorted(a, lt), sorted(b1, lt), b.last(), lt);
    }
}

/// A sorted sequence holds the same items as often as the given one.
pub proof fn law_sort_permutes<T>(s: Seq<T>, lt: spec_fn(T, T) -> bool)
    ensures
        sorted(s, lt).len() == s.len(),
        sorted(s, lt).to_multiset() == s.to_multiset(),
    decreases s.len(),
{
    broadcast use vstd::seq_lib::group_to_multiset_ensures;

    if s.len() > 0 {
        let s1 = s.drop_last();
        law_sort_permutes(s1, lt);
        lemma_inserted(sorted(s1, lt), s.last(), lt);
        assert(s =~= s1.push(s.last()));
    }
}

proof fn lemma_inserted_in_order<T>(t: Seq<T>, e: T, lt: spec_fn(T, T) -> bool)
    requires
        strict_weak_order(lt),
        in_order(t, lt),
    ensures
        in_order(inserted(t, e, lt), lt),
        inserted(t, e, lt).len() == t.len() + 1,
        forall|i: int|
            0 <= i < inserted(t, e, lt).len() ==> (#[trigger] inserted(t, e, lt)[i] == e
                || t.contains(inserted(t, e, lt)[i])),
    decreases t.len(),
{
    let r = inserted(t, e, lt);
    if t.len() > 0 && lt(e, t.last()) {
        let t1 = t.drop_last();
        lemma_inserted_in_order(t1, e, lt);
        let r1 = inserted(t1, e, lt);
        assert forall|i: int| 0 <= i < r1.len() implies #[trigger] r1[i] == e || t.contains(r1[i]) by {
            if r1[i] != e {
                let j = choose|j: int| 0 <= j < t1.len() && t1[j] == r1[i];
                assert(t[j] == r1[i]);
            }
        }
        assert forall|i: int, j: int| 0 <= i < j < r.len() implies !lt(
            #[trigger] r[j],
            #[trigger] r[i],
        ) by {
            if j == r.len() - 1 {
                assert(r[i] == r1[i]);
                if r1[i] != e {
                    let k = choose|k: int| 0 <= k < t1.len() && t1[k] == r1[i];
                    assert(t[k] == r1[i]);
                    assert(!lt(t[t.len() - 1], t[k]));
                } else {
                    if lt(t.last(), e) {
                        assert(lt(e, e));
                    }
                }
            } else {
                assert(r[i] == r1[i] && r[j] == r1[j]);
            }
        }
        assert forall|i: int| 0 <= i < r.len() implies (#[trigger] r[i] == e || t.contains(r[i])) by {
            if i < r1.len() {
                assert(r[i] == r1[i]);
            } else {
                assert(t[t.len() - 1] == r[i]);
            }
        }
    } else {
        assert forall|i: int, j: int| 0 <= i < j < r.len() implies !lt(
            #[trigger] r[j],
            #[trigger] r[i],
        ) by {
            if j == t.len() {
                let l = t.len() - 1;
                assert(!lt(e, t[l]));
                if i < l {
                    assert(!lt(t[l], t[i]));
                }
            } else {
                assert(r[i] == t[i] && r[j] == t[j]);
            }
        }
        assert forall|i: int| 0 <= i < r.len() implies (#[trigger] r[i] == e || t.contains(r[i])) by {
            if i < t.len() {
                assert(t[i] == r[i]);
            }
        }
    }
}

/// In a sorted sequence no item comes before an earlier one.
pub proof fn law_sort_orders<T>(s: Seq<T>, lt: spec_fn(T, T) -> bool)
    requires
        strict_weak_order(lt),
    ensures
        in_order(sorted(s, lt), lt),
    decreases s.len(),
{
    if s.len() > 0 {
        law_sort_orders(s.drop_last(), lt);
        lemma_inserted_in_order(sorted(s.drop_last(), lt), s.last(), lt);
    }
}

/// What is in order stays as it is.
pub proof fn law_sort_keeps_order<T>(s: Seq<T>, lt: spec_fn(T, T) -> bool)
    requires
        in_order(s, lt),
    ensures
        sorted(s, lt) == s,
    decreases s.len(),
{
    if s.len() > 0 {
        let s1 = s.drop_last();
        assert(in_order(s1, lt)) by {
            assert forall|i: int, j: int| 0 <= i < j < s1.len() implies !lt(
                #[trigger] s1[j],
                #[trigger] s1[i],
            ) by {
                assert(s1[j] == s[j] && s1[i] == s[i]);
            }
        }
        law_sort_keeps_order(s1, lt);
        if s1.len() > 0 {
            assert(!lt(s[s.len() - 1], s[s.len() - 2]));
        }
        assert(s1.push(s.last()) =~= s);
    }
}

/// Neither of two items comes before the other.
pub open spec fn alike<T>(a: T, b: T, lt: spec_fn(T, T) -> bool) -> bool {
    !lt(a, b) && !lt(b, a)
}

/// Those of `s` that neither come before `x` nor after it, in their order.
pub open spec fn all_alike<T>(s: Seq<T>, x: T, lt: spec_fn(T, T) -> bool) -> Seq<T>
    decreases s.len(),
{
    if s.len() == 0 {
        s
    } else if alike(x, s.last(), lt) {
        all_alike(s.drop_last(), x, lt).push(s.last())
    } else {
        all_alike(s.drop_last(), x, lt)
    }
}

proof fn lemma_inserted_alike<T>(t: Seq<T>, e: T, x: T, lt: spec_fn(T, T) -> bool)
    requires
        strict_weak_order(lt),
    ensures
        all_alike(inserted(t, e, lt), x, lt) == (if alike(x, e, lt) {
            all_alike(t, x, lt).push(e)
        } else {
            all_alike(t, x, lt)
        }),
    decreases t.len(),
{
    let r = inserted(t, e, lt);
    if t.len() > 0 && lt(e, t.last()) {
        let front = t.drop_last();
        lemma_inserted_alike(front, e, x, lt);
        assert(r.drop_last() =~= inserted(front, e, lt));
        if alike(x, e, lt) && alike(x, t.last(), lt) {
            assert(!lt(e, x) && !lt(x, t.last()));
            assert(false);
        }
    } else {
        assert(r.drop_last() =~= t);
    }
}

/// Sorting keeps the order of items of which neither comes before the other.
pub proof fn law_sort_is_stable<T>(s: Seq<T>, x: T, lt: spec_fn(T, T) -> bool)
    requires
        strict_weak_order(lt),
    ensures
        all_alike(sorted(s, lt), x, lt) == all_alike(s, x, lt),
    decreases s.len(),
{
    if s.len() > 0 {
        law_sort_is_stable(s.drop_last(), x, lt);
        lemma_inserted_alike(sorted(s.drop_last(), lt), s.last(), x, lt);
    }
}

/// An item among those that are alike stands at a place of the whole.
proof fn lemma_alike_at<T>(s: Seq<T>, x: T, lt: spec_fn(T, T) -> bool, k: int) -> (i: int)
    requires
        0 <= k < all_alike(s, x, lt).len(),
    ensures
        0 <= i < s.len(),
        s[i] == all_alike(s, x, lt)[k],
        all_alike(s.subrange(0, i), x, lt) == all_alike(s, x, lt).subrange(0, k),
    decreases s.len(),
{
    let front = s.drop_last();
    let all = all_alike(s, x, lt);
    let before = all_alike(front, x, lt);
    if alike(x, s.last(), lt) && k == before.len() {
        assert(s.subrange(0, s.len() - 1) =~= front);
        assert(all.subrange(0, k) =~= before);
        s.len() - 1
    } else {
        let i = lemma_alike_at(front, x, lt, k);
        assert(front.subrange(0, i) =~= s.subrange(0, i));
        assert(before.subrange(0, k) =~= all.subrange(0, k));
        i
    }
}

/// An item of the whole stands among those that are alike, behind as many as
/// there are before it.
proof fn lemma_alike_place<T>(s: Seq<T>, x: T, lt: spec_fn(T, T) -> bool, i: int)
    requires
        0 <= i < s.len(),
        alike(x, s[i], lt),
    ensures
        all_alike(s.subrange(0, i), x, lt).len() < all_alike(s, x, lt).len(),
        all_alike(s, x, lt)[all_alike(s.subrange(0, i), x, lt).len() as int] == s[i],
    decreases s.len(),
{
    let front = s.drop_last();
    if i == s.len() - 1 {
        assert(s.subrange(0, i) =~= front);
    } else {
        lemma_alike_place(front, x, lt, i);
        assert(front.subrange(0, i) =~= s.subrange(0, i));
    }
}

/// Of two items of which neither comes before the other, the one that stood
/// first still stands first when they are sorted.
pub proof fn law_sort_keeps_pairs<T>(s: Seq<T>, lt: spec_fn(T, T) -> bool, i: int, j: int)
    requires
        strict_weak_order(lt),
        0 <= i < j < s.len(),
        alike(s[i], s[j], lt),
    ensures
        exists|a: int, b: int|
            0 <= a < b < sorted(s, lt).len() && #[trigger] sorted(s, lt)[a] == s[i]
                && #[trigger] sorted(s, lt)[b] == s[j],
{
    let x = s[i];
    let r = sorted(s, lt);
    let head = s.subrange(0, j);
    law_sort_is_stable(s, x, lt);
    lemma_alike_place(s, x, lt, i);
    lemma_alike_place(s, x, lt, j);
    lemma_alike_place(head, x, lt, i);
    assert(head.subrange(0, i) =~= s.subrange(0, i));
    let p = all_alike(s.subrange(0, i), x, lt).len() as int;
    let q = all_alike(head, x, lt).len() as int;
    let b = lemma_alike_at(r, x, lt, q);
    let before = r.subrange(0, b);
    assert(all_alike(before, x, lt)[p] == all_alike(r, x, lt)[p]);
    let a = lemma_alike_at(before, x, lt, p);
    assert(r[a] == before[a]);
    assert(r[a] == s[i] && r[b] == s[j]);
}

/// Reverses a vector.
fn reverse<T>(v: Vec<T>) -> (r: Vec<T>)
    ensures
        r@ == v@.reverse(),
{
    let mut rest = v;
    let mut out: Vec<T> = Vec::new();
    while rest.len() > 0
        invariant
            out@ + rest@.reverse() == v@.reverse(),
        decreases rest@.len(),
    {
        let ghost before = rest@;
        let ghost done = out@;
        match rest.pop() {
            Some(x) => {
                out.push(x);
                assert(before.reverse() =~= seq![x] + rest@.reverse());
                assert(done.push(x) + rest@.reverse() =~= done + (seq![x] + rest@.reverse()));
            },
            None => {},
        }
    }
    assert(rest@.reverse() =~= Seq::<T>::empty());
    assert(out@ + rest@.reverse() =~= out@);
    out
}

fn merge<T, F: Fn(&T, &T) -> bool>(
    a: Vec<T>,
    b: Vec<T>,
    less: &F,
    Ghost(lt): Ghost<spec_fn(T, T) -> bool>,
) -> (r: Vec<T>)
    requires
        forall|x: &T, y: &T| call_requires(*less, (x, y)),
        forall|x: &T, y: &T, b: bool| call_ensures(*less, (x, y), b) ==> b == lt(*x, *y),
    ensures
        r@ == merged(a@, b@, lt),
{
    let mut a1 = a;
    let mut b1 = b;
    let mut out: Vec<T> = Vec::new();
    assert(merged(a@, b@, lt) + out@.reverse() =~= merged(a@, b@, lt));
    while a1.len() > 0 && b1.len() > 0
        invariant
            forall|x: &T, y: &T| call_requires(*less, (x, y)),
            forall|x: &T, y: &T, b: bool| call_ensures(*less, (x, y), b) ==> b == lt(*x, *y),
            merged(a1@, b1@, lt) + out@.reverse() == merged(a@, b@, lt),
        decreases a1@.len() + b1@.len(),
    {
        let ghost m = merged(a1@, b1@, lt);
        let ghost done = out@;
        let b_first = less(&b1[b1.len() - 1], &a1[a1.len() - 1]);
        let x = if b_first {
            a1.pop()
        } else {
            b1.pop()
        };
        match x {
            Some(x) => {
                out.push(x);
                assert(out@.reverse() =~= seq![x] + done.reverse());
                assert(m == merged(a1@, b1@, lt).push(x));
                assert(merged(a1@, b1@, lt).push(x) + done.reverse() =~= merged(a1@, b1@, lt) + (
                seq![x] + done.reverse()));
            },
            None => {},
        }
    }
    let mut front = if b1.len() == 0 {
        a1
    } else {
        b1
    };
    let mut tail = reverse(out);
    front.append(&mut tail);
    front
}

/// Sorts `v` by `less`, which computes `lt`.
pub(crate) fn merge_sort<T, F: Fn(&T, &T) -> bool>(
    v: Vec<T>,
    less: &F,
    Ghost(lt): Ghost<spec_fn(T, T) -> bool>,
) -> (r: Vec<T>)
    requires
        strict_weak_order(lt),
        forall|x: &T, y: &T| call_requires(*less, (x, y)),
        forall|x: &T, y: &T, b: bool| call_ensures(*less, (x, y), b) ==> b == lt(*x, *y),
    ensures
        r@ == sorted(v@, lt),
    decreases v@.len(),
{
    let n: usize = v.len();
    if n <= 1 {
        proof {
            if n == 1 {
                assert(sorted(v@.drop_last(), lt) =~= Seq::<T>::empty());
                assert(sorted(v@, lt) =~= v@);
            }
        }
        return v;
    }
    let mut a = v;
    let b = a.split_off(n / 2);
    assert(v@ =~= a@ + b@);
    proof {
        lemma_sorted_halves(a@, b@, lt);
    }
    let sa = merge_sort(a, less, Ghost(lt));
    let sb = merge_sort(b, less, Ghost(lt));
    merge(sa, sb, less, Ghost(lt))
}

} // verus!
