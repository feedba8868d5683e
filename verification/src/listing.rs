//! Lists shown newest first: projects by release date, blog posts by date.
use vstd::prelude::*;

use crate::order::{chars_lt, str_lt};

verus! {

/// Something listed by a date written as text (ISO dates sort as text).
pub trait Dated: Sized {
    spec fn date_key(&self) -> Seq<char>;

    fn date_chars(&self) -> (r: Vec<char>)
        ensures
            r@ == self.date_key(),
    ;
}

/// Inserts `x` after every element that is not strictly older than it.
pub open spec fn insert_newest_first<T: Dated>(s: Seq<T>, x: T) -> Seq<T>
    decreases s.len(),
{
    if s.len() > 0 && str_lt(s.last().date_key(), x.date_key()) {
        insert_newest_first(s.drop_last(), x).push(s.last())
    } else {
        s.push(x)
    }
}

/// The elements newest first, elements of the same date in their original order
/// (`sort_by(|a, b| b.date.cmp(&a.date))`, a stable sort).
pub open spec fn newest_first_spec<T: Dated>(s: Seq<T>) -> Seq<T>
    decreases s.len(),
{
    if s.len() == 0 {
        s
    } else {
        insert_newest_first(newest_first_spec(s.drop_last()), s.last())
    }
}

fn insert_exec<T: Dated>(v: &mut Vec<T>, keys: &mut Vec<Vec<char>>, x: T)
    requires
        old(keys)@.len() == old(v)@.len(),
        forall|i: int| 0 <= i < old(v)@.len() ==> (#[trigger] old(keys)@[i])@ == old(v)@[i].date_key(),
    ensures
        final(keys)@.len() == final(v)@.len(),
        forall|i: int| 0 <= i < final(v)@.len() ==> (#[trigger] final(keys)@[i])@ == final(v)@[i].date_key(),
        final(v)@ == insert_newest_first(old(v)@, x),
{
    let ghost s = v@;
    let xk = x.date_chars();
    let mut p = v.len();
    assert(s.take(p as int) =~= s);
    assert(s.skip(p as int) =~= Seq::<T>::empty());
    while p > 0 && chars_lt(&keys[p - 1], &xk)
        invariant
            p <= v.len(),
            s == v@,
            keys@.len() == v@.len(),
            forall|i: int| 0 <= i < v@.len() ==> (#[trigger] keys@[i])@ == v@[i].date_key(),
            xk@ == x.date_key(),
            insert_newest_first(s, x) == insert_newest_first(s.take(p as int), x) + s.skip(p as int),
        decreases p,
    {
        let ghost t = s.take(p as int);
        assert(t.drop_last() =~= s.take(p - 1));
        assert(t.last() == s[p - 1]);
        assert(s.skip(p - 1) =~= seq![s[p - 1]] + s.skip(p as int));
        assert(insert_newest_first(s.take(p - 1), x).push(s[p - 1]) + s.skip(p as int)
            =~= insert_newest_first(s.take(p - 1), x) + s.skip(p - 1));
        p = p - 1;
    }
    assert(insert_newest_first(s.take(p as int), x) == s.take(p as int).push(x));
    let ghost ks = keys@;
    v.insert(p, x);
    keys.insert(p, xk);
    assert(v@ =~= s.take(p as int).push(x) + s.skip(p as int));
    assert forall|i: int| 0 <= i < v@.len() implies (#[trigger] keys@[i])@ == v@[i].date_key() by {
        if i < p {
            assert(keys@[i] == ks[i]);
        } else if i > p {
            assert(keys@[i] == ks[i - 1]);
        }
    }
}

/// Orders the elements newest first, keeping the original order among equal dates.
pub fn newest_first<T: Dated>(items: Vec<T>) -> (sorted: Vec<T>)
    ensures
        sorted@ == newest_first_spec(items@),
{
    let ghost all = items@;
    let total: usize = items.len();
    let mut rest = items;
    let mut sorted: Vec<T> = Vec::new();
    let mut keys: Vec<Vec<char>> = Vec::new();
    let mut taken: usize = 0;
    while rest.len() > 0
        invariant
            taken + rest@.len() == all.len(),
            all.len() == total,
            rest@ == all.skip(taken as int),
            sorted@ == newest_first_spec(all.take(taken as int)),
            keys@.len() == sorted@.len(),
            forall|i: int| 0 <= i < sorted@.len() ==> (#[trigger] keys@[i])@ == sorted@[i].date_key(),
        decreases rest.len(),
    {
        let x = rest.remove(0);
        assert(all.take(taken + 1).drop_last() =~= all.take(taken as int));
        assert(all.take(taken + 1).last() == x);
        insert_exec(&mut sorted, &mut keys, x);
        assert(rest@ =~= all.skip(taken + 1));
        taken = taken + 1;
    }
    assert(all.take(taken as int) =~= all);
    sorted
}

/// Newest first really is newest first: no element is followed by a newer one.
pub proof fn lemma_newest_first_ordered<T: Dated>(s: Seq<T>)
    ensures
        newest_first_spec(s).len() == s.len(),
        forall|i: int, j: int|
            0 <= i < j < s.len() ==> !str_lt(
                (#[trigger] newest_first_spec(s)[i]).date_key(),
                (#[trigger] newest_first_spec(s)[j]).date_key(),
            ),
    decreases s.len(),
{
    if s.len() > 0 {
        lemma_newest_first_ordered(s.drop_last());
        lemma_insert_keeps_order(newest_first_spec(s.drop_last()), s.last());
    }
}

proof fn lemma_insert_keeps_order<T: Dated>(s: Seq<T>, x: T)
    requires
        forall|i: int, j: int|
            0 <= i < j < s.len() ==> !str_lt((#[trigger] s[i]).date_key(), (#[trigger] s[j]).date_key()),
    ensures
        insert_newest_first(s, x).len() == s.len() + 1,
        forall|i: int, j: int|
            0 <= i < j < s.len() + 1 ==> !str_lt(
                (#[trigger] insert_newest_first(s, x)[i]).date_key(),
                (#[trigger] insert_newest_first(s, x)[j]).date_key(),
            ),
        forall|i: int|
            0 <= i < s.len() + 1 ==> #[trigger] insert_newest_first(s, x)[i] == x || s.contains(
                insert_newest_first(s, x)[i],
            ),
    decreases s.len(),
{
    let r = insert_newest_first(s, x);
    if s.len() > 0 && str_lt(s.last().date_key(), x.date_key()) {
        let d = s.drop_last();
        lemma_insert_keeps_order(d, x);
        let rd = insert_newest_first(d, x);
        assert forall|i: int| 0 <= i < s.len() + 1 implies #[trigger] r[i] == x || s.contains(r[i]) by {
            if i < rd.len() {
                assert(r[i] == rd[i]);
                if rd[i] != x {
                    let k = choose|k: int| 0 <= k < d.len() && d[k] == rd[i];
                    assert(s[k] == rd[i]);
                }
            } else {
                assert(s[s.len() - 1] == r[i]);
            }
        }
        assert forall|i: int, j: int| 0 <= i < j < s.len() + 1 implies !str_lt(
            (#[trigger] r[i]).date_key(),
            (#[trigger] r[j]).date_key(),
        ) by {
            if j < rd.len() {
                assert(r[i] == rd[i] && r[j] == rd[j]);
            } else {
                assert(r[j] == s.last());
                assert(r[i] == rd[i]);
                if rd[i] == x {
                    crate::order::lemma_str_lt_asymmetric(s.last().date_key(), x.date_key());
                } else {
                    let k = choose|k: int| 0 <= k < d.len() && d[k] == rd[i];
                    assert(s[k] == d[k]);
                    assert(!str_lt(s[k].date_key(), s[s.len() - 1].date_key()));
                }
            }
        }
    } else {
        assert forall|i: int| 0 <= i < s.len() + 1 implies #[trigger] r[i] == x || s.contains(r[i]) by {
            if i < s.len() {
                assert(r[i] == s[i]);
            }
        }
        assert forall|i: int, j: int| 0 <= i < j < s.len() + 1 implies !str_lt(
            (#[trigger] r[i]).date_key(),
            (#[trigger] r[j]).date_key(),
        ) by {
            if j < s.len() {
                assert(r[i] == s[i] && r[j] == s[j]);
            } else {
                assert(r[j] == x);
                assert(r[i] == s[i]);
                if s.len() > 0 && i < s.len() - 1 {
                    assert(!str_lt(s[i].date_key(), s[s.len() - 1].date_key()));
                    if str_lt(s[i].date_key(), x.date_key()) {
                        crate::order::lemma_str_lt_total(s[s.len() - 1].date_key(), x.date_key());
                        crate::order::lemma_str_lt_total(s[i].date_key(), s[s.len() - 1].date_key());
                        if s[i].date_key() != s[s.len() - 1].date_key() {
                            crate::order::lemma_str_lt_transitive(
                                s[s.len() - 1].date_key(),
                                s[i].date_key(),
                                x.date_key(),
                            );
                        }
                    }
                }
            }
        }
    }
}

proof fn lemma_insert_permutes<T: Dated>(s: Seq<T>, x: T)
    ensures
        insert_newest_first(s, x).to_multiset() == s.to_multiset().insert(x),
    decreases s.len(),
{
    broadcast use vstd::seq_lib::group_to_multiset_ensures;

    if s.len() > 0 && str_lt(s.last().date_key(), x.date_key()) {
        let d = s.drop_last();
        lemma_insert_permutes(d, x);
        assert(d.push(s.last()) =~= s);
        assert(insert_newest_first(d, x).push(s.last()).to_multiset()
            =~= insert_newest_first(d, x).to_multiset().insert(s.last()));
        assert(s.to_multiset() =~= d.to_multiset().insert(s.last()));
        assert(insert_newest_first(s, x).to_multiset() =~= s.to_multiset().insert(x));
    }
}

/// Putting newest first only reorders: the same elements, each as many times.
pub proof fn lemma_newest_first_permutes<T: Dated>(s: Seq<T>)
    ensures
        newest_first_spec(s).to_multiset() == s.to_multiset(),
    decreases s.len(),
{
    broadcast use vstd::seq_lib::group_to_multiset_ensures;

    if s.len() > 0 {
        let d = s.drop_last();
        lemma_newest_first_permutes(d);
        lemma_insert_permutes(newest_first_spec(d), s.last());
        assert(d.push(s.last()) =~= s);
        assert(s.to_multiset() =~= d.to_multiset().insert(s.last()));
    }
}

// ───────────────────────────── lists ordered by a number ─────────────────────────────

/// Something listed by a number, smaller first (a weight, an order).
pub trait Ranked: Sized {
    spec fn rank(&self) -> nat;

    fn rank_value(&self) -> (r: u64)
        ensures
            r as nat == self.rank(),
    ;
}

/// Inserts `x` after every element whose rank is not larger.
pub open spec fn insert_by_rank<T: Ranked>(s: Seq<T>, x: T) -> Seq<T>
    decreases s.len(),
{
    if s.len() > 0 && s.last().rank() > x.rank() {
        insert_by_rank(s.drop_last(), x).push(s.last())
    } else {
        s.push(x)
    }
}

/// The elements by increasing rank, elements of the same rank in their original
/// order (`sort_by_key`, a stable sort).
pub open spec fn by_rank_spec<T: Ranked>(s: Seq<T>) -> Seq<T>
    decreases s.len(),
{
    if s.len() == 0 {
        s
    } else {
        insert_by_rank(by_rank_spec(s.drop_last()), s.last())
    }
}

fn insert_ranked<T: Ranked>(v: &mut Vec<T>, x: T)
    ensures
        final(v)@ == insert_by_rank(old(v)@, x),
{
    let ghost s = v@;
    let xr = x.rank_value();
    let mut p = v.len();
    assert(s.take(p as int) =~= s);
    assert(s.skip(p as int) =~= Seq::<T>::empty());
    while p > 0 && v[p - 1].rank_value() > xr
        invariant
            p <= v.len(),
            s == v@,
            xr as nat == x.rank(),
            insert_by_rank(s, x) == insert_by_rank(s.take(p as int), x) + s.skip(p as int),
        decreases p,
    {
        let ghost t = s.take(p as int);
        assert(t.drop_last() =~= s.take(p - 1));
        assert(t.last() == s[p - 1]);
        assert(s.skip(p - 1) =~= seq![s[p - 1]] + s.skip(p as int));
        assert(insert_by_rank(s.take(p - 1), x).push(s[p - 1]) + s.skip(p as int)
            =~= insert_by_rank(s.take(p - 1), x) + s.skip(p - 1));
        p = p - 1;
    }
    assert(insert_by_rank(s.take(p as int), x) == s.take(p as int).push(x));
    v.insert(p, x);
    assert(v@ =~= s.take(p as int).push(x) + s.skip(p as int));
}

/// Orders the elements by increasing rank, keeping the original order among equal
/// ranks.
pub fn sort_by_rank<T: Ranked>(items: Vec<T>) -> (sorted: Vec<T>)
    ensures
        sorted@ == by_rank_spec(items@),
{
    let ghost all = items@;
    let total: usize = items.len();
    let mut rest = items;
    let mut sorted: Vec<T> = Vec::new();
    let mut taken: usize = 0;
    while rest.len() > 0
        invariant
            taken + rest@.len() == all.len(),
            all.len() == total,
            rest@ == all.skip(taken as int),
            sorted@ == by_rank_spec(all.take(taken as int)),
        decreases rest.len(),
    {
        let x = rest.remove(0);
        assert(all.take(taken + 1).drop_last() =~= all.take(taken as int));
        assert(all.take(taken + 1).last() == x);
        insert_ranked(&mut sorted, x);
        assert(rest@ =~= all.skip(taken + 1));
        taken = taken + 1;
    }
    assert(all.take(taken as int) =~= all);
    sorted
}

proof fn lemma_insert_by_rank<T: Ranked>(s: Seq<T>, x: T)
    requires
        forall|i: int, j: int| 0 <= i < j < s.len() ==> (#[trigger] s[i]).rank() <= (#[trigger] s[j]).rank(),
    ensures
        forall|i: int, j: int|
            0 <= i < j < insert_by_rank(s, x).len() ==> (#[trigger] insert_by_rank(s, x)[i]).rank()
                <= (#[trigger] insert_by_rank(s, x)[j]).rank(),
        insert_by_rank(s, x).to_multiset() == s.to_multiset().insert(x),
    decreases s.len(),
{
    broadcast use vstd::seq_lib::group_to_multiset_ensures;

    let r = insert_by_rank(s, x);
    if s.len() > 0 && s.last().rank() > x.rank() {
        let d = s.drop_last();
        lemma_insert_by_rank(d, x);
        let rd = insert_by_rank(d, x);
        assert(d.push(s.last()) =~= s);
        assert(rd.push(s.last()).to_multiset() =~= rd.to_multiset().insert(s.last()));
        assert(s.to_multiset() =~= d.to_multiset().insert(s.last()));
        assert(r.to_multiset() =~= s.to_multiset().insert(x));
        assert forall|i: int, j: int| 0 <= i < j < r.len() implies (#[trigger] r[i]).rank() <= (
        #[trigger] r[j]).rank() by {
            if j < rd.len() {
                assert(r[i] == rd[i] && r[j] == rd[j]);
            } else {
                assert(r[j] == s.last());
                assert(r[i] == rd[i]);
                assert(rd.contains(rd[i]));
                assert(rd.to_multiset().count(rd[i]) > 0);
                if rd[i] != x {
                    assert(d.to_multiset().count(rd[i]) > 0);
                    assert(d.contains(rd[i]));
                    let k = choose|k: int| 0 <= k < d.len() && d[k] == rd[i];
                    assert(s[k] == d[k]);
                }
            }
        }
    } else {
        assert forall|i: int, j: int| 0 <= i < j < r.len() implies (#[trigger] r[i]).rank() <= (
        #[trigger] r[j]).rank() by {
            if j < s.len() {
                assert(r[i] == s[i] && r[j] == s[j]);
            } else {
                assert(r[j] == x);
                assert(r[i] == s[i]);
                if i < s.len() - 1 {
                    assert(s[i].rank() <= s[s.len() - 1].rank());
                }
            }
        }
    }
}

/// Ordering by rank only reorders, and gives increasing ranks.
pub proof fn lemma_by_rank_sorted<T: Ranked>(s: Seq<T>)
    ensures
        forall|i: int, j: int|
            0 <= i < j < by_rank_spec(s).len() ==> (#[trigger] by_rank_spec(s)[i]).rank() <= (
            #[trigger] by_rank_spec(s)[j]).rank(),
        by_rank_spec(s).to_multiset() == s.to_multiset(),
    decreases s.len(),
{
    broadcast use vstd::seq_lib::group_to_multiset_ensures;

    if s.len() > 0 {
        let d = s.drop_last();
        lemma_by_rank_sorted(d);
        lemma_insert_by_rank(by_rank_spec(d), s.last());
        assert(d.push(s.last()) =~= s);
        assert(s.to_multiset() =~= d.to_multiset().insert(s.last()));
    } else {
        assert(by_rank_spec(s) =~= s);
    }
}

} // verus!
