//! Ordering records by time without disturbing the order of records that
//! share a time.

use vstd::prelude::*;

verus! {

/// A record that is placed on the timeline by one instant.
pub trait Timed: Copy {
    /// The instant, in microseconds, by which the record is ordered.
    spec fn time(&self) -> u64;

    fn time_of(&self) -> (t: u64)
        ensures
            t == self.time(),
    ;
}

/// No record comes before an earlier one.
pub open spec fn is_ordered<T: Timed>(s: Seq<T>) -> bool {
    forall|i: int, j: int| 0 <= i <= j < s.len() ==> s[i].time() <= s[j].time()
}

/// `s` with `x` placed behind every record that is not later than `x`.
pub open spec fn inserted<T: Timed>(s: Seq<T>, x: T) -> Seq<T>
    decreases s.len(),
{
    if s.len() > 0 && s.last().time() > x.time() {
        inserted(s.drop_last(), x).push(s.last())
    } else {
        s.push(x)
    }
}

/// The records of `s` in order of time; records of equal time keep the order
/// in which they stand in `s`. By `lemma_ordered_unique` this is the only
/// sequence that is in order and stable.
pub open spec fn ordered<T: Timed>(s: Seq<T>) -> Seq<T>
    decreases s.len(),
{
    if s.len() == 0 {
        s
    } else {
        inserted(ordered(s.drop_last()), s.last())
    }
}

/// Inserting adds one record, keeps the others and keeps the order.
pub proof fn lemma_inserted<T: Timed>(s: Seq<T>, x: T)
    ensures
        inserted(s, x).len() == s.len() + 1,
        inserted(s, x).to_multiset() == s.to_multiset().insert(x),
        is_ordered(s) ==> is_ordered(inserted(s, x)),
        forall|i: int|
            0 <= i < inserted(s, x).len() ==> #[trigger] inserted(s, x)[i] == x || s.contains(
                inserted(s, x)[i],
            ),
    decreases s.len(),
{
    broadcast use vstd::seq_lib::group_to_multiset_ensures;

    let r = inserted(s, x);
    if s.len() > 0 && s.last().time() > x.time() {
        let head = s.drop_last();
        let inner = inserted(head, x);
        lemma_inserted(head, x);
        assert(s == head.push(s.last()));
        assert(r == inner.push(s.last()));
        assert(r.to_multiset() == inner.to_multiset().insert(s.last()));
        assert(s.to_multiset() == head.to_multiset().insert(s.last()));
        assert(r.to_multiset() =~= s.to_multiset().insert(x));
        assert forall|i: int| 0 <= i < r.len() implies #[trigger] r[i] == x || s.contains(r[i]) by {
            if i < inner.len() {
                assert(r[i] == inner[i]);
                if inner[i] != x {
                    assert(head.contains(inner[i]));
                    let k = choose|k: int| 0 <= k < head.len() && head[k] == inner[i];
                    assert(s[k] == inner[i]);
                }
            } else {
                assert(r[i] == s[s.len() - 1]);
            }
        }
        if is_ordered(s) {
            assert(is_ordered(head)) by {
                assert forall|i: int, j: int| 0 <= i <= j < head.len() implies head[i].time()
                    <= head[j].time() by {
                    assert(head[i] == s[i] && head[j] == s[j]);
                }
            }
            assert forall|i: int, j: int| 0 <= i <= j < r.len()
                implies r[i].time() <= r[j].time() by {
                if j < inner.len() {
                    assert(r[i] == inner[i] && r[j] == inner[j]);
                } else if i < inner.len() {
                    assert(r[i] == inner[i]);
                    if inner[i] != x {
                        assert(head.contains(inner[i]));
                        let k = choose|k: int| 0 <= k < head.len() && head[k] == inner[i];
                        assert(s[k].time() <= s[s.len() - 1].time());
                    }
                }
            }
        }
    } else {
        assert(r == s.push(x));
        assert forall|i: int| 0 <= i < r.len() implies #[trigger] r[i] == x || s.contains(r[i]) by {
            if i < s.len() {
                assert(s[i] == r[i]);
            }
        }
        if is_ordered(s) {
            assert forall|i: int, j: int| 0 <= i <= j < r.len()
                implies r[i].time() <= r[j].time() by {
                if j < s.len() {
                    assert(r[i] == s[i] && r[j] == s[j]);
                } else if i < s.len() {
                    assert(r[i] == s[i]);
                    if s.len() > 0 {
                        assert(s[i].time() <= s[s.len() - 1].time());
                    }
                }
            }
        }
    }
}

/// Ordering keeps every record, as often as it occurs, and puts them in order.
pub proof fn lemma_ordered<T: Timed>(s: Seq<T>)
    ensures
        ordered(s).len() == s.len(),
        ordered(s).to_multiset() == s.to_multiset(),
        is_ordered(ordered(s)),
        forall|i: int| 0 <= i < ordered(s).len() ==> s.contains(#[trigger] ordered(s)[i]),
    decreases s.len(),
{
    broadcast use vstd::seq_lib::group_to_multiset_ensures;

    if s.len() == 0 {
    } else {
        let head = s.drop_last();
        let r = ordered(s);
        lemma_ordered(head);
        lemma_inserted(ordered(head), s.last());
        assert(s == head.push(s.last()));
        assert(s.to_multiset() == head.to_multiset().insert(s.last()));
        assert forall|i: int| 0 <= i < r.len() implies s.contains(#[trigger] r[i]) by {
            if r[i] == s.last() {
                assert(s[s.len() - 1] == r[i]);
            } else {
                assert(ordered(head).contains(r[i]));
                let k = choose|k: int| 0 <= k < ordered(head).len() && ordered(head)[k] == r[i];
                assert(head.contains(ordered(head)[k]));
                let m = choose|m: int| 0 <= m < head.len() && head[m] == r[i];
                assert(s[m] == r[i]);
            }
        }
    }
}

/// The records of `s` that stand at the instant `t`, in the order in which
/// they stand in `s`.
pub open spec fn at_time<T: Timed>(s: Seq<T>, t: u64) -> Seq<T>
    decreases s.len(),
{
    if s.len() == 0 {
        s
    } else if s.last().time() == t {
        at_time(s.drop_last(), t).push(s.last())
    } else {
        at_time(s.drop_last(), t)
    }
}

/// Inserting a record puts it behind the records of its own instant and
/// leaves the records of every other instant as they are.
pub proof fn lemma_inserted_at_time<T: Timed>(s: Seq<T>, x: T, t: u64)
    ensures
        at_time(inserted(s, x), t) == (if x.time() == t {
            at_time(s, t).push(x)
        } else {
            at_time(s, t)
        }),
    decreases s.len(),
{
    if s.len() > 0 && s.last().time() > x.time() {
        let head = s.drop_last();
        let inner = inserted(head, x);
        let r = inner.push(s.last());
        lemma_inserted_at_time(head, x, t);
        assert(r.drop_last() == inner);
        assert(r.last() == s.last());
    } else {
        let r = s.push(x);
        assert(r.drop_last() == s);
        assert(r.last() == x);
    }
}

/// Ordering is stable: the records of one instant keep the order in which
/// they stand.
pub proof fn lemma_ordered_stable<T: Timed>(s: Seq<T>, t: u64)
    ensures
        at_time(ordered(s), t) == at_time(s, t),
    decreases s.len(),
{
    if s.len() > 0 {
        lemma_ordered_stable(s.drop_last(), t);
        lemma_inserted_at_time(ordered(s.drop_last()), s.last(), t);
    }
}

/// A record stands at an instant exactly if it is among the records of that
/// instant.
pub proof fn lemma_at_time_holds<T: Timed>(s: Seq<T>, t: u64)
    ensures
        forall|i: int| 0 <= i < at_time(s, t).len() ==> (#[trigger] at_time(s, t)[i]).time() == t,
        at_time(s, t).len() > 0 <==> exists|i: int| 0 <= i < s.len() && (#[trigger] s[i]).time() == t,
    decreases s.len(),
{
    if s.len() > 0 {
        let head = s.drop_last();
        lemma_at_time_holds(head, t);
        if s.last().time() == t {
            assert(s[s.len() - 1].time() == t);
        } else {
            if exists|i: int| 0 <= i < s.len() && (#[trigger] s[i]).time() == t {
                let i = choose|i: int| 0 <= i < s.len() && (#[trigger] s[i]).time() == t;
                assert(head[i] == s[i]);
            }
        }
        if at_time(head, t).len() > 0 {
            let i = choose|i: int| 0 <= i < head.len() && (#[trigger] head[i]).time() == t;
            assert(s[i] == head[i]);
        }
    }
}

/// Only one sequence is in order and holds at every instant the records that
/// `s` holds there, in the order of `s`: it is `ordered(s)`.
pub proof fn lemma_ordered_unique<T: Timed>(s: Seq<T>, r: Seq<T>)
    requires
        is_ordered(r),
        forall|t: u64| #[trigger] at_time(r, t) == at_time(s, t),
    ensures
        r == ordered(s),
{
    lemma_ordered(s);
    assert forall|t: u64| #[trigger] at_time(r, t) == at_time(ordered(s), t) by {
        lemma_ordered_stable(s, t);
    }
    lemma_alike_ordered(r, ordered(s));
}

/// Two sequences that are in order and hold the same records at every
/// instant, in the same order, are one.
proof fn lemma_alike_ordered<T: Timed>(a: Seq<T>, b: Seq<T>)
    requires
        is_ordered(a),
        is_ordered(b),
        forall|t: u64| #[trigger] at_time(a, t) == at_time(b, t),
    ensures
        a == b,
    decreases a.len(),
{
    if a.len() == 0 {
        if b.len() > 0 {
            let t = b.last().time();
            assert(at_time(a, t) == at_time(b, t));
            assert(at_time(b, t).len() > 0);
        }
        assert(a =~= b);
    } else {
        let x = a.last();
        let m = x.time();
        assert(at_time(a, m) == at_time(b, m));
        assert(at_time(a, m).last() == x);
        lemma_at_time_holds(b, m);
        lemma_at_time_holds(a, m);
        assert(b.len() > 0);
        let y = b.last();
        let n = y.time();
        assert(at_time(a, n) == at_time(b, n));
        lemma_at_time_holds(a, n);
        lemma_at_time_holds(b, n);
        assert(at_time(b, n).last() == y);
        // The last record of each stands at the latest instant of both.
        let i = choose|i: int| 0 <= i < b.len() && (#[trigger] b[i]).time() == m;
        assert(b[i].time() <= b[b.len() - 1].time());
        let k = choose|k: int| 0 <= k < a.len() && (#[trigger] a[k]).time() == n;
        assert(a[k].time() <= a[a.len() - 1].time());
        assert(m == n);
        assert(x == y);
        let a_head = a.drop_last();
        let b_head = b.drop_last();
        assert(is_ordered(a_head)) by {
            assert forall|i: int, j: int| 0 <= i <= j < a_head.len()
                implies a_head[i].time() <= a_head[j].time() by {
                assert(a_head[i] == a[i] && a_head[j] == a[j]);
            }
        }
        assert(is_ordered(b_head)) by {
            assert forall|i: int, j: int| 0 <= i <= j < b_head.len()
                implies b_head[i].time() <= b_head[j].time() by {
                assert(b_head[i] == b[i] && b_head[j] == b[j]);
            }
        }
        assert forall|t: u64| #[trigger] at_time(a_head, t) == at_time(b_head, t) by {
            assert(at_time(a, t) == at_time(b, t));
            if t == m {
                assert(at_time(a, t) == at_time(a_head, t).push(x));
                assert(at_time(b, t) == at_time(b_head, t).push(x));
                assert(at_time(a_head, t) == at_time(a, t).drop_last());
                assert(at_time(b_head, t) == at_time(b, t).drop_last());
            }
        }
        lemma_alike_ordered(a_head, b_head);
        assert(a == a_head.push(x));
        assert(b == b_head.push(y));
    }
}

/// A record that is no later than the one that is inserted keeps the first
/// place.
pub proof fn lemma_inserted_first<T: Timed>(s: Seq<T>, x: T)
    requires
        s.len() > 0,
        s[0].time() <= x.time(),
    ensures
        inserted(s, x).len() > 0,
        inserted(s, x)[0] == s[0],
    decreases s.len(),
{
    if s.last().time() > x.time() {
        let head = s.drop_last();
        assert(head[0] == s[0]);
        lemma_inserted_first(head, x);
    }
}

/// A first record that is no later than any other keeps the first place.
pub proof fn lemma_ordered_first<T: Timed>(s: Seq<T>)
    requires
        s.len() > 0,
        forall|i: int| 0 <= i < s.len() ==> s[0].time() <= (#[trigger] s[i]).time(),
    ensures
        ordered(s).len() > 0,
        ordered(s)[0] == s[0],
    decreases s.len(),
{
    let head = s.drop_last();
    if head.len() > 0 {
        assert(head[0] == s[0]);
        assert forall|i: int| 0 <= i < head.len()
            implies head[0].time() <= (#[trigger] head[i]).time() by {
            assert(head[i] == s[i]);
        }
        lemma_ordered_first(head);
        assert(s[0].time() <= s[s.len() - 1].time());
        lemma_inserted_first(ordered(head), s.last());
    } else {
        assert(ordered(head) =~= Seq::<T>::empty());
        assert(inserted(ordered(head), s.last()) == ordered(head).push(s.last()));
    }
}

/// Orders the records by time. Records of equal time keep their order.
pub fn sort_by_time<T: Timed>(v: &Vec<T>) -> (r: Vec<T>)
    ensures
        r@ == ordered(v@),
        r@.len() == v@.len(),
        r@.to_multiset() == v@.to_multiset(),
        is_ordered(r@),
        forall|t: u64| #[trigger] at_time(r@, t) == at_time(v@, t),
{
    let mut r: Vec<T> = Vec::with_capacity(v.len());
    let mut i: usize = 0;
    assert(v@.subrange(0, 0) =~= Seq::<T>::empty());
    while i < v.len()
        invariant
            i <= v.len(),
            r@ == ordered(v@.subrange(0, i as int)),
            r@.len() == i,
        decreases v.len() - i,
    {
        let x: T = v[i];
        let key: u64 = x.time_of();
        let ghost before = r@;
        r.push(x);
        let mut j: usize = i;
        assert(before.subrange(0, j as int) == before);
        assert(before.subrange(j as int, i as int) =~= Seq::<T>::empty());
        assert(r@ == before.subrange(0, j as int).push(x) + before.subrange(j as int, i as int));
        while j > 0 && r[j - 1].time_of() > key
            invariant
                j <= i,
                i < v.len(),
                before.len() == i,
                r@.len() == i + 1,
                key == x.time(),
                r@ == before.subrange(0, j as int).push(x) + before.subrange(j as int, i as int),
                inserted(before, x) == inserted(before.subrange(0, j as int), x) + before.subrange(
                    j as int,
                    i as int,
                ),
            decreases j,
        {
            let ghost front = before.subrange(0, j as int);
            let moved: T = r[j - 1];
            assert(moved == before[j - 1]);
            assert(front.last() == before[j - 1]);
            assert(front.drop_last() == before.subrange(0, j - 1));
            assert(inserted(front, x) == inserted(front.drop_last(), x).push(front.last()));
            r.set(j, moved);
            r.set(j - 1, x);
            j -= 1;
            assert(r@ =~= before.subrange(0, j as int).push(x) + before.subrange(
                j as int,
                i as int,
            ));
            assert(inserted(before, x) =~= inserted(before.subrange(0, j as int), x)
                + before.subrange(j as int, i as int));
        }
        proof {
            let front = before.subrange(0, j as int);
            if j > 0 {
                assert(front.last() == before[j - 1]);
                assert(r@[j - 1] == before[j - 1]);
            }
            assert(inserted(front, x) == front.push(x));
            let next = v@.subrange(0, i + 1);
            assert(next.drop_last() == v@.subrange(0, i as int));
            assert(next.last() == x);
        }
        i += 1;
    }
    proof {
        assert(v@.subrange(0, v.len() as int) == v@);
        lemma_ordered(v@);
        assert forall|t: u64| #[trigger] at_time(r@, t) == at_time(v@, t) by {
            lemma_ordered_stable(v@, t);
        }
    }
    r
}

} // verus!
