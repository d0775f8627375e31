//! Sorted lists of texts in which nothing occurs twice.

use crate::text::{chars_of, less_than, same, texts};
use vstd::prelude::*;

verus! {

/// Each text of `t` comes before all that stand behind it.
pub open spec fn strictly_increasing(t: Seq<Seq<char>>) -> bool {
    forall|i: int, j: int| 0 <= i < j < t.len() ==> less_than(#[trigger] t[i], #[trigger] t[j])
}

/// `a` and `b` hold the same texts, however often and in whatever order.
pub open spec fn same_texts(a: Seq<Seq<char>>, b: Seq<Seq<char>>) -> bool {
    forall|x: Seq<char>| a.contains(x) <==> #[trigger] b.contains(x)
}

/// The texts of `s` in increasing order, each of them once.
pub open spec fn sorted_set(s: Seq<Seq<char>>) -> Seq<Seq<char>> {
    choose|t: Seq<Seq<char>>| strictly_increasing(t) && same_texts(t, s)
}

/// No text comes before itself.
proof fn lemma_less_irreflexive(a: Seq<char>)
    ensures
        !less_than(a, a),
    decreases a.len(),
{
    if a.len() > 0 {
        lemma_less_irreflexive(a.skip(1));
    }
}

/// The order of texts is transitive.
proof fn lemma_less_transitive(a: Seq<char>, b: Seq<char>, c: Seq<char>)
    requires
        less_than(a, b),
        less_than(b, c),
    ensures
        less_than(a, c),
    decreases a.len(),
{
    if a.len() > 0 && a[0] == b[0] && b[0] == c[0] {
        lemma_less_transitive(a.skip(1), b.skip(1), c.skip(1));
    }
}

/// Characters that differ have code points that differ.
proof fn lemma_code_points_differ(a: char, b: char)
    requires
        a != b,
    ensures
        a as u32 != b as u32,
{
}

/// Of two texts that differ, one comes before the other.
proof fn lemma_less_total(a: Seq<char>, b: Seq<char>)
    ensures
        less_than(a, b) || less_than(b, a) || a == b,
    decreases a.len(),
{
    if a.len() == 0 || b.len() == 0 {
        if a.len() == 0 && b.len() == 0 {
            assert(a =~= b);
        }
    } else if a[0] != b[0] {
        lemma_code_points_differ(a[0], b[0]);
    } else {
        lemma_less_total(a.skip(1), b.skip(1));
        if a.skip(1) == b.skip(1) {
            assert(a =~= b) by {
                assert forall|i: int| 0 <= i < a.len() implies a[i] == b[i] by {
                    if i > 0 {
                        assert(a[i] == a.skip(1)[i - 1]);
                        assert(b[i] == b.skip(1)[i - 1]);
                    }
                }
                assert(a.len() == a.skip(1).len() + 1);
                assert(b.len() == b.skip(1).len() + 1);
            }
        }
    }
}

/// A new text between the smaller and the larger ones keeps a list increasing.
proof fn lemma_insert(t: Seq<Seq<char>>, p: int, x: Seq<char>)
    requires
        strictly_increasing(t),
        0 <= p <= t.len(),
        forall|j: int| 0 <= j < p ==> less_than(#[trigger] t[j], x),
        forall|j: int| p <= j < t.len() ==> less_than(x, #[trigger] t[j]),
    ensures
        strictly_increasing(t.insert(p, x)),
        same_texts(t.insert(p, x), t.push(x)),
{
    let u = t.insert(p, x);
    assert forall|i: int, j: int| 0 <= i < j < u.len() implies less_than(
        #[trigger] u[i],
        #[trigger] u[j],
    ) by {
        let a = if i < p {
            t[i]
        } else if i == p {
            x
        } else {
            t[i - 1]
        };
        let b = if j < p {
            t[j]
        } else if j == p {
            x
        } else {
            t[j - 1]
        };
        assert(u[i] == a && u[j] == b);
    }
    assert forall|y: Seq<char>| u.contains(y) <==> #[trigger] t.push(x).contains(y) by {
        if u.contains(y) {
            let i = choose|i: int| 0 <= i < u.len() && u[i] == y;
            let k = if i < p {
                i
            } else if i == p {
                t.len() as int
            } else {
                i - 1
            };
            assert(t.push(x)[k] == y);
        }
        if t.push(x).contains(y) {
            let k = choose|k: int| 0 <= k < t.push(x).len() && t.push(x)[k] == y;
            let i = if k == t.len() {
                p
            } else if k < p {
                k
            } else {
                k + 1
            };
            assert(u[i] == y);
        }
    }
}

/// Where a text belongs in an increasing list.
proof fn lemma_place(t: Seq<Seq<char>>, x: Seq<char>) -> (p: int)
    requires
        strictly_increasing(t),
        !t.contains(x),
    ensures
        0 <= p <= t.len(),
        forall|j: int| 0 <= j < p ==> less_than(#[trigger] t[j], x),
        forall|j: int| p <= j < t.len() ==> less_than(x, #[trigger] t[j]),
    decreases t.len(),
{
    if t.len() == 0 {
        0
    } else {
        let u = t.drop_last();
        assert(!u.contains(x)) by {
            if u.contains(x) {
                let i = choose|i: int| 0 <= i < u.len() && u[i] == x;
                assert(t[i] == x);
            }
        }
        assert forall|i: int, j: int| 0 <= i < j < u.len() implies less_than(
            #[trigger] u[i],
            #[trigger] u[j],
        ) by {
            assert(less_than(t[i], t[j]));
        }
        lemma_less_total(t.last(), x);
        assert(t[t.len() - 1] == t.last());
        if less_than(t.last(), x) {
            assert forall|j: int| 0 <= j < t.len() implies less_than(#[trigger] t[j], x) by {
                if j < t.len() - 1 {
                    lemma_less_transitive(t[j], t[t.len() - 1], x);
                }
            }
            t.len() as int
        } else {
            let p = lemma_place(u, x);
            assert forall|j: int| 0 <= j < p implies less_than(#[trigger] t[j], x) by {
                assert(u[j] == t[j]);
            }
            assert forall|j: int| p <= j < t.len() implies less_than(x, #[trigger] t[j]) by {
                if j < u.len() {
                    assert(u[j] == t[j]);
                }
            }
            p
        }
    }
}

/// Every list has its sorted set.
proof fn lemma_sorted_set_exists(s: Seq<Seq<char>>) -> (t: Seq<Seq<char>>)
    ensures
        strictly_increasing(t),
        same_texts(t, s),
    decreases s.len(),
{
    if s.len() == 0 {
        assert(same_texts(s, s));
        s
    } else {
        let u = lemma_sorted_set_exists(s.drop_last());
        let x = s.last();
        assert(s.drop_last().push(x) =~= s);
        if u.contains(x) {
            lemma_push_known(u, s.drop_last(), x);
            u
        } else {
            let p = lemma_place(u, x);
            lemma_insert(u, p, x);
            lemma_push_both(u, s.drop_last(), x);
            u.insert(p, x)
        }
    }
}

/// A text that is there already adds nothing.
proof fn lemma_push_known(u: Seq<Seq<char>>, s: Seq<Seq<char>>, x: Seq<char>)
    requires
        same_texts(u, s),
        u.contains(x),
    ensures
        same_texts(u, s.push(x)),
{
    assert forall|y: Seq<char>| u.contains(y) <==> #[trigger] s.push(x).contains(y) by {
        lemma_push_contains(s, x, y);
        assert(u.contains(y) <==> s.contains(y));
    }
}

/// Two lists that hold the same texts still do with one text more in each.
proof fn lemma_push_both(u: Seq<Seq<char>>, s: Seq<Seq<char>>, x: Seq<char>)
    requires
        same_texts(u, s),
    ensures
        same_texts(u.push(x), s.push(x)),
{
    assert forall|y: Seq<char>| u.push(x).contains(y) <==> #[trigger] s.push(x).contains(y) by {
        lemma_push_contains(s, x, y);
        lemma_push_contains(u, x, y);
        assert(u.contains(y) <==> s.contains(y));
    }
}

/// What a list holds once `x` is pushed.
pub proof fn lemma_push_contains(s: Seq<Seq<char>>, x: Seq<char>, y: Seq<char>)
    ensures
        s.push(x).contains(y) <==> s.contains(y) || x == y,
{
    if s.contains(y) {
        let i = choose|i: int| 0 <= i < s.len() && s[i] == y;
        assert(s.push(x)[i] == y);
    }
    if x == y {
        assert(s.push(x)[s.len() as int] == y);
    }
    if s.push(x).contains(y) {
        let i = choose|i: int| 0 <= i < s.push(x).len() && s.push(x)[i] == y;
        if i < s.len() {
            assert(s[i] == y);
        }
    }
}

/// Two increasing lists that hold the same texts are the same list.
proof fn lemma_increasing_unique(a: Seq<Seq<char>>, b: Seq<Seq<char>>)
    requires
        strictly_increasing(a),
        strictly_increasing(b),
        same_texts(a, b),
    ensures
        a == b,
    decreases a.len(),
{
    if a.len() == 0 {
        if b.len() > 0 {
            assert(b.contains(b[0]));
        }
        assert(a =~= b);
    } else {
        assert(a.contains(a[0]));
        assert(b.contains(a[0]));
        lemma_same_last(a, b);
        let u = a.drop_last();
        let v = b.drop_last();
        assert forall|i: int, j: int| 0 <= i < j < u.len() implies less_than(
            #[trigger] u[i],
            #[trigger] u[j],
        ) by {
            assert(less_than(a[i], a[j]));
        }
        assert forall|i: int, j: int| 0 <= i < j < v.len() implies less_than(
            #[trigger] v[i],
            #[trigger] v[j],
        ) by {
            assert(less_than(b[i], b[j]));
        }
        assert forall|x: Seq<char>| u.contains(x) <==> #[trigger] v.contains(x) by {
            lemma_drop_last_contains(a, x);
            lemma_drop_last_contains(b, x);
            assert(a.contains(x) <==> b.contains(x));
        }
        lemma_increasing_unique(u, v);
        assert(a =~= u.push(a.last()));
        assert(b =~= v.push(b.last()));
    }
}

/// Two increasing lists that hold the same texts end alike.
proof fn lemma_same_last(a: Seq<Seq<char>>, b: Seq<Seq<char>>)
    requires
        strictly_increasing(a),
        strictly_increasing(b),
        same_texts(a, b),
        a.len() > 0,
        b.len() > 0,
    ensures
        a.last() == b.last(),
{
    let x = a.last();
    let y = b.last();
    assert(a[a.len() - 1] == x);
    assert(b[b.len() - 1] == y);
    assert(a.contains(x));
    assert(b.contains(y));
    assert(b.contains(x));
    assert(a.contains(y));
    let i = choose|i: int| 0 <= i < b.len() && b[i] == x;
    let j = choose|j: int| 0 <= j < a.len() && a[j] == y;
    if i < b.len() - 1 && j < a.len() - 1 {
        assert(less_than(b[i], b[b.len() - 1]));
        assert(less_than(a[j], a[a.len() - 1]));
        lemma_less_transitive(x, y, x);
        lemma_less_irreflexive(x);
    }
}

/// What an increasing list holds without its last text.
proof fn lemma_drop_last_contains(a: Seq<Seq<char>>, x: Seq<char>)
    requires
        strictly_increasing(a),
        a.len() > 0,
    ensures
        a.drop_last().contains(x) <==> a.contains(x) && x != a.last(),
{
    let u = a.drop_last();
    if u.contains(x) {
        let i = choose|i: int| 0 <= i < u.len() && u[i] == x;
        assert(a[i] == x);
        assert(less_than(a[i], a[a.len() - 1]));
        lemma_less_irreflexive(x);
    }
    if a.contains(x) && x != a.last() {
        let i = choose|i: int| 0 <= i < a.len() && a[i] == x;
        assert(u[i] == x);
    }
}

/// The sorted set of a list is increasing and holds the list's texts, and it is the only
/// such list.
pub proof fn lemma_sorted_set(s: Seq<Seq<char>>)
    ensures
        strictly_increasing(sorted_set(s)),
        same_texts(sorted_set(s), s),
        forall|t: Seq<Seq<char>>|
            strictly_increasing(t) && #[trigger] same_texts(t, s) ==> t == sorted_set(s),
{
    let w = lemma_sorted_set_exists(s);
    let r = sorted_set(s);
    assert(strictly_increasing(r) && same_texts(r, s));
    assert forall|t: Seq<Seq<char>>|
        strictly_increasing(t) && #[trigger] same_texts(t, s) implies t == r by {
        assert forall|x: Seq<char>| t.contains(x) <==> #[trigger] r.contains(x) by {
            assert(t.contains(x) <==> s.contains(x));
            assert(r.contains(x) <==> s.contains(x));
        }
        lemma_increasing_unique(t, r);
    }
}

/// Whether `a` comes before `b`.
pub fn less(a: &str, b: &str) -> (yes: bool)
    ensures
        yes == less_than(a@, b@),
{
    let x = chars_of(a);
    let y = chars_of(b);
    let mut i: usize = 0;
    assert(a@.skip(0) =~= a@);
    assert(b@.skip(0) =~= b@);
    while i < x.len() && i < y.len()
        invariant
            x@ == a@,
            y@ == b@,
            i <= x.len(),
            i <= y.len(),
            less_than(a@, b@) == less_than(a@.skip(i as int), b@.skip(i as int)),
        decreases x.len() - i,
    {
        assert(a@.skip(i as int).skip(1) =~= a@.skip(i + 1));
        assert(b@.skip(i as int).skip(1) =~= b@.skip(i + 1));
        if x[i] != y[i] {
            return (x[i] as u32) < (y[i] as u32);
        }
        i += 1;
    }
    i < y.len()
}

/// The texts of `list` in increasing order, each of them once.
pub fn sort_dedup(list: &Vec<String>) -> (out: Vec<String>)
    ensures
        texts(out@) == sorted_set(texts(list@)),
{
    let mut out: Vec<String> = Vec::new();
    let mut k: usize = 0;
    assert(same_texts(texts(out@), texts(list@).take(0)));
    while k < list.len()
        invariant
            k <= list.len(),
            strictly_increasing(texts(out@)),
            same_texts(texts(out@), texts(list@).take(k as int)),
        decreases list.len() - k,
    {
        let ghost t = texts(out@);
        let ghost x = list@[k as int]@;
        let mut low: usize = 0;
        let mut high: usize = out.len();
        while low < high
            invariant
                low <= high <= out.len(),
                k < list.len(),
                t == texts(out@),
                x == list@[k as int]@,
                strictly_increasing(t),
                forall|j: int| 0 <= j < low ==> less_than(#[trigger] t[j], x),
                forall|j: int| high <= j < t.len() ==> !less_than(#[trigger] t[j], x),
            decreases high - low,
        {
            let mid: usize = low + (high - low) / 2;
            assert(t[mid as int] == out@[mid as int]@);
            if less(out[mid].as_str(), list[k].as_str()) {
                assert forall|j: int| 0 <= j < mid + 1 implies less_than(#[trigger] t[j], x) by {
                    if low <= j < mid {
                        lemma_less_transitive(t[j], t[mid as int], x);
                    }
                }
                low = mid + 1;
            } else {
                assert forall|j: int| mid <= j < t.len() implies !less_than(#[trigger] t[j], x) by {
                    if j > mid && less_than(t[j], x) {
                        lemma_less_transitive(t[mid as int], t[j], x);
                    }
                }
                high = mid;
            }
        }
        proof {
            assert(texts(list@).take(k + 1) =~= texts(list@).take(k as int).push(x));
        }
        if low < out.len() && same(out[low].as_str(), list[k].as_str()) {
            proof {
                assert(t[low as int] == x);
                assert(t.contains(x));
                lemma_push_known(t, texts(list@).take(k as int), x);
            }
        } else {
            proof {
                assert forall|j: int| low <= j < t.len() implies less_than(x, #[trigger] t[j]) by {
                    lemma_less_total(t[j], x);
                    if t[j] == x && j > low {
                        assert(less_than(t[low as int], t[j]));
                    }
                }
                lemma_insert(t, low as int, x);
                lemma_push_both(t, texts(list@).take(k as int), x);
                assert forall|y: Seq<char>|
                    t.insert(low as int, x).contains(y) <==> #[trigger] texts(list@).take(
                        k + 1,
                    ).contains(y) by {
                    assert(t.push(x).contains(y) <==> texts(list@).take(k as int).push(x).contains(
                        y,
                    ));
                }
            }
            let text = list[k].clone();
            out.insert(low, text);
            assert(texts(out@) =~= t.insert(low as int, x));
        }
        k += 1;
    }
    proof {
        assert(texts(list@).take(k as int) =~= texts(list@));
        lemma_sorted_set(texts(list@));
    }
    out
}

} // verus!
