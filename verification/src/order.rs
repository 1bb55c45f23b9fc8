//! Stable sorting by a key, as a row of positions.
use vstd::prelude::*;
use crate::text::{precedes, text_lt, text_lt_irreflexive, text_lt_total, text_lt_transitive, texts};

verus! {

// ---------------------------------------------------------------- models

/// The sorted row `o` with the position `x` put in: as far to the right as it may
/// stand, where `p(a, b)` says that `a` has to stand before `b`.
pub open spec fn slot(o: Seq<int>, p: spec_fn(int, int) -> bool, x: int) -> Seq<int>
    decreases o.len(),
{
    if o.len() > 0 && p(x, o.last()) {
        slot(o.drop_last(), p, x).push(o.last())
    } else {
        o.push(x)
    }
}

/// The positions below `n` in the order of `p`; positions of one rank stay as they
/// were.
pub open spec fn order(n: nat, p: spec_fn(int, int) -> bool) -> Seq<int>
    decreases n,
{
    if n == 0 {
        seq![]
    } else {
        slot(order((n - 1) as nat, p), p, n - 1)
    }
}

/// Greater numbers first.
pub open spec fn falling(keys: Seq<int>) -> spec_fn(int, int) -> bool {
    |a: int, b: int| keys[a] > keys[b]
}

/// Texts in order, or in the opposite order.
pub open spec fn by_text(keys: Seq<Seq<char>>, descending: bool) -> spec_fn(int, int) -> bool {
    |a: int, b: int|
        if descending {
            text_lt(keys[b], keys[a])
        } else {
            text_lt(keys[a], keys[b])
        }
}

/// The elements of `s` at the positions of `o`.
pub open spec fn arranged<A>(s: Seq<A>, o: Seq<int>) -> Seq<A> {
    o.map_values(|i: int| s[i])
}

/// `p` ranks the positions: it never puts each of two before the other, and what
/// stands before a third stands before, or is stood before by, every second.
pub open spec fn ranks(p: spec_fn(int, int) -> bool) -> bool {
    &&& forall|a: int, b: int| #[trigger] p(a, b) ==> !p(b, a)
    &&& forall|a: int, b: int, c: int| #[trigger] p(a, c) ==> #[trigger] p(a, b) || p(b, c)
}

/// The first of a sequence, at most `n`.
pub open spec fn at_most<A>(s: Seq<A>, n: nat) -> Seq<A> {
    if n < s.len() {
        s.take(n as int)
    } else {
        s
    }
}

/// Some groups in a row.
pub open spec fn flat(groups: Seq<Seq<int>>) -> Seq<int>
    decreases groups.len(),
{
    if groups.len() == 0 {
        seq![]
    } else {
        groups[0] + flat(groups.skip(1))
    }
}

// ---------------------------------------------------------------- laws

/// Sorting keeps every position exactly once.
pub proof fn order_keeps_positions(n: nat, p: spec_fn(int, int) -> bool)
    ensures
        order(n, p).len() == n,
        order(n, p).no_duplicates(),
        forall|x: int| #[trigger] order(n, p).contains(x) <==> 0 <= x < n,
    decreases n,
{
    if n > 0 {
        order_keeps_positions((n - 1) as nat, p);
        slot_keeps(order((n - 1) as nat, p), p, n - 1);
    }
}

proof fn slot_keeps(o: Seq<int>, p: spec_fn(int, int) -> bool, x: int)
    requires
        o.no_duplicates(),
        !o.contains(x),
    ensures
        slot(o, p, x).len() == o.len() + 1,
        slot(o, p, x).no_duplicates(),
        forall|y: int| #[trigger] slot(o, p, x).contains(y) <==> y == x || o.contains(y),
    decreases o.len(),
{
    let r = slot(o, p, x);
    if o.len() > 0 && p(x, o.last()) {
        let d = o.drop_last();
        assert(forall|y: int| d.contains(y) ==> o.contains(y));
        slot_keeps(d, p, x);
        let s = slot(d, p, x);
        assert(!d.contains(o.last()));
        assert(!s.contains(o.last()));
        assert forall|y: int| #[trigger] r.contains(y) <==> y == x || o.contains(y) by {
            if r.contains(y) {
                let i = choose|i: int| 0 <= i < r.len() && r[i] == y;
                if i < s.len() {
                    assert(s.contains(s[i]));
                } else {
                    assert(o.contains(o.last()));
                }
            }
            if y == x {
                assert(s.contains(x));
                let i = choose|i: int| 0 <= i < s.len() && s[i] == x;
                assert(r[i] == x);
            }
            if o.contains(y) {
                let i = choose|i: int| 0 <= i < o.len() && o[i] == y;
                if i < d.len() {
                    assert(d[i] == y);
                    assert(s.contains(y));
                    let j = choose|j: int| 0 <= j < s.len() && s[j] == y;
                    assert(r[j] == y);
                } else {
                    assert(r.last() == y);
                    assert(r[r.len() - 1] == y);
                }
            }
        }
        assert forall|i: int, j: int| 0 <= i < r.len() && 0 <= j < r.len() && i != j implies r[i]
            != r[j] by {
            if i == r.len() - 1 {
                assert(s.contains(s[j]));
            }
            if j == r.len() - 1 {
                assert(s.contains(s[i]));
            }
        }
    } else {
        assert forall|y: int| #[trigger] r.contains(y) <==> y == x || o.contains(y) by {
            if o.contains(y) {
                let i = choose|i: int| 0 <= i < o.len() && o[i] == y;
                assert(r[i] == y);
            }
            if y == x {
                assert(r[o.len() as int] == x);
            }
        }
        assert forall|i: int, j: int| 0 <= i < r.len() && 0 <= j < r.len() && i != j implies r[i]
            != r[j] by {
            if i < o.len() {
                assert(o.contains(o[i]));
            }
            if j < o.len() {
                assert(o.contains(o[j]));
            }
        }
    }
}

/// In a sorted row nothing stands behind what it has to stand before.
pub proof fn order_is_sorted(n: nat, p: spec_fn(int, int) -> bool)
    requires
        ranks(p),
    ensures
        forall|i: int, j: int|
            0 <= i < j < n ==> !p(#[trigger] order(n, p)[j], #[trigger] order(n, p)[i]),
    decreases n,
{
    order_keeps_positions(n, p);
    if n > 0 {
        order_keeps_positions((n - 1) as nat, p);
        order_is_sorted((n - 1) as nat, p);
        slot_sorts(order((n - 1) as nat, p), p, n - 1);
    }
}

proof fn slot_sorts(o: Seq<int>, p: spec_fn(int, int) -> bool, x: int)
    requires
        ranks(p),
        forall|i: int, j: int| 0 <= i < j < o.len() ==> !p(#[trigger] o[j], #[trigger] o[i]),
    ensures
        slot(o, p, x).len() == o.len() + 1,
        forall|i: int, j: int|
            0 <= i < j < o.len() + 1 ==> !p(
                #[trigger] slot(o, p, x)[j],
                #[trigger] slot(o, p, x)[i],
            ),
        forall|i: int|
            0 <= i <= o.len() ==> #[trigger] slot(o, p, x)[i] == x || o.contains(
                slot(o, p, x)[i],
            ),
    decreases o.len(),
{
    let r = slot(o, p, x);
    if o.len() > 0 && p(x, o.last()) {
        let d = o.drop_last();
        slot_sorts(d, p, x);
        let s = slot(d, p, x);
        assert forall|i: int, j: int| 0 <= i < j < r.len() implies !p(
            #[trigger] r[j],
            #[trigger] r[i],
        ) by {
            if j == r.len() - 1 {
                assert(s[i] == x || d.contains(s[i]));
                if s[i] != x {
                    let k = choose|k: int| 0 <= k < d.len() && d[k] == s[i];
                    assert(!p(o[o.len() - 1], o[k]));
                }
            } else {
                assert(r[j] == s[j] && r[i] == s[i]);
            }
        }
        assert forall|i: int| 0 <= i <= o.len() implies #[trigger] r[i] == x || o.contains(
            r[i],
        ) by {
            if i < s.len() {
                assert(r[i] == s[i]);
                if s[i] != x {
                    let k = choose|k: int| 0 <= k < d.len() && d[k] == s[i];
                    assert(o[k] == s[i]);
                }
            } else {
                assert(r[i] == o[o.len() - 1]);
            }
        }
    } else {
        assert forall|i: int, j: int| 0 <= i < j < r.len() implies !p(
            #[trigger] r[j],
            #[trigger] r[i],
        ) by {
            if j == o.len() {
                if i < o.len() - 1 {
                    assert(!p(o[o.len() - 1], o[i]));
                    if p(x, o[i]) {
                        assert(p(x, o[o.len() - 1]) || p(o[o.len() - 1], o[i]));
                    }
                }
            } else {
                assert(r[j] == o[j] && r[i] == o[i]);
            }
        }
    }
}

/// Numbers, the greater first, are a ranking.
pub proof fn falling_ranks(keys: Seq<int>)
    ensures
        ranks(falling(keys)),
{
}

/// The order of texts, either way, is a ranking.
pub proof fn by_text_ranks(keys: Seq<Seq<char>>, descending: bool)
    ensures
        ranks(by_text(keys, descending)),
{
    let p = by_text(keys, descending);
    assert forall|a: int, b: int| #[trigger] p(a, b) implies !p(b, a) by {
        if p(b, a) {
            if descending {
                text_lt_transitive(keys[b], keys[a], keys[b]);
                text_lt_irreflexive(keys[b]);
            } else {
                text_lt_transitive(keys[a], keys[b], keys[a]);
                text_lt_irreflexive(keys[a]);
            }
        }
    }
    assert forall|a: int, b: int, c: int| #[trigger] p(a, c) implies #[trigger] p(a, b) || p(
        b,
        c,
    ) by {
        text_lt_total(keys[a], keys[b]);
        text_lt_total(keys[b], keys[c]);
        if descending {
            if text_lt(keys[a], keys[b]) {
                text_lt_transitive(keys[c], keys[a], keys[b]);
            }
        } else {
            if text_lt(keys[b], keys[a]) {
                text_lt_transitive(keys[b], keys[a], keys[c]);
            }
        }
    }
}

// ---------------------------------------------------------------- sorting

/// The positions of a row.
pub open spec fn positions(v: Seq<usize>) -> Seq<int> {
    v.map_values(|i: usize| i as int)
}

/// The positions of the numbers, the greater first.
pub fn order_falling(keys: &Vec<u64>) -> (r: Vec<usize>)
    ensures
        positions(r@) == order(keys@.len(), falling(keys@.map_values(|k: u64| k as int))),
        forall|i: int| 0 <= i < r@.len() ==> (#[trigger] r@[i]) < keys@.len(),
        r@.len() == keys@.len(),
{
    let ghost ks = keys@.map_values(|k: u64| k as int);
    let ghost p = falling(ks);
    let mut r: Vec<usize> = Vec::new();
    let mut n: usize = 0;
    assert(positions(r@) =~= seq![]);
    while n < keys.len()
        invariant
            n <= keys@.len(),
            ks == keys@.map_values(|k: u64| k as int),
            p == falling(ks),
            positions(r@) == order(n as nat, p),
            r@.len() == n,
            forall|i: int| 0 <= i < r@.len() ==> (#[trigger] r@[i]) < n,
        decreases keys@.len() - n,
    {
        let ghost o = positions(r@);
        let mut k: usize = r.len();
        assert(o.take(k as int) =~= o);
        assert(o.skip(k as int) =~= seq![]);
        assert(slot(o, p, n as int) =~= slot(o.take(k as int), p, n as int) + o.skip(k as int));
        while k > 0 && keys[n] > keys[r[k - 1]]
            invariant
                k <= r@.len() == n < keys@.len(),
                ks == keys@.map_values(|k: u64| k as int),
                p == falling(ks),
                o == positions(r@),
                forall|i: int| 0 <= i < r@.len() ==> (#[trigger] r@[i]) < n,
                slot(o, p, n as int) == slot(o.take(k as int), p, n as int) + o.skip(k as int),
            decreases k,
        {
            proof {
                let t = o.take(k as int);
                assert(t.last() == r@[k - 1] as int);
                assert(t.drop_last() =~= o.take(k - 1));
                assert(slot(t, p, n as int) == slot(o.take(k - 1), p, n as int).push(t.last()));
                assert(slot(o.take(k - 1), p, n as int).push(t.last()) + o.skip(k as int) =~= slot(
                    o.take(k - 1),
                    p,
                    n as int,
                ) + o.skip(k - 1));
            }
            k -= 1;
        }
        let ghost before = r@;
        r.insert(k, n);
        proof {
            let t = o.take(k as int);
            if k > 0 {
                assert(t.last() == before[k - 1] as int);
            }
            assert(slot(t, p, n as int) == t.push(n as int));
            assert(positions(r@) =~= t.push(n as int) + o.skip(k as int));
        }
        n += 1;
    }
    r
}

/// The positions of the texts in their order, or in the opposite order.
pub fn order_by_text(keys: &Vec<String>, descending: bool) -> (r: Vec<usize>)
    ensures
        positions(r@) == order(keys@.len(), by_text(texts(keys@), descending)),
        forall|i: int| 0 <= i < r@.len() ==> (#[trigger] r@[i]) < keys@.len(),
        r@.len() == keys@.len(),
{
    let ghost ks = texts(keys@);
    let ghost p = by_text(ks, descending);
    let mut r: Vec<usize> = Vec::new();
    let mut n: usize = 0;
    assert(positions(r@) =~= seq![]);
    while n < keys.len()
        invariant
            n <= keys@.len(),
            ks == texts(keys@),
            p == by_text(ks, descending),
            positions(r@) == order(n as nat, p),
            r@.len() == n,
            forall|i: int| 0 <= i < r@.len() ==> (#[trigger] r@[i]) < n,
        decreases keys@.len() - n,
    {
        let ghost o = positions(r@);
        let mut k: usize = r.len();
        assert(o.take(k as int) =~= o);
        assert(o.skip(k as int) =~= seq![]);
        assert(slot(o, p, n as int) =~= slot(o.take(k as int), p, n as int) + o.skip(k as int));
        while k > 0 && goes_before(keys, n, r[k - 1], descending)
            invariant
                k <= r@.len() == n < keys@.len(),
                ks == texts(keys@),
                p == by_text(ks, descending),
                o == positions(r@),
                forall|i: int| 0 <= i < r@.len() ==> (#[trigger] r@[i]) < n,
                slot(o, p, n as int) == slot(o.take(k as int), p, n as int) + o.skip(k as int),
            decreases k,
        {
            proof {
                let t = o.take(k as int);
                assert(t.last() == r@[k - 1] as int);
                assert(t.drop_last() =~= o.take(k - 1));
                assert(slot(t, p, n as int) == slot(o.take(k - 1), p, n as int).push(t.last()));
                assert(slot(o.take(k - 1), p, n as int).push(t.last()) + o.skip(k as int) =~= slot(
                    o.take(k - 1),
                    p,
                    n as int,
                ) + o.skip(k - 1));
            }
            k -= 1;
        }
        let ghost before = r@;
        r.insert(k, n);
        proof {
            let t = o.take(k as int);
            if k > 0 {
                assert(t.last() == before[k - 1] as int);
            }
            assert(slot(t, p, n as int) == t.push(n as int));
            assert(positions(r@) =~= t.push(n as int) + o.skip(k as int));
        }
        n += 1;
    }
    r
}

fn goes_before(keys: &Vec<String>, a: usize, b: usize, descending: bool) -> (r: bool)
    requires
        a < keys@.len(),
        b < keys@.len(),
    ensures
        r == by_text(texts(keys@), descending)(a as int, b as int),
{
    if descending {
        precedes(keys[b].as_str(), keys[a].as_str())
    } else {
        precedes(keys[a].as_str(), keys[b].as_str())
    }
}

// ---------------------------------------------------------------- stability

proof fn slot_goes_between(o: Seq<int>, p: spec_fn(int, int) -> bool, x: int) -> (k: int)
    ensures
        0 <= k <= o.len(),
        slot(o, p, x) == o.take(k) + seq![x] + o.skip(k),
        forall|m: int| k <= m < o.len() ==> p(x, #[trigger] o[m]),
    decreases o.len(),
{
    if o.len() > 0 && p(x, o.last()) {
        let d = o.drop_last();
        let k = slot_goes_between(d, p, x);
        assert(d.take(k) =~= o.take(k));
        assert(slot(o, p, x) =~= o.take(k) + seq![x] + o.skip(k));
        assert forall|m: int| k <= m < o.len() implies p(x, #[trigger] o[m]) by {
            if m < d.len() {
                assert(d[m] == o[m]);
            }
        }
        k
    } else {
        let k = o.len() as int;
        assert(o.take(k) =~= o);
        assert(slot(o, p, x) =~= o.take(k) + seq![x] + o.skip(k));
        k
    }
}

/// Sorting is stable: of two positions that neither has to stand before the other the
/// earlier one comes first.
pub proof fn order_is_stable(n: nat, p: spec_fn(int, int) -> bool, i: int, j: int)
    requires
        0 <= i < j < n,
    ensures
        p(order(n, p)[i], order(n, p)[j]) || order(n, p)[i] < order(n, p)[j],
    decreases n,
{
    let m = (n - 1) as nat;
    let x = n - 1;
    let o = order(m, p);
    order_keeps_positions(m, p);
    let k = slot_goes_between(o, p, x);
    let r = order(n, p);
    assert(r == o.take(k) + seq![x] + o.skip(k));
    let a: int = if i < k {
        i
    } else {
        i - 1
    };
    let b: int = if j < k {
        j
    } else {
        j - 1
    };
    if i == k {
        assert(r[i] == x);
        assert(r[j] == o[j - 1]);
    } else if j == k {
        assert(r[j] == x);
        assert(r[i] == o[i]);
        assert(o.contains(o[i]));
    } else {
        assert(r[i] == o[a] && r[j] == o[b]);
        order_is_stable(m, p, a, b);
    }
}

} // verus!
