//! Tables by text, in the order of their keys: texts grouped, and occurrences
//! counted.
use vstd::prelude::*;
use crate::text::{
    precedes, same, text_lt, text_lt_irreflexive, text_lt_total, text_lt_transitive, texts,
};

verus! {

// ---------------------------------------------------------------- models

/// The groups with `add` appended to the group of `k`.
pub open spec fn grouped(
    g: Seq<(Seq<char>, Seq<Seq<char>>)>,
    k: Seq<char>,
    add: Seq<Seq<char>>,
) -> Seq<(Seq<char>, Seq<Seq<char>>)>
    decreases g.len(),
{
    if g.len() == 0 {
        seq![(k, add)]
    } else if g[0].0 == k {
        seq![(k, g[0].1 + add)] + g.skip(1)
    } else if text_lt(k, g[0].0) {
        seq![(k, add)] + g
    } else {
        seq![g[0]] + grouped(g.skip(1), k, add)
    }
}

/// The counts with one more of `k`.
pub open spec fn counted(c: Seq<(Seq<char>, nat)>, k: Seq<char>) -> Seq<(Seq<char>, nat)>
    decreases c.len(),
{
    if c.len() == 0 {
        seq![(k, 1nat)]
    } else if c[0].0 == k {
        seq![(k, c[0].1 + 1)] + c.skip(1)
    } else if text_lt(k, c[0].0) {
        seq![(k, 1nat)] + c
    } else {
        seq![c[0]] + counted(c.skip(1), k)
    }
}

/// How often each text occurs, in the order of the texts.
pub open spec fn counts(s: Seq<Seq<char>>) -> Seq<(Seq<char>, nat)>
    decreases s.len(),
{
    if s.len() == 0 {
        seq![]
    } else {
        counted(counts(s.drop_last()), s.last())
    }
}

/// The count of `k` in a table; zero where it does not stand there.
pub open spec fn count_of(c: Seq<(Seq<char>, nat)>, k: Seq<char>) -> nat
    decreases c.len(),
{
    if c.len() == 0 {
        0
    } else if c[0].0 == k {
        c[0].1
    } else {
        count_of(c.skip(1), k)
    }
}

/// The keys stand in their order, each once.
pub open spec fn ascending<V>(t: Seq<(Seq<char>, V)>) -> bool {
    forall|i: int, j: int| 0 <= i < j < t.len() ==> text_lt(#[trigger] t[i].0, #[trigger] t[j].0)
}

// ---------------------------------------------------------------- laws

proof fn smaller_than_all<V>(t: Seq<(Seq<char>, V)>, k: Seq<char>)
    requires
        ascending(t),
        t.len() > 0,
        text_lt(k, t[0].0),
    ensures
        forall|i: int| 0 <= i < t.len() ==> text_lt(k, #[trigger] t[i].0),
{
    assert forall|i: int| 0 <= i < t.len() implies text_lt(k, #[trigger] t[i].0) by {
        if i > 0 {
            text_lt_transitive(k, t[0].0, t[i].0);
        }
    }
}

proof fn counted_steps(c: Seq<(Seq<char>, nat)>, k: Seq<char>, q: Seq<char>)
    requires
        ascending(c),
    ensures
        ascending(counted(c, k)),
        forall|i: int|
            0 <= i < counted(c, k).len() ==> #[trigger] counted(c, k)[i].0 == k || exists|j: int|
                0 <= j < c.len() && #[trigger] c[j].0 == counted(c, k)[i].0,
        count_of(counted(c, k), q) == count_of(c, q) + if q == k {
            1nat
        } else {
            0nat
        },
    decreases c.len(),
{
    let d = counted(c, k);
    if c.len() == 0 {
        assert(d.skip(1) =~= seq![]);
        assert(count_of(d.skip(1), q) == 0);
    } else if c[0].0 == k {
        assert(d.skip(1) =~= c.skip(1));
        assert(forall|i: int| 0 < i < d.len() ==> d[i] == c[i]);
    } else if text_lt(k, c[0].0) {
        assert(d.skip(1) =~= c);
        smaller_than_all(c, k);
        assert(forall|i: int| 0 < i < d.len() ==> d[i] == c[i - 1]);
        if q == k {
            absent_counts_nothing(c, k);
        }
    } else {
        let r = c.skip(1);
        assert(d.skip(1) =~= counted(r, k));
        assert forall|i: int, j: int| 0 <= i < j < r.len() implies text_lt(
            #[trigger] r[i].0,
            #[trigger] r[j].0,
        ) by {
            assert(text_lt(c[i + 1].0, c[j + 1].0));
        }
        counted_steps(r, k, q);
        let e = counted(r, k);
        assert forall|i: int| 0 <= i < d.len() implies #[trigger] d[i].0 == k || exists|j: int|
            0 <= j < c.len() && #[trigger] c[j].0 == d[i].0 by {
            if i > 0 {
                assert(d[i] == e[i - 1]);
                if e[i - 1].0 != k {
                    let j = choose|j: int| 0 <= j < r.len() && #[trigger] r[j].0 == e[i - 1].0;
                    assert(c[j + 1].0 == d[i].0);
                }
            } else {
                assert(c[0].0 == d[0].0);
            }
        }
        text_lt_total(k, c[0].0);
        assert forall|i: int, j: int| 0 <= i < j < d.len() implies text_lt(
            #[trigger] d[i].0,
            #[trigger] d[j].0,
        ) by {
            assert(d[j] == e[j - 1]);
            if i > 0 {
                assert(d[i] == e[i - 1]);
            } else if e[j - 1].0 != k {
                let x = choose|x: int| 0 <= x < r.len() && #[trigger] r[x].0 == e[j - 1].0;
                assert(text_lt(c[0].0, c[x + 1].0));
            }
        }
    }
}

proof fn absent_counts_nothing(c: Seq<(Seq<char>, nat)>, k: Seq<char>)
    requires
        forall|i: int| 0 <= i < c.len() ==> text_lt(k, #[trigger] c[i].0),
    ensures
        count_of(c, k) == 0,
    decreases c.len(),
{
    if c.len() > 0 {
        text_lt_irreflexive(k);
        assert(text_lt(k, c[0].0));
        let r = c.skip(1);
        assert forall|i: int| 0 <= i < r.len() implies text_lt(k, #[trigger] r[i].0) by {
            assert(r[i] == c[i + 1]);
        }
        absent_counts_nothing(r, k);
    }
}

/// The table of counts stands in the order of its keys, and holds under each text
/// how often the text occurs.
pub proof fn counts_occurrences(s: Seq<Seq<char>>, q: Seq<char>)
    ensures
        ascending(counts(s)),
        count_of(counts(s), q) == s.to_multiset().count(q),
    decreases s.len(),
{
    broadcast use vstd::seq_lib::group_to_multiset_ensures;

    if s.len() == 0 {
        assert(s.to_multiset().len() == 0);
    } else {
        counts_occurrences(s.drop_last(), q);
        counted_steps(counts(s.drop_last()), s.last(), q);
        assert(s.drop_last().push(s.last()) =~= s);
    }
}

// ---------------------------------------------------------------- building

/// A group of texts under a key.
pub struct Group {
    pub key: String,
    pub items: Vec<String>,
}

/// The groups by their keys and texts.
pub open spec fn group_views(g: Seq<Group>) -> Seq<(Seq<char>, Seq<Seq<char>>)> {
    g.map_values(|x: Group| (x.key@, texts(x.items@)))
}

/// Appends `add` to the group of `k`.
pub fn group_in(g: &mut Vec<Group>, k: &str, add: Vec<String>)
    ensures
        group_views(final(g)@) == grouped(group_views(old(g)@), k@, texts(add@)),
{
    let ghost w = group_views(g@);
    let ghost a = texts(add@);
    let mut i: usize = 0;
    assert(w.skip(0) =~= w);
    assert(w.take(0) =~= seq![]);
    assert(grouped(w, k@, a) =~= w.take(0) + grouped(w.skip(0), k@, a));
    while i < g.len()
        invariant
            i <= g@.len(),
            g@ == old(g)@,
            w == group_views(g@),
            a == texts(add@),
            grouped(w, k@, a) == w.take(i as int) + grouped(w.skip(i as int), k@, a),
        decreases g@.len() - i,
    {
        let ghost rest = w.skip(i as int);
        assert(rest[0] == w[i as int]);
        assert(rest.skip(1) =~= w.skip(i + 1));
        if same(g[i].key.as_str(), k) {
            let mut x = g.remove(i);
            let mut add = add;
            let ghost items = x.items@;
            let ghost more = add@;
            x.items.append(&mut add);
            g.insert(i, x);
            proof {
                assert(texts(items + more) =~= texts(items) + texts(more));
                assert(group_views(g@) =~= w.take(i as int) + (seq![(k@, w[i as int].1 + a)]
                    + rest.skip(1)));
            }
            return;
        }
        if precedes(k, g[i].key.as_str()) {
            g.insert(i, Group { key: k.to_owned(), items: add });
            assert(group_views(g@) =~= w.take(i as int) + (seq![(k@, a)] + rest));
            return;
        }
        proof {
            assert(w.take(i + 1) =~= w.take(i as int).push(w[i as int]));
            assert(w.take(i as int) + (seq![rest[0]] + grouped(rest.skip(1), k@, a)) =~= w.take(
                i + 1,
            ) + grouped(w.skip(i + 1), k@, a));
        }
        i += 1;
    }
    g.push(Group { key: k.to_owned(), items: add });
    proof {
        assert(w.take(i as int) =~= w);
        assert(w.skip(i as int) =~= seq![]);
        assert(group_views(g@) =~= w + seq![(k@, a)]);
    }
}

/// A key and how often it occurred.
pub struct Count {
    pub key: String,
    pub count: u64,
}

/// The counts by their keys.
pub open spec fn count_views(c: Seq<Count>) -> Seq<(Seq<char>, nat)> {
    c.map_values(|x: Count| (x.key@, x.count as nat))
}

/// Counts the occurrences of each text.
pub fn count_texts(v: &Vec<String>) -> (r: Vec<Count>)
    ensures
        count_views(r@) == counts(texts(v@)),
{
    let mut c: Vec<Count> = Vec::new();
    let ghost t = texts(v@);
    let mut n: usize = 0;
    assert(t.take(0) =~= seq![]);
    assert(count_views(c@) =~= seq![]);
    while n < v.len()
        invariant
            n <= v@.len(),
            t == texts(v@),
            count_views(c@) == counts(t.take(n as int)),
            forall|i: int| 0 <= i < c@.len() ==> (#[trigger] c@[i]).count <= n,
        decreases v@.len() - n,
    {
        proof {
            assert(t.take(n + 1).drop_last() =~= t.take(n as int));
            assert(t.take(n + 1).last() == v@[n as int]@);
        }
        count_one(&mut c, v[n].as_str(), n as u64);
        n += 1;
    }
    assert(t.take(n as int) =~= t);
    c
}

fn count_one(c: &mut Vec<Count>, k: &str, bound: u64)
    requires
        forall|i: int| 0 <= i < old(c)@.len() ==> (#[trigger] old(c)@[i]).count <= bound,
        bound < u64::MAX,
    ensures
        count_views(final(c)@) == counted(count_views(old(c)@), k@),
        forall|i: int| 0 <= i < final(c)@.len() ==> (#[trigger] final(c)@[i]).count <= bound + 1,
{
    let ghost w = count_views(c@);
    let mut i: usize = 0;
    assert(w.skip(0) =~= w);
    assert(w.take(0) =~= seq![]);
    assert(counted(w, k@) =~= w.take(0) + counted(w.skip(0), k@));
    while i < c.len()
        invariant
            i <= c@.len(),
            c@ == old(c)@,
            w == count_views(c@),
            bound < u64::MAX,
            forall|i: int| 0 <= i < c@.len() ==> (#[trigger] c@[i]).count <= bound,
            counted(w, k@) == w.take(i as int) + counted(w.skip(i as int), k@),
        decreases c@.len() - i,
    {
        let ghost rest = w.skip(i as int);
        assert(rest[0] == w[i as int]);
        assert(rest.skip(1) =~= w.skip(i + 1));
        if same(c[i].key.as_str(), k) {
            let x = c.remove(i);
            c.insert(i, Count { key: x.key, count: x.count + 1 });
            proof {
                assert(count_views(c@) =~= w.take(i as int) + (seq![(k@, w[i as int].1 + 1)]
                    + rest.skip(1)));
                assert forall|j: int| 0 <= j < c@.len() implies (#[trigger] c@[j]).count <= bound
                    + 1 by {
                    assert(j != i ==> c@[j] == old(c)@[j]);
                }
            }
            return;
        }
        if precedes(k, c[i].key.as_str()) {
            c.insert(i, Count { key: k.to_owned(), count: 1 });
            proof {
                assert(count_views(c@) =~= w.take(i as int) + (seq![(k@, 1nat)] + rest));
                assert forall|j: int| 0 <= j < c@.len() implies (#[trigger] c@[j]).count <= bound
                    + 1 by {
                    assert(j < i ==> c@[j] == old(c)@[j]);
                    assert(j > i ==> c@[j] == old(c)@[j - 1]);
                }
            }
            return;
        }
        proof {
            assert(w.take(i + 1) =~= w.take(i as int).push(w[i as int]));
            assert(w.take(i as int) + (seq![rest[0]] + counted(rest.skip(1), k@)) =~= w.take(i + 1)
                + counted(w.skip(i + 1), k@));
        }
        i += 1;
    }
    c.push(Count { key: k.to_owned(), count: 1 });
    proof {
        assert(w.take(i as int) =~= w);
        assert(w.skip(i as int) =~= seq![]);
        assert(count_views(c@) =~= w + seq![(k@, 1nat)]);
    }
}

/// An entry of a table of counts is what the table gives for its key.
pub proof fn own_count(c: Seq<(Seq<char>, nat)>, i: int)
    requires
        ascending(c),
        0 <= i < c.len(),
    ensures
        count_of(c, c[i].0) == c[i].1,
    decreases c.len(),
{
    if i > 0 {
        text_lt_irreflexive(c[0].0);
        assert(text_lt(c[0].0, c[i].0));
        let r = c.skip(1);
        assert forall|a: int, b: int| 0 <= a < b < r.len() implies text_lt(
            #[trigger] r[a].0,
            #[trigger] r[b].0,
        ) by {
            assert(text_lt(c[a + 1].0, c[b + 1].0));
        }
        own_count(r, i - 1);
    }
}

/// A text stands in a table.
pub open spec fn stands(c: Seq<(Seq<char>, nat)>, q: Seq<char>) -> bool {
    exists|i: int| 0 <= i < c.len() && (#[trigger] c[i]).0 == q
}

/// A text that is counted stands in the table, and one that stands there was counted.
pub proof fn counted_texts_stand(s: Seq<Seq<char>>, q: Seq<char>)
    ensures
        s.contains(q) <==> stands(counts(s), q),
    decreases s.len(),
{
    if s.len() > 0 {
        let d = s.drop_last();
        counted_texts_stand(d, q);
        counted_stands(counts(d), s.last(), q);
        if d.contains(q) {
            let k = choose|k: int| 0 <= k < d.len() && d[k] == q;
            assert(s[k] == q);
        }
        if s.contains(q) && !d.contains(q) {
            let k = choose|k: int| 0 <= k < s.len() && s[k] == q;
            if k < d.len() {
                assert(d[k] == q);
            }
        }
        if s.last() == q {
            assert(s[s.len() - 1] == q);
        }
    }
}

proof fn counted_stands(c: Seq<(Seq<char>, nat)>, k: Seq<char>, q: Seq<char>)
    ensures
        stands(counted(c, k), q) <==> q == k || stands(c, q),
    decreases c.len(),
{
    let r = counted(c, k);
    let old = stands(c, q);
    let new = stands(r, q);
    if c.len() == 0 {
        assert(r[0].0 == k);
    } else if c[0].0 == k {
        assert(r[0].0 == k);
        assert(r.len() == c.len());
        assert(forall|i: int| 0 < i < c.len() ==> r[i] == c[i]);
        if old {
            let i = choose|i: int| 0 <= i < c.len() && (#[trigger] c[i]).0 == q;
            assert(r[i].0 == q);
        }
        if new {
            let i = choose|i: int| 0 <= i < r.len() && (#[trigger] r[i]).0 == q;
            assert(c[i].0 == q);
        }
    } else if text_lt(k, c[0].0) {
        assert(r[0].0 == k);
        assert(forall|i: int| 0 <= i < c.len() ==> r[i + 1] == c[i]);
        if old {
            let i = choose|i: int| 0 <= i < c.len() && (#[trigger] c[i]).0 == q;
            assert(r[i + 1].0 == q);
        }
        if new && q != k {
            let i = choose|i: int| 0 <= i < r.len() && (#[trigger] r[i]).0 == q;
            assert(c[i - 1].0 == q);
        }
    } else {
        let t = c.skip(1);
        let w = counted(t, k);
        counted_stands(t, k, q);
        assert(r[0] == c[0]);
        assert(forall|i: int| 0 <= i < w.len() ==> r[i + 1] == w[i]);
        let sub = stands(w, q);
        if old {
            let i = choose|i: int| 0 <= i < c.len() && (#[trigger] c[i]).0 == q;
            if i == 0 {
                assert(r[0].0 == q);
            } else {
                assert(t[i - 1].0 == q);
                assert(sub);
            }
        }
        if sub {
            let i = choose|i: int| 0 <= i < w.len() && (#[trigger] w[i]).0 == q;
            assert(r[i + 1].0 == q);
        }
        if new {
            let i = choose|i: int| 0 <= i < r.len() && (#[trigger] r[i]).0 == q;
            if i == 0 {
                assert(c[0].0 == q);
            } else {
                assert(w[i - 1].0 == q);
                if q != k {
                    let j = choose|j: int| 0 <= j < t.len() && (#[trigger] t[j]).0 == q;
                    assert(c[j + 1].0 == q);
                }
            }
        }
    }
}

} // verus!
