//! Condensing the pile of messages: repeats are dropped, like messages put together,
//! and each group summed up.
use vstd::prelude::*;
use crate::args::{last_value, last_word, names, options, plain_words, read_args};
use crate::drain::{all_messages, bus_messages, in_state, messages_in_state, threads_of};
use crate::json::{quote, quoted, read_of_put, views, Json, JsonView};
use crate::num::{dec, decimal};
use crate::order::{
    arranged, at_most, falling, falling_ranks, flat, order, order_falling, order_is_sorted,
    order_is_stable, order_keeps_positions, positions,
};
use crate::report::say;
use crate::text::{
    cat, cat3, cat4, cat5, cat7, contains, first, first_chars, join, join_from_front, joined,
    maybe, occurs_at, same, texts, trim, trimmed,
};

verus! {

// ---------------------------------------------------------------- messages

/// A queued message.
pub struct Queued {
    pub from: String,
    pub to: String,
    pub text: String,
}

/// The messages as texts.
pub open spec fn queued_views(v: Seq<Queued>) -> Seq<(Seq<char>, Seq<char>, Seq<char>)> {
    v.map_values(|q: Queued| (q.from@, q.to@, q.text@))
}

/// The sender, the receiver and the text of a message.
pub open spec fn queued_of(m: JsonView) -> (Seq<char>, Seq<char>, Seq<char>) {
    (m.text_or("from"@, "?"@), m.text_or("to"@, "?"@), m.text_or("text"@, seq![]))
}

/// The queued messages of the bus.
pub open spec fn queued_in(data: JsonView) -> Seq<(Seq<char>, Seq<char>, Seq<char>)> {
    in_state(all_messages(threads_of(data)), "queued"@).map_values(|m: JsonView| queued_of(m))
}

/// The queued messages of the bus.
pub fn load_queued(data: &Json) -> (r: Vec<Queued>)
    ensures
        queued_views(r@) == queued_in(data@),
{
    proof {
        reveal_strlit("");
        assert(""@ =~= seq![]);
    }
    let ms = messages_in_state(&bus_messages(data), "queued");
    let ghost t = views(ms@);
    let mut out: Vec<Queued> = Vec::new();
    let mut i: usize = 0;
    while i < ms.len()
        invariant
            i <= ms@.len(),
            t == views(ms@),
            ""@ == Seq::<char>::empty(),
            out@.len() == i,
            forall|j: int|
                0 <= j < i ==> ((#[trigger] out@[j]).from@, out@[j].to@, out@[j].text@)
                    == queued_of(t[j]),
        decreases ms@.len() - i,
    {
        out.push(
            Queued {
                from: ms[i].text_or("from", "?"),
                to: ms[i].text_or("to", "?"),
                text: ms[i].text_or("text", ""),
            },
        );
        i += 1;
    }
    assert(queued_views(out@) =~= t.map_values(|m: JsonView| queued_of(m)));
    out
}

// ---------------------------------------------------------------- repeats

/// A text, taken without the whitespace around it, stands in some messages.
pub open spec fn stands_in(t: Seq<char>, ms: Seq<(Seq<char>, Seq<char>, Seq<char>)>) -> bool {
    exists|i: int| 0 <= i < ms.len() && trim((#[trigger] ms[i]).2) == t
}

/// A message is new among those before it: it has a text, and none of them has the
/// same.
pub open spec fn is_new(
    m: (Seq<char>, Seq<char>, Seq<char>),
    before: Seq<(Seq<char>, Seq<char>, Seq<char>)>,
) -> bool {
    trim(m.2).len() > 0 && !stands_in(trim(m.2), before)
}

/// The positions of the messages that are new.
pub open spec fn fresh(ms: Seq<(Seq<char>, Seq<char>, Seq<char>)>) -> Seq<int>
    decreases ms.len(),
{
    if ms.len() == 0 {
        seq![]
    } else if is_new(ms.last(), ms.drop_last()) {
        fresh(ms.drop_last()).push(ms.len() - 1)
    } else {
        fresh(ms.drop_last())
    }
}

/// How many messages repeat the text of one before them.
pub open spec fn repeats(ms: Seq<(Seq<char>, Seq<char>, Seq<char>)>) -> nat
    decreases ms.len(),
{
    if ms.len() == 0 {
        0
    } else {
        repeats(ms.drop_last()) + if trim(ms.last().2).len() > 0 && stands_in(
            trim(ms.last().2),
            ms.drop_last(),
        ) {
            1nat
        } else {
            0nat
        }
    }
}

fn seen_before(ms: &Vec<Queued>, n: usize, t: &str) -> (r: bool)
    requires
        n <= ms@.len(),
    ensures
        r == stands_in(t@, queued_views(ms@).take(n as int)),
{
    let ghost w = queued_views(ms@).take(n as int);
    let mut i: usize = 0;
    while i < n
        invariant
            i <= n <= ms@.len(),
            w == queued_views(ms@).take(n as int),
            forall|j: int| 0 <= j < i ==> trim((#[trigger] w[j]).2) != t@,
        decreases n - i,
    {
        assert(w[i as int].2 == ms@[i as int].text@);
        if same(trimmed(ms[i].text.as_str()).as_str(), t) {
            assert(trim(w[i as int].2) == t@);
            return true;
        }
        i += 1;
    }
    false
}

/// The positions of the messages that are new, and how many repeat one before them.
pub fn dedupe(ms: &Vec<Queued>) -> (r: (Vec<usize>, usize))
    ensures
        positions(r.0@) == fresh(queued_views(ms@)),
        r.1 == repeats(queued_views(ms@)),
        forall|i: int| 0 <= i < r.0@.len() ==> (#[trigger] r.0@[i]) < ms@.len(),
{
    let ghost w = queued_views(ms@);
    let mut out: Vec<usize> = Vec::new();
    let mut dup: usize = 0;
    let mut i: usize = 0;
    assert(w.take(0) =~= seq![]);
    assert(positions(out@) =~= seq![]);
    while i < ms.len()
        invariant
            i <= ms@.len(),
            w == queued_views(ms@),
            dup <= i,
            positions(out@) == fresh(w.take(i as int)),
            dup == repeats(w.take(i as int)),
            forall|j: int| 0 <= j < out@.len() ==> (#[trigger] out@[j]) < ms@.len(),
        decreases ms@.len() - i,
    {
        proof {
            assert(w.take(i + 1).drop_last() =~= w.take(i as int));
            assert(w.take(i + 1).last() == w[i as int]);
        }
        let t = trimmed(ms[i].text.as_str());
        if !t.as_str().is_empty() {
            if seen_before(ms, i, t.as_str()) {
                dup += 1;
            } else {
                let ghost prev = positions(out@);
                out.push(i);
                assert(positions(out@) =~= prev.push(i as int));
            }
        }
        i += 1;
    }
    assert(w.take(i as int) =~= w);
    (out, dup)
}

/// Two messages that stay have different texts, and neither text is empty.
pub proof fn fresh_texts_differ(ms: Seq<(Seq<char>, Seq<char>, Seq<char>)>, i: int, j: int)
    ensures
        forall|k: int| 0 <= k < fresh(ms).len() ==> 0 <= #[trigger] fresh(ms)[k] < ms.len(),
        0 <= i < fresh(ms).len() ==> trim(ms[fresh(ms)[i]].2).len() > 0,
        0 <= i < j < fresh(ms).len() ==> trim(ms[fresh(ms)[i]].2) != trim(ms[fresh(ms)[j]].2),
    decreases ms.len(),
{
    if ms.len() > 0 {
        let d = ms.drop_last();
        fresh_texts_differ(d, i, j);
        let f = fresh(ms);
        let fd = fresh(d);
        assert forall|k: int| 0 <= k < f.len() implies 0 <= #[trigger] f[k] < ms.len() by {
            if k < fd.len() {
                assert(f[k] == fd[k]);
            }
        }
        if 0 <= i < fd.len() {
            assert(f[i] == fd[i]);
            assert(d[fd[i]] == ms[fd[i]]);
            if 0 <= i < j < fd.len() {
                assert(f[j] == fd[j]);
                assert(d[fd[j]] == ms[fd[j]]);
            } else if i < j < f.len() {
                assert(f[j] == ms.len() - 1);
                assert(trim(d[fd[i]].2) == trim(ms[f[i]].2));
            }
        }
    }
}

/// No text is lost: every message with a text has the text of one that stays.
pub proof fn fresh_texts_cover(ms: Seq<(Seq<char>, Seq<char>, Seq<char>)>, k: int)
    requires
        0 <= k < ms.len(),
        trim(ms[k].2).len() > 0,
    ensures
        exists|i: int|
            0 <= i < fresh(ms).len() && trim(ms[#[trigger] fresh(ms)[i]].2) == trim(ms[k].2),
    decreases ms.len(),
{
    let d = ms.drop_last();
    let f = fresh(ms);
    let fd = fresh(d);
    fresh_texts_differ(d, 0, 0);
    if k < ms.len() - 1 {
        fresh_texts_cover(d, k);
        let i = choose|i: int| 0 <= i < fd.len() && trim(d[#[trigger] fd[i]].2) == trim(d[k].2);
        assert(f[i] == fd[i]);
        assert(ms[fd[i]] == d[fd[i]]);
    } else if is_new(ms.last(), d) {
        assert(f[f.len() - 1] == ms.len() - 1);
    } else {
        let p = choose|p: int| 0 <= p < d.len() && trim((#[trigger] d[p]).2) == trim(ms[k].2);
        fresh_texts_cover(d, p);
        let i = choose|i: int| 0 <= i < fd.len() && trim(d[#[trigger] fd[i]].2) == trim(d[p].2);
        assert(f[i] == fd[i]);
        assert(ms[fd[i]] == d[fd[i]]);
    }
}

// ---------------------------------------------------------------- groups

/// The first group that a message is like.
pub open spec fn first_like(like: Seq<bool>) -> Option<int>
    decreases like.len(),
{
    if like.len() == 0 {
        None
    } else {
        match first_like(like.drop_last()) {
            Some(i) => Some(i),
            None => if like.last() {
                Some(like.len() - 1)
            } else {
                None
            },
        }
    }
}

/// The groups with one more message: in the first one that it is like, else in a
/// group of its own.
pub open spec fn placed(groups: Seq<Seq<int>>, like: Seq<bool>, m: int) -> Seq<Seq<int>> {
    match first_like(like) {
        Some(i) => groups.update(i, groups[i].push(m)),
        None => groups.push(seq![m]),
    }
}

/// The groups as integers.
pub open spec fn group_places(v: Seq<Vec<usize>>) -> Seq<Seq<int>> {
    v.map_values(|g: Vec<usize>| positions(g@))
}

proof fn first_like_first(like: Seq<bool>, k: int)
    requires
        0 <= k < like.len(),
        like[k],
        forall|j: int| 0 <= j < k ==> !like[j],
    ensures
        first_like(like) == Some(k),
    decreases like.len(),
{
    if k < like.len() - 1 {
        first_like_first(like.drop_last(), k);
    } else {
        first_like_none(like.drop_last());
    }
}

proof fn first_like_none(like: Seq<bool>)
    requires
        forall|j: int| 0 <= j < like.len() ==> !like[j],
    ensures
        first_like(like) is None,
    decreases like.len(),
{
    if like.len() > 0 {
        first_like_none(like.drop_last());
    }
}

/// Puts a message into the first group that it is like, else into a group of its own.
pub fn place(groups: &mut Vec<Vec<usize>>, like: &Vec<bool>, m: usize)
    requires
        like@.len() == old(groups)@.len(),
    ensures
        group_places(final(groups)@) == placed(group_places(old(groups)@), like@, m as int),
{
    let ghost w = group_places(groups@);
    let mut i: usize = 0;
    while i < like.len()
        invariant
            i <= like@.len() == groups@.len(),
            groups@ == old(groups)@,
            w == group_places(groups@),
            forall|j: int| 0 <= j < i ==> !like@[j],
        decreases like@.len() - i,
    {
        if like[i] {
            proof {
                first_like_first(like@, i as int);
            }
            let mut g = groups.remove(i);
            let ghost gv = positions(g@);
            g.push(m);
            assert(positions(g@) =~= gv.push(m as int));
            groups.insert(i, g);
            assert(group_places(groups@) =~= w.update(i as int, gv.push(m as int)));
            return;
        }
        i += 1;
    }
    proof {
        first_like_none(like@);
    }
    let mut g: Vec<usize> = Vec::new();
    g.push(m);
    assert(positions(g@) =~= seq![m as int]);
    groups.push(g);
    assert(group_places(groups@) =~= w.push(seq![m as int]));
}

/// The groups, the largest first; of groups of one size the earlier comes first.
pub open spec fn by_size(groups: Seq<Seq<int>>) -> Seq<Seq<int>> {
    arranged(
        groups,
        order(groups.len(), falling(groups.map_values(|g: Seq<int>| g.len() as int))),
    )
}

/// The positions of the groups, the largest first.
pub fn size_order(groups: &Vec<Vec<usize>>) -> (r: Vec<usize>)
    ensures
        arranged(group_places(groups@), positions(r@)) == by_size(group_places(groups@)),
        r@.len() == groups@.len(),
        forall|i: int| 0 <= i < r@.len() ==> (#[trigger] r@[i]) < groups@.len(),
{
    let ghost w = group_places(groups@);
    let mut sizes: Vec<u64> = Vec::new();
    let mut i: usize = 0;
    while i < groups.len()
        invariant
            i <= groups@.len(),
            w == group_places(groups@),
            sizes@.len() == i,
            forall|j: int| 0 <= j < i ==> (#[trigger] sizes@[j]) == w[j].len(),
        decreases groups@.len() - i,
    {
        assert(w[i as int] == positions(groups@[i as int]@));
        sizes.push(groups[i].len() as u64);
        i += 1;
    }
    assert(sizes@.map_values(|k: u64| k as int) =~= w.map_values(|g: Seq<int>| g.len() as int));
    order_falling(&sizes)
}

/// A message goes into one group: all groups together hold it once more, and the
/// others as before.
pub proof fn placing_adds_one(groups: Seq<Seq<int>>, like: Seq<bool>, m: int)
    requires
        like.len() == groups.len(),
    ensures
        flat(placed(groups, like, m)).to_multiset()
            == flat(groups).to_multiset().insert(m),
{
    first_like_bound(like);
    match first_like(like) {
        Some(i) => {
            flat_update(groups, i, m);
        },
        None => {
            flat_push(groups, m);
        },
    }
}

proof fn first_like_bound(like: Seq<bool>)
    ensures
        first_like(like) matches Some(i) ==> 0 <= i < like.len(),
    decreases like.len(),
{
    if like.len() > 0 {
        first_like_bound(like.drop_last());
    }
}

proof fn flat_push(groups: Seq<Seq<int>>, m: int)
    ensures
        flat(groups.push(seq![m])) == flat(groups).push(m),
        flat(groups.push(seq![m])).to_multiset()
            == flat(groups).to_multiset().insert(m),
    decreases groups.len(),
{
    broadcast use vstd::seq_lib::group_to_multiset_ensures;

    let p = groups.push(seq![m]);
    if groups.len() == 0 {
        assert(p.skip(1) =~= seq![]);
        assert(flat(p.skip(1)) =~= seq![]);
        assert(flat(p) =~= flat(groups).push(m));
    } else {
        assert(p.skip(1) =~= groups.skip(1).push(seq![m]));
        flat_push(groups.skip(1), m);
        assert(flat(p) =~= flat(groups).push(m));
    }
}

proof fn flat_update(groups: Seq<Seq<int>>, i: int, m: int)
    requires
        0 <= i < groups.len(),
    ensures
        flat(groups.update(i, groups[i].push(m))).to_multiset()
            == flat(groups).to_multiset().insert(m),
    decreases groups.len(),
{
    broadcast use vstd::seq_lib::group_to_multiset_ensures;

    let u = groups.update(i, groups[i].push(m));
    let rest = flat(groups.skip(1));
    vstd::seq_lib::lemma_multiset_commutative(groups[0], rest);
    if i == 0 {
        assert(u.skip(1) =~= groups.skip(1));
        vstd::seq_lib::lemma_multiset_commutative(groups[0].push(m), rest);
        assert(flat(u).to_multiset() =~= flat(
            groups,
        ).to_multiset().insert(m));
    } else {
        assert(u.skip(1) =~= groups.skip(1).update(i - 1, groups.skip(1)[i - 1].push(m)));
        flat_update(groups.skip(1), i - 1, m);
        let rest2 = flat(u.skip(1));
        vstd::seq_lib::lemma_multiset_commutative(groups[0], rest2);
        assert(flat(u).to_multiset() =~= flat(
            groups,
        ).to_multiset().insert(m));
    }
}

// ---------------------------------------------------------------- summaries

/// The members of a group.
pub open spec fn members(
    ms: Seq<(Seq<char>, Seq<char>, Seq<char>)>,
    g: Seq<int>,
) -> Seq<(Seq<char>, Seq<char>, Seq<char>)> {
    g.map_values(|i: int| ms[i])
}

/// A message as a line for the model.
pub open spec fn model_line(m: (Seq<char>, Seq<char>, Seq<char>)) -> Seq<char> {
    "- ["@ + quoted(m.0) + "→"@ + quoted(m.1) + "] "@ + first(
        m.2,
        120,
    )
}

/// A group is large enough for the model.
pub open spec fn large(g: Seq<int>) -> bool {
    g.len() >= 3
}

/// Whether a group is large enough for the model.
pub fn is_large(g: &Vec<usize>) -> (r: bool)
    ensures
        r == large(positions(g@)),
{
    g.len() >= 3
}

/// The five largest groups, by their positions.
pub fn largest_groups(groups: &Vec<Vec<usize>>) -> (r: Vec<usize>)
    ensures
        arranged(group_places(groups@), positions(r@)) == at_most(
            by_size(group_places(groups@)),
            5,
        ),
        forall|i: int| 0 <= i < r@.len() ==> (#[trigger] r@[i]) < groups@.len(),
{
    let o = size_order(groups);
    let ghost w = arranged(group_places(groups@), positions(o@));
    let k: usize = if o.len() > 5 {
        5
    } else {
        o.len()
    };
    let mut out: Vec<usize> = Vec::new();
    let mut i: usize = 0;
    while i < k
        invariant
            i <= k <= o@.len(),
            forall|i: int| 0 <= i < o@.len() ==> (#[trigger] o@[i]) < groups@.len(),
            out@ == o@.take(i as int),
        decreases k - i,
    {
        out.push(o[i]);
        assert(out@ =~= o@.take(i + 1));
        i += 1;
    }
    assert(arranged(group_places(groups@), positions(out@)) =~= at_most(w, 5));
    out
}

/// What the model is asked about a group.
pub open spec fn group_prompt(g: Seq<(Seq<char>, Seq<char>, Seq<char>)>) -> Seq<char> {
    "以下是一簇语义相近的消息（"@ + dec(g.len())
        + " 条），归纳：①主题（一句话）②核心要点（2-3条）③是否仍需处理（历史/重复/已过时）\n消息：\n"@ + join(
        at_most(g, 8).map_values(|m: (Seq<char>, Seq<char>, Seq<char>)| model_line(m)),
        "\n"@,
    )
}

/// What is said of a group that is too small for the model.
pub open spec fn small_summary(g: Seq<(Seq<char>, Seq<char>, Seq<char>)>) -> Seq<char> {
    "(小簇 "@ + dec(g.len()) + " 条) "@ + first(g[0].2, 60)
}

fn line_for_model(m: &Queued) -> (r: String)
    ensures
        r@ == model_line((m.from@, m.to@, m.text@)),
{
    let a = quote(m.from.as_str());
    let b = quote(m.to.as_str());
    let mut s = cat5("- [", a.as_str(), "→", b.as_str(), "] ");
    s.append(first_chars(m.text.as_str(), 120).as_str());
    s
}

/// What the model is asked about a group.
pub fn prompt_for(ms: &Vec<Queued>, g: &Vec<usize>) -> (r: String)
    requires
        forall|i: int| 0 <= i < g@.len() ==> (#[trigger] g@[i]) < ms@.len(),
    ensures
        r@ == group_prompt(members(queued_views(ms@), positions(g@))),
{
    let ghost w = members(queued_views(ms@), positions(g@));
    let ghost want = at_most(w, 8).map_values(
        |m: (Seq<char>, Seq<char>, Seq<char>)| model_line(m),
    );
    let k: usize = if g.len() > 8 {
        8
    } else {
        g.len()
    };
    let mut ls: Vec<String> = Vec::new();
    let mut i: usize = 0;
    while i < k
        invariant
            i <= k <= g@.len(),
            k == want.len(),
            w == members(queued_views(ms@), positions(g@)),
            want == at_most(w, 8).map_values(
                |m: (Seq<char>, Seq<char>, Seq<char>)| model_line(m),
            ),
            forall|i: int| 0 <= i < g@.len() ==> (#[trigger] g@[i]) < ms@.len(),
            ls@.len() == i,
            forall|j: int| 0 <= j < i ==> (#[trigger] ls@[j])@ == want[j],
        decreases k - i,
    {
        let p: usize = g[i];
        assert(positions(g@)[i as int] == p);
        assert(w[i as int] == (ms@[p as int].from@, ms@[p as int].to@, ms@[p as int].text@));
        assert(want[i as int] == model_line(w[i as int]));
        ls.push(line_for_model(&ms[p]));
        i += 1;
    }
    assert(texts(ls@) =~= want);
    cat4(
        "以下是一簇语义相近的消息（",
        decimal(g.len() as u64).as_str(),
        " 条），归纳：①主题（一句话）②核心要点（2-3条）③是否仍需处理（历史/重复/已过时）\n消息：\n",
        joined(&ls, "\n").as_str(),
    )
}

/// What is said of a group: what the model answered for a large one, else its first
/// text.
pub open spec fn group_summary(
    g: Seq<(Seq<char>, Seq<char>, Seq<char>)>,
    answer: Option<Result<String, String>>,
) -> Seq<char> {
    match answer {
        Some(Ok(s)) => s@,
        Some(Err(e)) => "(归纳失败: "@ + e@ + ")"@,
        None => small_summary(g),
    }
}

/// A group in the summary.
pub open spec fn group_value(
    number: nat,
    g: Seq<(Seq<char>, Seq<char>, Seq<char>)>,
    summary: Seq<char>,
) -> JsonView {
    JsonView::object().put("id"@, JsonView::Int(number as int)).put(
        "count"@,
        JsonView::Int(g.len() as int),
    ).put(
        "samples"@,
        JsonView::Arr(
            at_most(g, 3).map_values(
                |m: (Seq<char>, Seq<char>, Seq<char>)| JsonView::Str(first(m.2, 60)),
            ),
        ),
    ).put("summary"@, JsonView::Str(summary))
}

/// A group in the summary, given what the model answered, where it was asked.
pub fn group_entry(
    number: usize,
    ms: &Vec<Queued>,
    g: &Vec<usize>,
    answer: &Option<Result<String, String>>,
) -> (r: Json)
    requires
        g@.len() > 0,
        forall|i: int| 0 <= i < g@.len() ==> (#[trigger] g@[i]) < ms@.len(),
    ensures
        ({
            let m = members(queued_views(ms@), positions(g@));
            r@ == group_value(number as nat, m, group_summary(m, *answer))
        }),
{
    let ghost w = members(queued_views(ms@), positions(g@));
    let ghost want = at_most(w, 3).map_values(
        |m: (Seq<char>, Seq<char>, Seq<char>)| JsonView::Str(first(m.2, 60)),
    );
    let k: usize = if g.len() > 3 {
        3
    } else {
        g.len()
    };
    let mut ss: Vec<String> = Vec::new();
    let mut i: usize = 0;
    while i < k
        invariant
            i <= k <= g@.len(),
            k == want.len(),
            w == members(queued_views(ms@), positions(g@)),
            want == at_most(w, 3).map_values(
                |m: (Seq<char>, Seq<char>, Seq<char>)| JsonView::Str(first(m.2, 60)),
            ),
            forall|i: int| 0 <= i < g@.len() ==> (#[trigger] g@[i]) < ms@.len(),
            ss@.len() == i,
            forall|j: int| 0 <= j < i ==> JsonView::Str((#[trigger] ss@[j])@) == want[j],
        decreases k - i,
    {
        let p: usize = g[i];
        assert(positions(g@)[i as int] == p);
        assert(w[i as int].2 == ms@[p as int].text@);
        assert(want[i as int] == JsonView::Str(first(w[i as int].2, 60)));
        ss.push(first_chars(ms[p].text.as_str(), 60));
        i += 1;
    }
    assert(ss@.map_values(|s: String| JsonView::Str(s@)) =~= want);
    let p0: usize = g[0];
    assert(positions(g@)[0] == p0);
    assert(w[0].2 == ms@[p0 as int].text@);
    let summary = match answer {
        Some(Ok(s)) => s.clone(),
        Some(Err(e)) => cat3("(归纳失败: ", e.as_str(), ")"),
        None => cat4(
            "(小簇 ",
            decimal(g.len() as u64).as_str(),
            " 条) ",
            first_chars(ms[p0].text.as_str(), 60).as_str(),
        ),
    };
    Json::object().with("id", Json::Uint(number as u64)).with(
        "count",
        Json::Uint(g.len() as u64),
    ).with("samples", Json::text_array(&ss)).with("summary", Json::text(summary.as_str()))
}

/// What the model is sent; the temperature is a number.
pub open spec fn model_request(prompt: Seq<char>, temperature: JsonView) -> JsonView {
    JsonView::object().put("model"@, JsonView::Str("qwen2.5:3b"@)).put(
        "prompt"@,
        JsonView::Str(prompt),
    ).put("stream"@, JsonView::Bool(false)).put(
        "options"@,
        JsonView::object().put("temperature"@, temperature).put(
            "num_predict"@,
            JsonView::Int(400),
        ),
    )
}

/// What the model is sent.
pub fn llm_request(prompt: &str, temperature: Json) -> (r: Json)
    ensures
        r@ == model_request(prompt@, temperature@),
{
    Json::object().with("model", Json::text("qwen2.5:3b")).with("prompt", Json::text(prompt)).with(
        "stream",
        Json::Bool(false),
    ).with(
        "options",
        Json::object().with("temperature", temperature).with("num_predict", Json::Uint(400)),
    )
}

/// What the model answered: a text, or that there is none.
pub fn llm(answer: &Result<Json, String>) -> (r: Result<String, String>)
    ensures
        match answer {
            Err(e) => r matches Err(m) && m@ == e@,
            Ok(v) => match v@.text("response"@) {
                Some(s) => r matches Ok(t) && t@ == s,
                None => r matches Err(m) && m@ == "generate 无结果"@,
            },
        },
{
    match answer {
        Err(e) => Err(e.clone()),
        Ok(v) => match v.text_at("response") {
            Some(s) => Ok(s),
            None => Err("generate 无结果".to_owned()),
        },
    }
}

/// The request for what a text is like.
pub fn embed_request(text: &str) -> (r: Json)
    ensures
        r@ == JsonView::object().put("model"@, JsonView::Str("bge-m3"@)).put(
            "input"@,
            JsonView::Arr(seq![JsonView::Str(text@)]),
        ),
{
    let mut v: Vec<String> = Vec::new();
    v.push(text.to_owned());
    assert(v@.map_values(|s: String| JsonView::Str(s@)) =~= seq![JsonView::Str(text@)]);
    Json::object().with("model", Json::text("bge-m3")).with("input", Json::text_array(&v))
}

/// The text by which a message is compared.
pub fn compared_text(m: &Queued) -> (r: String)
    ensures
        r@ == first(m.text@, 200),
{
    first_chars(m.text.as_str(), 200)
}

// ---------------------------------------------------------------- the report

/// The summary of the whole pile.
pub open spec fn pile_summary(
    now: u64,
    source: nat,
    unique: nat,
    groups: Seq<JsonView>,
) -> JsonView {
    JsonView::object().put("ts"@, JsonView::Int(now as int)).put(
        "source"@,
        JsonView::Int(source as int),
    ).put("unique"@, JsonView::Int(unique as int)).put("clusters"@, JsonView::Arr(groups))
}

/// Where the summary goes.
pub open spec fn summary_key(now: u64) -> Seq<char> {
    "data/ops/queue-condense/condense-"@ + dec(now as nat)
}

/// A session, or nothing.
pub open spec fn target_value(to: Option<Seq<char>>) -> JsonView {
    match to {
        Some(t) => JsonView::Str(t),
        None => JsonView::Null,
    }
}

/// What is put on the board.
pub open spec fn summary_posting(summary: JsonView, to: Option<Seq<char>>, now: u64) -> JsonView {
    JsonView::object().put(
        "value"@,
        JsonView::object().put("type"@, JsonView::Str("queue-condense"@)).put(
            "summary"@,
            summary,
        ).put("target"@, target_value(to)).put("ts"@, JsonView::Int(now as int)),
    ).put("ts"@, JsonView::Int(now as int))
}

/// The note to a session.
pub open spec fn session_note(to: Seq<char>, now: u64, source: nat, groups: nat) -> JsonView {
    JsonView::object().put(
        "value"@,
        JsonView::object().put("from"@, JsonView::Str("queue-condense"@)).put(
            "to"@,
            JsonView::Str(to),
        ).put(
            "body"@,
            JsonView::Str(
                "看黑板 "@ + summary_key(now) + "（"@ + dec(source) + "条→"@ + dec(groups)
                    + "簇汇总，一次性处理）"@,
            ),
        ).put("ts"@, JsonView::Int(now as int)),
    ).put("ts"@, JsonView::Int(now as int))
}

/// What is put on the board: where, and which value.
pub struct Posting {
    pub key: String,
    pub value: Json,
}

/// The summary as it is put on the board.
pub fn post_summary(
    now: u64,
    source: usize,
    unique: usize,
    groups: Vec<Json>,
    to: &Option<String>,
) -> (r: Posting)
    ensures
        r.key@ == summary_key(now),
        r.value@ == summary_posting(
            pile_summary(now, source as nat, unique as nat, views(groups@)),
            maybe(*to),
            now,
        ),
{
    let summary = Json::object().with("ts", Json::Uint(now)).with(
        "source",
        Json::Uint(source as u64),
    ).with("unique", Json::Uint(unique as u64)).with("clusters", Json::array(groups));
    let target = match to {
        Some(t) => Json::text(t.as_str()),
        None => Json::Null,
    };
    let inner = Json::object().with("type", Json::text("queue-condense")).with(
        "summary",
        summary,
    ).with("target", target).with("ts", Json::Uint(now));
    Posting {
        key: cat("data/ops/queue-condense/condense-", decimal(now).as_str()),
        value: Json::object().with("value", inner).with("ts", Json::Uint(now)),
    }
}

/// The note to a session as it is put on the board.
pub fn post_note(to: &str, now: u64, source: usize, groups: usize) -> (r: Posting)
    ensures
        r.key@ == "notes/"@ + first(to@, 8) + "/queue-condense-"@ + dec(now as nat),
        r.value@ == session_note(to@, now, source as nat, groups as nat),
{
    let at = decimal(now);
    let key = cat("data/ops/queue-condense/condense-", at.as_str());
    let body = cat7(
        "看黑板 ",
        key.as_str(),
        "（",
        decimal(source as u64).as_str(),
        "条→",
        decimal(groups as u64).as_str(),
        "簇汇总，一次性处理）",
    );
    let inner = Json::object().with("from", Json::text("queue-condense")).with(
        "to",
        Json::text(to),
    ).with("body", Json::text(body.as_str())).with("ts", Json::Uint(now));
    Posting {
        key: cat4("notes/", first_chars(to, 8).as_str(), "/queue-condense-", at.as_str()),
        value: Json::object().with("value", inner).with("ts", Json::Uint(now)),
    }
}

// ---------------------------------------------------------------- the command

/// The arguments of the command.
pub struct CondenseArgs {
    pub condense: bool,
    pub dry: bool,
    pub to: Option<String>,
}

/// Reads the arguments: the last of `--scan`, `--condense` and `--dry-run` decides
/// whether to condense; a dry run stays dry.
pub fn condense_args(args: &[String]) -> (r: CondenseArgs)
    ensures
        ({
            let o = options(texts(args@), seq!["--to"@]);
            let w = plain_words(texts(args@), seq!["--to"@]);
            let m = last_word(w, seq!["--scan"@, "--condense"@, "--dry-run"@]);
            &&& r.condense == (m is Some && m != Some("--scan"@))
            &&& r.dry == w.contains("--dry-run"@)
            &&& maybe(r.to) == last_value(o, "--to"@)
        }),
{
    let valued = ["--to"];
    let modes = ["--scan", "--condense", "--dry-run"];
    let a = read_args(args, &valued);
    assert(names(valued@) =~= seq!["--to"@]);
    assert(names(modes@) =~= seq!["--scan"@, "--condense"@, "--dry-run"@]);
    let condense = match a.last_word(&modes) {
        Some(w) => !same(w.as_str(), "--scan"),
        None => false,
    };
    CondenseArgs { condense, dry: a.has("--dry-run"), to: a.value("--to") }
}

/// What is printed of the pile.
pub open spec fn scan_lines(n: nat, dup: nat) -> Seq<Seq<char>> {
    seq!["══ queue-condense 扫描 ══"@, "  queued: "@ + dec(n)] + if n == 0 {
        seq!["  无堆积"@]
    } else {
        seq![
            "  精确重复: "@ + dec(dup),
            "  建议: --condense 去重→聚类→归纳→写黑板 | --dry-run 干跑"@,
        ]
    }
}

/// What is printed of the pile.
pub fn scan_report(ms: &Vec<Queued>) -> (l: Vec<String>)
    ensures
        texts(l@) == scan_lines(ms@.len(), repeats(queued_views(ms@))),
{
    let mut l: Vec<String> = Vec::new();
    say(&mut l, "══ queue-condense 扫描 ══");
    say(&mut l, cat("  queued: ", decimal(ms.len() as u64).as_str()).as_str());
    let (_, dup) = dedupe(ms);
    if ms.len() == 0 {
        say(&mut l, "  无堆积");
    } else {
        say(&mut l, cat("  精确重复: ", decimal(dup as u64).as_str()).as_str());
        say(&mut l, "  建议: --condense 去重→聚类→归纳→写黑板 | --dry-run 干跑");
    }
    assert(texts(l@) =~= scan_lines(ms@.len(), repeats(queued_views(ms@))));
    l
}

/// What is printed once the repeats are dropped.
pub open spec fn dedupe_lines(n: nat, unique: nat, dry: bool) -> Seq<Seq<char>> {
    if n == 0 {
        seq!["无 queued 消息"@]
    } else {
        seq![
            "══ queue-condense 管道 ══"@,
            "  原始 queued: "@ + dec(n),
            "  去重后: "@ + dec(unique) + "（-"@ + dec((n - unique) as nat) + " 重复）"@,
        ] + if dry {
            seq!["[dry-run] 跳过 embed/聚类/归纳/写黑板"@]
        } else {
            seq![]
        }
    }
}

/// What is printed once the repeats are dropped.
pub fn dedupe_report(n: usize, unique: usize, dry: bool) -> (l: Vec<String>)
    requires
        unique <= n,
    ensures
        texts(l@) == dedupe_lines(n as nat, unique as nat, dry),
{
    let mut l: Vec<String> = Vec::new();
    if n == 0 {
        say(&mut l, "无 queued 消息");
        assert(texts(l@) =~= dedupe_lines(n as nat, unique as nat, dry));
        return l;
    }
    say(&mut l, "══ queue-condense 管道 ══");
    say(&mut l, cat("  原始 queued: ", decimal(n as u64).as_str()).as_str());
    say(
        &mut l,
        cat5(
            "  去重后: ",
            decimal(unique as u64).as_str(),
            "（-",
            decimal((n - unique) as u64).as_str(),
            " 重复）",
        ).as_str(),
    );
    if dry {
        say(&mut l, "[dry-run] 跳过 embed/聚类/归纳/写黑板");
    }
    assert(texts(l@) =~= dedupe_lines(n as nat, unique as nat, dry));
    l
}

// ---------------------------------------------------------------- laws

/// Every message with a text is either new or a repeat, and only one of them.
pub proof fn messages_are_new_or_repeats(ms: Seq<(Seq<char>, Seq<char>, Seq<char>)>)
    ensures
        fresh(ms).len() + repeats(ms) <= ms.len(),
        (forall|i: int| 0 <= i < ms.len() ==> trim((#[trigger] ms[i]).2).len() > 0) ==> fresh(
            ms,
        ).len() + repeats(ms) == ms.len(),
    decreases ms.len(),
{
    if ms.len() > 0 {
        let d = ms.drop_last();
        messages_are_new_or_repeats(d);
        assert(ms.last() == ms[ms.len() - 1]);
        assert(forall|i: int| 0 <= i < d.len() ==> d[i] == ms[i]);
    }
}

/// A message goes into the first group that it is like, and the other groups stay; where it
/// is like none it begins a group behind them.
pub proof fn first_alike_takes_it(groups: Seq<Seq<int>>, like: Seq<bool>, m: int, k: int)
    requires
        like.len() == groups.len(),
        0 <= k <= like.len(),
        forall|j: int| 0 <= j < k ==> !like[j],
        k < like.len() ==> like[k],
    ensures
        k < like.len() ==> placed(groups, like, m).len() == groups.len(),
        k < like.len() ==> placed(groups, like, m)[k] == groups[k].push(m),
        k == like.len() ==> placed(groups, like, m).len() == groups.len() + 1,
        k == like.len() ==> placed(groups, like, m)[k] == seq![m],
        forall|j: int|
            0 <= j < groups.len() && j != k ==> #[trigger] placed(groups, like, m)[j] == groups[j],
{
    if k < like.len() {
        first_like_first(like, k);
    } else {
        first_like_none(like);
    }
}

/// The groups are given by their size, the largest first, every one of them.
pub proof fn large_groups_come_first(groups: Seq<Seq<int>>)
    ensures
        by_size(groups).len() == groups.len(),
        forall|i: int| 0 <= i < groups.len() ==> groups.contains(#[trigger] by_size(groups)[i]),
        forall|i: int, j: int|
            0 <= i < j < groups.len() ==> (#[trigger] by_size(groups)[i]).len() >= (
            #[trigger] by_size(groups)[j]).len(),
{
    let keys = groups.map_values(|g: Seq<int>| g.len() as int);
    let p = falling(keys);
    let o = order(groups.len(), p);
    order_keeps_positions(groups.len(), p);
    falling_ranks(keys);
    order_is_sorted(groups.len(), p);
    assert forall|i: int| 0 <= i < groups.len() implies groups.contains(
        #[trigger] by_size(groups)[i],
    ) by {
        assert(o.contains(o[i]));
        assert(by_size(groups)[i] == groups[o[i]]);
    }
    assert forall|i: int, j: int| 0 <= i < j < groups.len() implies (
    #[trigger] by_size(groups)[i]).len() >= (#[trigger] by_size(groups)[j]).len() by {
        assert(o.contains(o[i]));
        assert(o.contains(o[j]));
        assert(!p(o[j], o[i]));
        assert(by_size(groups)[i] == groups[o[i]] && by_size(groups)[j] == groups[o[j]]);
    }
}

/// The model is asked about groups of three messages and more, and about no smaller one.
pub proof fn small_groups_go_without(g: Seq<int>)
    ensures
        large(g) <==> g.len() > 2,
{
}

/// A group in the summary tells its number, how many messages it has, at most three of
/// their beginnings, in order, and what is said of it.
pub proof fn groups_are_told(
    number: nat,
    g: Seq<(Seq<char>, Seq<char>, Seq<char>)>,
    summary: Seq<char>,
)
    ensures
        ({
            let v = group_value(number, g, summary);
            &&& v.at("id"@) == JsonView::Int(number as int)
            &&& v.at("count"@) == JsonView::Int(g.len() as int)
            &&& v.at("summary"@) == JsonView::Str(summary)
            &&& v.at("samples"@) matches JsonView::Arr(a) && a.len() <= 3 && (a.len() == 3
                || a.len() == g.len()) && forall|i: int|
                0 <= i < a.len() ==> #[trigger] a[i] == JsonView::Str(first(g[i].2, 60))
        }),
{
    broadcast use read_of_put;

    reveal_strlit("id");
    reveal_strlit("count");
    reveal_strlit("samples");
    reveal_strlit("summary");
    assert("id"@.len() == 2 && "count"@.len() == 5 && "samples"@.len() == 7 && "summary"@.len() == 7);
    assert("samples"@[1] != "summary"@[1]);
}

/// What is put on the board tells how many messages there were, how many were left without
/// the repeats, when, and for whom.
pub proof fn piles_are_told(
    now: u64,
    source: nat,
    unique: nat,
    groups: Seq<JsonView>,
    to: Seq<char>,
)
    ensures
        ({
            let s = pile_summary(now, source, unique, groups);
            let p = summary_posting(s, Some(to), now);
            &&& s.at("ts"@) == JsonView::Int(now as int)
            &&& s.at("source"@) == JsonView::Int(source as int)
            &&& s.at("unique"@) == JsonView::Int(unique as int)
            &&& s.at("clusters"@) == JsonView::Arr(groups)
            &&& p.at("value"@).at("summary"@) == s
            &&& p.at("value"@).at("target"@) == JsonView::Str(to)
            &&& p.at("ts"@) == JsonView::Int(now as int)
        }),
{
    broadcast use read_of_put;

    reveal_strlit("ts");
    reveal_strlit("source");
    reveal_strlit("unique");
    reveal_strlit("clusters");
    reveal_strlit("value");
    reveal_strlit("type");
    reveal_strlit("summary");
    reveal_strlit("target");
    assert("ts"@.len() == 2 && "source"@.len() == 6 && "unique"@.len() == 6 && "clusters"@.len() == 8 && "value"@.len() == 5 && "type"@.len() == 4 && "summary"@.len() == 7 && "target"@.len() == 6);
    assert("source"@[0] != "unique"@[0]);
    assert("source"@[0] != "target"@[0]);
    assert("unique"@[0] != "target"@[0]);
}

/// A queued message is its sender, its receiver and its text as they stand in it.
pub proof fn queued_messages_are_read(m: JsonView, from: Seq<char>, to: Seq<char>, text: Seq<char>)
    requires
        m.at("from"@) == JsonView::Str(from),
        m.at("to"@) == JsonView::Str(to),
        m.at("text"@) == JsonView::Str(text),
    ensures
        queued_of(m) == (from, to, text),
{
}

/// A group that the model was asked about is summed up as the model answered, and a failure
/// is said; a group that it was not asked about is summed up by the beginning of its first
/// text.
pub proof fn answers_sum_up(g: Seq<(Seq<char>, Seq<char>, Seq<char>)>, s: String, e: String)
    requires
        g.len() > 0,
    ensures
        group_summary(g, Some(Ok(s))) == s@,
        group_summary(g, Some(Err(e))) == "(归纳失败: "@ + e@ + ")"@,
        group_summary(g, None) == "(小簇 "@ + dec(g.len()) + " 条) "@ + first(g[0].2, 60),
{
}

/// Of two groups of one size the earlier one comes first.
pub proof fn earlier_groups_come_first(groups: Seq<Seq<int>>, i: int, j: int)
    requires
        0 <= i < j < by_size(groups).len(),
        by_size(groups)[i].len() == by_size(groups)[j].len(),
    ensures
        exists|a: int, b: int|
            0 <= a < b < groups.len() && #[trigger] groups[a] == by_size(groups)[i]
                && #[trigger] groups[b] == by_size(groups)[j],
{
    let keys = groups.map_values(|g: Seq<int>| g.len() as int);
    let p = falling(keys);
    let o = order(groups.len(), p);
    order_keeps_positions(groups.len(), p);
    order_is_stable(groups.len(), p, i, j);
    assert(o.contains(o[i]) && o.contains(o[j]));
    assert(by_size(groups)[i] == groups[o[i]] && by_size(groups)[j] == groups[o[j]]);
    assert(keys[o[i]] == keys[o[j]]);
    assert(o[i] < o[j]);
}

proof fn part_of_row(parts: Seq<Seq<char>>, sep: Seq<char>, i: int)
    requires
        0 <= i < parts.len(),
    ensures
        contains(join(parts, sep), parts[i]),
    decreases parts.len(),
{
    let j = join(parts, sep);
    let p = parts[i];
    if parts.len() == 1 {
        assert(j.subrange(0, p.len() as int) =~= p);
        assert(occurs_at(j, p, 0));
    } else {
        join_from_front(parts, sep);
        let r = parts.skip(1);
        if i == 0 {
            assert(j.subrange(0, p.len() as int) =~= p);
            assert(occurs_at(j, p, 0));
        } else {
            part_of_row(r, sep, i - 1);
            let t = join(r, sep);
            let k = choose|k: int| occurs_at(t, p, k);
            let n = parts[0].len() + sep.len() + k;
            assert(j.subrange(n, n + p.len()) =~= t.subrange(k, k + p.len()));
            assert(occurs_at(j, p, n));
        }
    }
}

/// The model sees the first eight messages of a group, each with its sender, its receiver and
/// up to 120 characters of its text, and is told how many there are.
pub proof fn the_model_sees_the_group(g: Seq<(Seq<char>, Seq<char>, Seq<char>)>, i: int)
    requires
        0 <= i < g.len(),
        i < 8,
    ensures
        contains(
            group_prompt(g),
            "- ["@ + quoted(g[i].0) + "→"@ + quoted(g[i].1) + "] "@ + first(g[i].2, 120),
        ),
{
    let ls = at_most(g, 8).map_values(|m: (Seq<char>, Seq<char>, Seq<char>)| model_line(m));
    part_of_row(ls, "\n"@, i);
    let p = model_line(g[i]);
    assert(ls[i] == p);
    let t = join(ls, "\n"@);
    let s = group_prompt(g);
    let k = choose|k: int| occurs_at(t, p, k);
    let n = s.len() - t.len() + k;
    assert(s.subrange(n, n + p.len()) =~= t.subrange(k, k + p.len()));
    assert(occurs_at(s, p, n));
}

} // verus!
