//! The pile of messages on the bus of the agents: counting it, and draining it into
//! an archive.
use vstd::prelude::*;
use crate::args::{last_value, last_word, names, options, plain_words, read_args};
use crate::clock::rfc3339_seconds;
use crate::json::{
    compact, json_parsed, json_pretty, json_text, max_depth, parse, pretty, put_keeps_orderly,
    put_then_get, read_of_put, reads_as, views, Json, JsonView,
};
use crate::num::{
    dec, dec_is_plain, dec_round_trip, decimal, other_texts_are_no_numbers, read_u64, uint_of,
};
use crate::order::{
    arranged, at_most, falling, falling_ranks, order, order_falling, order_is_sorted,
    order_is_stable, order_keeps_positions, positions,
};
use crate::path::{path_under, under};
use crate::report::say;
use crate::stamp::{seconds_in_text, text_seconds};
use crate::table::{
    ascending, count_texts, count_views, counted_texts_stand, counts, counts_occurrences,
    own_count,
};
use crate::text::{
    cat, cat3, cat5, chars_of, ends, finishes, first, first_chars, same, slice, text_lt, texts,
};

verus! {

// ---------------------------------------------------------------- places and times

/// The file of the bus of the agents.
pub open spec fn bus_file(home: Seq<char>) -> Seq<char> {
    under(home, ".dsh/agent-bus.json"@)
}

/// The file of the bus of the agents, below a home directory.
pub fn agent_bus_path(home: &str) -> (r: String)
    ensures
        r@ == bus_file(home@),
{
    path_under(home, ".dsh/agent-bus.json")
}

/// The seconds that a text gives; zero where it gives none.
pub open spec fn seconds_given(s: Seq<char>) -> u64 {
    match text_seconds(s, rfc3339_seconds(s)) {
        Some(n) => n,
        None => 0,
    }
}

/// The seconds that a text gives: a number, or a time with or without an offset.
pub fn parse_ts(s: &str) -> (r: u64)
    ensures
        r == seconds_given(s@),
{
    match seconds_in_text(s) {
        Some(n) => n,
        None => 0,
    }
}

// ---------------------------------------------------------------- messages

/// The threads of the bus.
pub open spec fn threads_of(data: JsonView) -> Seq<JsonView> {
    match data.items("threads"@) {
        Some(a) => a,
        None => seq![],
    }
}

/// The messages of a thread.
pub open spec fn messages_of(t: JsonView) -> Seq<JsonView> {
    match t.items("messages"@) {
        Some(a) => a,
        None => seq![],
    }
}

/// The messages of some threads, one thread after the other.
pub open spec fn all_messages(ts: Seq<JsonView>) -> Seq<JsonView>
    decreases ts.len(),
{
    if ts.len() == 0 {
        seq![]
    } else {
        all_messages(ts.drop_last()) + messages_of(ts.last())
    }
}

/// The messages in a state.
pub open spec fn in_state(ms: Seq<JsonView>, st: Seq<char>) -> Seq<JsonView>
    decreases ms.len(),
{
    if ms.len() == 0 {
        seq![]
    } else if ms.last().text_or("status"@, seq![]) == st {
        in_state(ms.drop_last(), st).push(ms.last())
    } else {
        in_state(ms.drop_last(), st)
    }
}

/// The senders of some messages.
pub open spec fn senders(ms: Seq<JsonView>) -> Seq<Seq<char>> {
    ms.map_values(|m: JsonView| m.text_or("from"@, "?"@))
}

/// The texts of the first messages, each cut.
pub open spec fn samples(ms: Seq<JsonView>, n: nat, width: nat) -> Seq<Seq<char>> {
    Seq::new(
        if ms.len() < n {
            ms.len()
        } else {
            n
        },
        |i: int| first(ms[i].text_or("text"@, seq![]), width),
    )
}

/// Copies of all messages of the bus.
pub fn bus_messages(data: &Json) -> (r: Vec<Json>)
    ensures
        views(r@) == all_messages(threads_of(data@)),
{
    let mut out: Vec<Json> = Vec::new();
    assert(views(out@) =~= seq![]);
    if let Some(ts) = data.items("threads") {
        let ghost t = views(ts@);
        let mut i: usize = 0;
        assert(t.take(0) =~= seq![]);
        while i < ts.len()
            invariant
                i <= ts@.len(),
                t == views(ts@),
                views(out@) == all_messages(t.take(i as int)),
            decreases ts@.len() - i,
        {
            proof {
                assert(t.take(i + 1).drop_last() =~= t.take(i as int));
                assert(t.take(i + 1).last() == ts@[i as int]@);
            }
            if let Some(ms) = ts[i].items("messages") {
                push_copies(ms, &mut out);
            }
            assert(views(out@) =~= all_messages(t.take(i + 1)));
            i += 1;
        }
        assert(t.take(i as int) =~= t);
    }
    out
}

fn push_copies(ms: &Vec<Json>, out: &mut Vec<Json>)
    ensures
        views(final(out)@) == views(old(out)@) + views(ms@),
{
    let ghost base = views(out@);
    let ghost t = views(ms@);
    let mut i: usize = 0;
    assert(base + t.take(0) =~= base);
    while i < ms.len()
        invariant
            i <= ms@.len(),
            t == views(ms@),
            views(out@) == base + t.take(i as int),
        decreases ms@.len() - i,
    {
        let ghost prev = views(out@);
        let x = ms[i].copy();
        out.push(x);
        assert(views(out@) =~= prev.push(t[i as int]));
        assert(views(out@) =~= base + t.take(i + 1));
        i += 1;
    }
    assert(t.take(i as int) =~= t);
}

fn is_in_state(m: &Json, st: &str) -> (r: bool)
    ensures
        r == (m@.text_or("status"@, seq![]) == st@),
{
    proof {
        reveal_strlit("");
        assert(""@ =~= seq![]);
    }
    same(m.text_or("status", "").as_str(), st)
}

/// Copies of the messages in a state.
pub fn messages_in_state(ms: &Vec<Json>, st: &str) -> (r: Vec<Json>)
    ensures
        views(r@) == in_state(views(ms@), st@),
{
    let mut out: Vec<Json> = Vec::new();
    let ghost t = views(ms@);
    let mut i: usize = 0;
    assert(t.take(0) =~= seq![]);
    assert(views(out@) =~= seq![]);
    while i < ms.len()
        invariant
            i <= ms@.len(),
            t == views(ms@),
            views(out@) == in_state(t.take(i as int), st@),
        decreases ms@.len() - i,
    {
        proof {
            assert(t.take(i + 1).drop_last() =~= t.take(i as int));
            assert(t.take(i + 1).last() == ms@[i as int]@);
        }
        if is_in_state(&ms[i], st) {
            let ghost prev = views(out@);
            let x = ms[i].copy();
            out.push(x);
            assert(views(out@) =~= prev.push(t[i as int]));
        }
        i += 1;
    }
    assert(t.take(i as int) =~= t);
    out
}

/// The texts of the first messages, each cut.
pub fn sample_texts(ms: &Vec<Json>, n: usize, width: usize) -> (r: Vec<String>)
    ensures
        texts(r@) == samples(views(ms@), n as nat, width as nat),
{
    proof {
        reveal_strlit("");
        assert(""@ =~= seq![]);
    }
    let k: usize = if ms.len() < n {
        ms.len()
    } else {
        n
    };
    let ghost t = views(ms@);
    let mut out: Vec<String> = Vec::new();
    let mut i: usize = 0;
    while i < k
        invariant
            i <= k <= ms@.len(),
            t == views(ms@),
            ""@ == Seq::<char>::empty(),
            out@.len() == i,
            forall|j: int|
                0 <= j < i ==> (#[trigger] out@[j])@ == first(
                    t[j].text_or("text"@, seq![]),
                    width as nat,
                ),
        decreases k - i,
    {
        out.push(first_chars(ms[i].text_or("text", "").as_str(), width));
        i += 1;
    }
    assert(texts(out@) =~= samples(t, n as nat, width as nat));
    out
}

// ---------------------------------------------------------------- counting

/// The senders with the number of their messages, the one with the most first, and those
/// of one number by their names.
pub open spec fn ranked_senders(ms: Seq<JsonView>) -> Seq<(Seq<char>, nat)> {
    let c = counts(senders(ms));
    arranged(c, order(c.len(), falling(c.map_values(|x: (Seq<char>, nat)| x.1 as int))))
}

/// The five senders with the most messages.
pub open spec fn top_senders(ms: Seq<JsonView>) -> Seq<(Seq<char>, nat)> {
    at_most(ranked_senders(ms), 5)
}

/// A sender and how much it sent.
pub open spec fn sender_value(x: (Seq<char>, nat)) -> JsonView {
    JsonView::object().put("from"@, JsonView::Str(x.0)).put("count"@, JsonView::Int(x.1 as int))
}

/// The values of some texts.
pub open spec fn text_values(s: Seq<Seq<char>>) -> Seq<JsonView> {
    s.map_values(|t: Seq<char>| JsonView::Str(t))
}

/// What the pile amounts to; the share of the queued messages comes as a text.
pub open spec fn pile_value(data: JsonView, now: u64, ratio: Seq<char>) -> JsonView {
    let ms = all_messages(threads_of(data));
    let queued = in_state(ms, "queued"@);
    JsonView::object().put("ts"@, JsonView::Int(now as int)).put(
        "total_threads"@,
        JsonView::Int(threads_of(data).len() as int),
    ).put("queued"@, JsonView::Int(queued.len() as int)).put(
        "delivered"@,
        JsonView::Int(in_state(ms, "delivered"@).len() as int),
    ).put("queued_ratio"@, JsonView::Str(ratio)).put(
        "top_senders"@,
        JsonView::Arr(top_senders(ms).map_values(|x: (Seq<char>, nat)| sender_value(x))),
    ).put("sample_queued"@, JsonView::Arr(text_values(samples(queued, 3, 60))))
}

/// How many threads there are, and how many queued messages.
pub fn pile_size(data: &Json) -> (r: (usize, usize))
    ensures
        r.0 == threads_of(data@).len(),
        r.1 == in_state(all_messages(threads_of(data@)), "queued"@).len(),
{
    let n: usize = match data.items("threads") {
        Some(a) => {
            assert(views(a@).len() == a@.len());
            a.len()
        },
        None => 0,
    };
    let q = messages_in_state(&bus_messages(data), "queued");
    assert(views(q@).len() == q@.len());
    (n, q.len())
}

fn senders_of(ms: &Vec<Json>) -> (r: Vec<String>)
    ensures
        texts(r@) == senders(views(ms@)),
{
    let mut out: Vec<String> = Vec::new();
    let mut i: usize = 0;
    while i < ms.len()
        invariant
            i <= ms@.len(),
            out@.len() == i,
            forall|j: int|
                0 <= j < i ==> (#[trigger] out@[j])@ == ms@[j]@.text_or("from"@, "?"@),
        decreases ms@.len() - i,
    {
        out.push(ms[i].text_or("from", "?"));
        i += 1;
    }
    assert(texts(out@) =~= senders(views(ms@)));
    out
}

fn top_values(ms: &Vec<Json>) -> (r: Vec<Json>)
    ensures
        views(r@) == top_senders(views(ms@)).map_values(|x: (Seq<char>, nat)| sender_value(x)),
{
    let c = count_texts(&senders_of(ms));
    let ghost cv = count_views(c@);
    let mut keys: Vec<u64> = Vec::new();
    let mut i: usize = 0;
    while i < c.len()
        invariant
            i <= c@.len(),
            cv == count_views(c@),
            keys@.len() == i,
            forall|j: int| 0 <= j < i ==> (#[trigger] keys@[j]) == cv[j].1,
        decreases c@.len() - i,
    {
        keys.push(c[i].count);
        i += 1;
    }
    let o = order_falling(&keys);
    assert(keys@.map_values(|k: u64| k as int) =~= cv.map_values(
        |x: (Seq<char>, nat)| x.1 as int,
    ));
    let ghost w = arranged(cv, positions(o@));
    let k: usize = if o.len() < 5 {
        o.len()
    } else {
        5
    };
    let ghost few = at_most(w, 5);
    let mut out: Vec<Json> = Vec::new();
    let mut j: usize = 0;
    while j < k
        invariant
            j <= k <= o@.len() == w.len(),
            k == few.len(),
            few == at_most(w, 5),
            o@.len() == c@.len(),
            cv == count_views(c@),
            w == arranged(cv, positions(o@)),
            forall|i: int| 0 <= i < o@.len() ==> (#[trigger] o@[i]) < c@.len(),
            out@.len() == j,
            forall|m: int| 0 <= m < j ==> (#[trigger] out@[m])@ == sender_value(few[m]),
        decreases k - j,
    {
        let p: usize = o[j];
        assert(positions(o@)[j as int] == p);
        assert(few[j as int] == w[j as int]);
        assert(w[j as int] == cv[p as int]);
        assert(cv[p as int] == (c@[p as int].key@, c@[p as int].count as nat));
        let x = Json::object().with("from", Json::text(c[p].key.as_str())).with(
            "count",
            Json::Uint(c[p].count),
        );
        out.push(x);
        j += 1;
    }
    assert(views(out@) =~= few.map_values(|x: (Seq<char>, nat)| sender_value(x)));
    out
}

/// What the pile amounts to.
pub fn pile_report(data: &Json, now: u64, ratio: &str) -> (r: Json)
    ensures
        r@ == pile_value(data@, now, ratio@),
{
    let ms = bus_messages(data);
    let queued = messages_in_state(&ms, "queued");
    let delivered = messages_in_state(&ms, "delivered");
    let (n, q) = pile_size(data);
    let s = sample_texts(&queued, 3, 60);
    assert(s@.map_values(|t: String| JsonView::Str(t@)) =~= text_values(texts(s@)));
    assert(views(delivered@).len() == delivered@.len());
    Json::object().with("ts", Json::Uint(now)).with("total_threads", Json::Uint(n as u64)).with(
        "queued",
        Json::Uint(q as u64),
    ).with("delivered", Json::Uint(delivered.len() as u64)).with(
        "queued_ratio",
        Json::text(ratio),
    ).with("top_senders", Json::array(top_values(&ms))).with(
        "sample_queued",
        Json::text_array(&s),
    )
}

// ---------------------------------------------------------------- draining

/// When a message was sent, in seconds; zero where it does not say.
pub open spec fn message_seconds(m: JsonView) -> u64 {
    match m.at("time"@) {
        JsonView::Int(n) => if i64::MIN <= n <= i64::MAX {
            (n as i64) as u64
        } else {
            0
        },
        JsonView::Str(s) => seconds_given(s),
        _ => 0,
    }
}

/// The time before which messages are drained; zero drains them all.
pub open spec fn cutoff(keep: Option<u64>, now: u64) -> int {
    match keep {
        Some(d) => now - d * 86400,
        None => 0,
    }
}

/// A message is drained: it is queued, and older than what is kept.
pub open spec fn goes(m: JsonView, cut: int) -> bool {
    m.text_or("status"@, seq![]) == "queued"@ && (cut == 0 || message_seconds(m) < cut)
}

/// The messages that are drained, or those that stay.
pub open spec fn sifted(ms: Seq<JsonView>, cut: int, gone: bool) -> Seq<JsonView>
    decreases ms.len(),
{
    if ms.len() == 0 {
        seq![]
    } else if goes(ms.last(), cut) == gone {
        sifted(ms.drop_last(), cut, gone).push(ms.last())
    } else {
        sifted(ms.drop_last(), cut, gone)
    }
}

/// A thread without the messages that are drained.
pub open spec fn drained_thread(t: JsonView, cut: int) -> JsonView {
    match t.items("messages"@) {
        Some(ms) => t.put("messages"@, JsonView::Arr(sifted(ms, cut, false))),
        None => t,
    }
}

/// The messages that are drained from some threads.
pub open spec fn drained_from(ts: Seq<JsonView>, cut: int) -> Seq<JsonView>
    decreases ts.len(),
{
    if ts.len() == 0 {
        seq![]
    } else {
        drained_from(ts.drop_last(), cut) + sifted(messages_of(ts.last()), cut, true)
    }
}

/// The threads without the messages that are drained.
pub open spec fn drained_threads(ts: Seq<JsonView>, cut: int) -> Seq<JsonView> {
    ts.map_values(|t: JsonView| drained_thread(t, cut))
}

/// The name of the archive of a time.
pub open spec fn archive_name(now: u64) -> Seq<char> {
    "agent-bus-"@ + dec(now as nat) + ".json"@
}

/// The bus after the draining, with a record of it.
pub open spec fn drained_bus(data: JsonView, cut: int, now: u64) -> JsonView {
    let d = match data.items("threads"@) {
        Some(ts) => data.put("threads"@, JsonView::Arr(drained_threads(ts, cut))),
        None => data,
    };
    d.put(
        "queue_drain"@,
        JsonView::object().put("last_drain_ts"@, JsonView::Int(now as int)).put(
            "drained_count"@,
            JsonView::Int(drained_from(threads_of(data), cut).len() as int),
        ).put(
            "archive"@,
            JsonView::Str("~/.dsh/queue-drain-backups/"@ + archive_name(now)),
        ),
    )
}

/// Where the archive goes.
pub open spec fn archive_path(home: Seq<char>, now: u64) -> Seq<char> {
    under(under(home, ".dsh/queue-drain-backups"@), archive_name(now))
}

/// What is said of the draining.
pub open spec fn drain_value(gone: Seq<JsonView>, backup: Seq<char>) -> JsonView {
    JsonView::object().put("drained"@, JsonView::Int(gone.len() as int)).put(
        "backup"@,
        JsonView::Str(backup),
    ).put("archived_samples"@, JsonView::Arr(text_values(samples(gone, 3, 50)))).put(
        "note"@,
        JsonView::Str("已归档（备份保留可恢复），queued 清理完成。旧线程可后续归档收敛。"@),
    )
}

/// What the draining writes and says.
pub struct Drained {
    pub backup_path: String,
    pub backup: String,
    pub bus: String,
    pub report: Json,
}

fn seconds_of_message(m: &Json) -> (r: u64)
    ensures
        r == message_seconds(m@),
{
    match m.get("time") {
        Some(Json::Uint(n)) => if *n <= i64::MAX as u64 {
            *n
        } else {
            0
        },
        Some(Json::Int(n)) => *n as u64,
        Some(Json::Str(s)) => parse_ts(s.as_str()),
        _ => 0,
    }
}

fn does_go(m: &Json, cut: u64) -> (r: bool)
    ensures
        r == goes(m@, cut as int),
{
    is_in_state(m, "queued") && (cut == 0 || seconds_of_message(m) < cut)
}

fn sift(ms: &Vec<Json>, cut: u64, gone: &mut Vec<Json>) -> (kept: Vec<Json>)
    ensures
        views(kept@) == sifted(views(ms@), cut as int, false),
        views(final(gone)@) == views(old(gone)@) + sifted(views(ms@), cut as int, true),
{
    let ghost base = views(gone@);
    let ghost t = views(ms@);
    let mut kept: Vec<Json> = Vec::new();
    let mut i: usize = 0;
    assert(t.take(0) =~= seq![]);
    assert(views(kept@) =~= seq![]);
    assert(base + sifted(t.take(0), cut as int, true) =~= base);
    while i < ms.len()
        invariant
            i <= ms@.len(),
            t == views(ms@),
            views(kept@) == sifted(t.take(i as int), cut as int, false),
            views(gone@) == base + sifted(t.take(i as int), cut as int, true),
        decreases ms@.len() - i,
    {
        proof {
            assert(t.take(i + 1).drop_last() =~= t.take(i as int));
            assert(t.take(i + 1).last() == ms@[i as int]@);
        }
        let x = ms[i].copy();
        let ghost xv = x@;
        if does_go(&ms[i], cut) {
            let ghost prev = views(gone@);
            gone.push(x);
            assert(views(gone@) =~= prev.push(xv));
            assert(views(gone@) =~= base + sifted(t.take(i + 1), cut as int, true));
        } else {
            let ghost prev = views(kept@);
            kept.push(x);
            assert(views(kept@) =~= prev.push(xv));
        }
        i += 1;
    }
    assert(t.take(i as int) =~= t);
    kept
}

fn sift_threads(ts: &Vec<Json>, cut: u64, gone: &mut Vec<Json>) -> (r: Vec<Json>)
    requires
        old(gone)@.len() == 0,
    ensures
        views(r@) == drained_threads(views(ts@), cut as int),
        views(final(gone)@) == drained_from(views(ts@), cut as int),
{
    let ghost t = views(ts@);
    let mut out: Vec<Json> = Vec::new();
    let mut i: usize = 0;
    assert(t.take(0) =~= seq![]);
    assert(views(gone@) =~= seq![]);
    while i < ts.len()
        invariant
            i <= ts@.len(),
            t == views(ts@),
            out@.len() == i,
            forall|j: int| 0 <= j < i ==> (#[trigger] out@[j])@ == drained_thread(t[j], cut as int),
            views(gone@) == drained_from(t.take(i as int), cut as int),
        decreases ts@.len() - i,
    {
        proof {
            assert(t.take(i + 1).drop_last() =~= t.take(i as int));
            assert(t.take(i + 1).last() == ts@[i as int]@);
        }
        let x = ts[i].copy();
        match ts[i].items("messages") {
            Some(ms) => {
                let kept = sift(ms, cut, gone);
                out.push(x.with("messages", Json::array(kept)));
            },
            None => {
                out.push(x);
                assert(drained_from(t.take(i + 1), cut as int) =~= drained_from(
                    t.take(i as int),
                    cut as int,
                ));
            },
        }
        i += 1;
    }
    assert(t.take(i as int) =~= t);
    assert(views(out@) =~= drained_threads(t, cut as int));
    out
}

/// Drains the bus: what is written in its place, and what is archived of it. What
/// is to be kept reaches back no further than the clock does.
pub fn drain(data: &Json, home: &str, keep: Option<u64>, now: u64) -> (r: Drained)
    requires
        data@ is Obj || data@ is Null,
        data@.orderly(),
        cutoff(keep, now) >= 0,
    ensures
        r.backup_path@ == archive_path(home@, now),
        r.backup@ == json_text(data@),
        data@.simple(max_depth()) ==> reads_as(r.backup@, data@),
        r.bus@ == json_pretty(drained_bus(data@, cutoff(keep, now), now)),
        r.report@ == drain_value(
            drained_from(threads_of(data@), cutoff(keep, now)),
            archive_path(home@, now),
        ),
{
    broadcast use put_keeps_orderly;

    let cut: u64 = match keep {
        Some(d) => now - d * 86400,
        None => 0,
    };
    let name = cat3("agent-bus-", decimal(now).as_str(), ".json");
    let backup_path = path_under(
        path_under(home, ".dsh/queue-drain-backups").as_str(),
        name.as_str(),
    );
    let mut gone: Vec<Json> = Vec::new();
    assert(views(gone@) =~= seq![]);
    let d = match data.items("threads") {
        Some(ts) => {
            let new = sift_threads(ts, cut, &mut gone);
            proof {
                drained_threads_orderly(data@, cut as int);
            }
            data.copy().with("threads", Json::array(new))
        },
        None => {
            assert(drained_from(threads_of(data@), cut as int) =~= seq![]);
            data.copy()
        },
    };
    assert(views(gone@).len() == gone@.len());
    let record = Json::object().with("last_drain_ts", Json::Uint(now)).with(
        "drained_count",
        Json::Uint(gone.len() as u64),
    ).with("archive", Json::text(cat("~/.dsh/queue-drain-backups/", name.as_str()).as_str()));
    let bus = d.with("queue_drain", record);
    let s = sample_texts(&gone, 3, 50);
    assert(s@.map_values(|t: String| JsonView::Str(t@)) =~= text_values(texts(s@)));
    let report = Json::object().with("drained", Json::Uint(gone.len() as u64)).with(
        "backup",
        Json::text(backup_path.as_str()),
    ).with("archived_samples", Json::text_array(&s)).with(
        "note",
        Json::text("已归档（备份保留可恢复），queued 清理完成。旧线程可后续归档收敛。"),
    );
    Drained { backup_path, backup: compact(data), bus: pretty(&bus), report }
}

/// Whether what is to be kept reaches back no further than the clock does.
pub fn keep_fits(keep: Option<u64>, now: u64) -> (r: bool)
    ensures
        r == (cutoff(keep, now) >= 0),
{
    match keep {
        Some(d) => d as u128 * 86400 <= now as u128,
        None => true,
    }
}

/// The bus could not be read, and why.
pub open spec fn bus_error(m: Seq<char>) -> JsonView {
    JsonView::object().put("error"@, JsonView::Str(m))
}

/// What holds the bus: a value, or why there is none.
pub open spec fn bus_value(content: Result<String, String>) -> Result<JsonView, JsonView> {
    match content {
        Err(e) => Err(bus_error("read fail: "@ + e@)),
        Ok(t) => match json_parsed(t@) {
            Ok(v) => Ok(v),
            Err(_) => Err(bus_error("parse fail"@)),
        },
    }
}

/// Reads the bus from the text of its file.
pub fn read_bus(content: &Result<String, String>) -> (r: Result<Json, Json>)
    ensures
        match r {
            Ok(v) => bus_value(*content) == Ok::<JsonView, JsonView>(v@) && v@.orderly(),
            Err(e) => bus_value(*content) == Err::<JsonView, JsonView>(e@),
        },
{
    match content {
        Err(e) => Err(
            Json::object().with("error", Json::text(cat("read fail: ", e.as_str()).as_str())),
        ),
        Ok(t) => match parse(t.as_str()) {
            Ok(v) => Ok(v),
            Err(_) => Err(Json::object().with("error", Json::text("parse fail"))),
        },
    }
}

/// What came of draining the file of the bus.
pub enum DrainOutcome {
    /// The bus could not be read.
    Failed(Json),
    /// The bus was drained.
    Done(Drained),
    /// What is to be kept reaches back further than the clock does, or the file holds
    /// no bus.
    Impossible,
}

/// Drains the bus, given the text of its file.
pub fn drain_file(
    content: &Result<String, String>,
    home: &str,
    keep: Option<u64>,
    now: u64,
) -> (r: DrainOutcome)
    ensures
        match bus_value(*content) {
            Err(e) => r matches DrainOutcome::Failed(j) && j@ == e,
            Ok(v) => if cutoff(keep, now) >= 0 && (v is Obj || v is Null) {
                r matches DrainOutcome::Done(d) && d.backup_path@ == archive_path(home@, now)
                    && d.backup@ == json_text(v) && d.bus@ == json_pretty(
                    drained_bus(v, cutoff(keep, now), now),
                ) && d.report@ == drain_value(
                    drained_from(threads_of(v), cutoff(keep, now)),
                    archive_path(home@, now),
                )
            } else {
                r is Impossible
            },
        },
{
    match read_bus(content) {
        Err(e) => DrainOutcome::Failed(e),
        Ok(v) => {
            if !keep_fits(keep, now) {
                return DrainOutcome::Impossible;
            }
            match &v {
                Json::Obj(_) => DrainOutcome::Done(drain(&v, home, keep, now)),
                Json::Null => DrainOutcome::Done(drain(&v, home, keep, now)),
                _ => DrainOutcome::Impossible,
            }
        },
    }
}

// ---------------------------------------------------------------- the command

/// What the command does.
#[derive(Clone, Copy, PartialEq, Eq, Structural, Debug)]
pub enum DrainMode {
    Scan,
    Drain,
    Summary,
}

/// The arguments of the command.
pub struct DrainArgs {
    pub mode: DrainMode,
    pub keep: Option<u64>,
}

/// The days that a text gives: a number, with or without a `d` behind it.
pub open spec fn days_given(s: Seq<char>) -> Option<nat> {
    match uint_of(s, false, u64::MAX as nat) {
        Some(n) => Some(n),
        None => if ends(s, "d"@) {
            uint_of(s.take(s.len() - 1), false, u64::MAX as nat)
        } else {
            None
        },
    }
}

/// The mode that a word asks for.
pub open spec fn mode_of(w: Option<Seq<char>>) -> DrainMode {
    if w == Some("--drain"@) {
        DrainMode::Drain
    } else if w == Some("--summary"@) {
        DrainMode::Summary
    } else {
        DrainMode::Scan
    }
}

fn read_days(s: &str) -> (r: Option<u64>)
    ensures
        match r {
            Some(n) => days_given(s@) == Some(n as nat),
            None => days_given(s@) is None,
        },
{
    if let Some(n) = read_u64(s) {
        return Some(n);
    }
    if finishes(s, "d") {
        proof {
            reveal_strlit("d");
        }
        let n: usize = chars_of(s).len();
        let t = slice(s, 0, n - 1);
        assert(s@.subrange(0, n - 1) =~= s@.take(n - 1));
        return read_u64(t.as_str());
    }
    None
}

/// Reads the arguments: the last of the modes counts.
pub fn drain_args(args: &[String]) -> (r: DrainArgs)
    ensures
        ({
            let o = options(texts(args@), seq!["--keep"@]);
            let w = plain_words(texts(args@), seq!["--keep"@]);
            &&& r.mode == mode_of(last_word(w, seq!["--scan"@, "--drain"@, "--summary"@]))
            &&& match r.keep {
                Some(n) => last_value(o, "--keep"@) matches Some(v) && days_given(v) == Some(
                    n as nat,
                ),
                None => last_value(o, "--keep"@) matches Some(v) ==> days_given(v) is None,
            }
        }),
{
    let valued = ["--keep"];
    let modes = ["--scan", "--drain", "--summary"];
    let a = read_args(args, &valued);
    assert(names(valued@) =~= seq!["--keep"@]);
    assert(names(modes@) =~= seq!["--scan"@, "--drain"@, "--summary"@]);
    let mode = match a.last_word(&modes) {
        Some(w) => if same(w.as_str(), "--drain") {
            DrainMode::Drain
        } else if same(w.as_str(), "--summary") {
            DrainMode::Summary
        } else {
            DrainMode::Scan
        },
        None => DrainMode::Scan,
    };
    let keep = match a.value("--keep") {
        Some(v) => read_days(v.as_str()),
        None => None,
    };
    DrainArgs { mode, keep }
}

/// The value under a key, as it is written.
pub open spec fn written(r: JsonView, k: Seq<char>) -> Seq<char> {
    json_text(r.at(k).canon())
}

/// The first `n` of some lines.
pub open spec fn lines_for(vs: Seq<JsonView>, n: nat, f: spec_fn(JsonView) -> Seq<char>) -> Seq<
    Seq<char>,
> {
    Seq::new(
        if vs.len() < n {
            vs.len()
        } else {
            n
        },
        |i: int| f(vs[i]),
    )
}

/// A sender as a line.
pub open spec fn sender_line() -> spec_fn(JsonView) -> Seq<char> {
    |s: JsonView| "    · "@ + written(s, "from"@) + " ("@ + written(s, "count"@) + " 条)"@
}

/// A text as a line.
pub open spec fn text_line(head: Seq<char>) -> spec_fn(JsonView) -> Seq<char> {
    |x: JsonView| head + crate::json::text_of(x)
}

/// What is printed of the pile.
pub open spec fn scan_lines(r: JsonView) -> Seq<Seq<char>> {
    let senders = match r.items("top_senders"@) {
        Some(a) => seq!["  TOP 发送方:"@] + lines_for(a, 3, sender_line()),
        None => seq![],
    };
    let samples = match r.items("sample_queued"@) {
        Some(a) => if a.len() > 0 {
            seq!["  queued 示例:"@] + lines_for(a, 2, text_line("    · "@))
        } else {
            seq![]
        },
        None => seq![],
    };
    seq![
        "══ queue-drain 堆积扫描 ══"@,
        "  线程总数: "@ + written(r, "total_threads"@),
        "  queued: "@ + written(r, "queued"@) + " | delivered: "@ + written(r, "delivered"@),
        "  堆积比例: "@ + written(r, "queued_ratio"@),
    ] + senders + samples + seq!["  建议: --drain 抽走 queued（备份保留）| --keep 7d 保留近期"@]
}

/// What is printed of the draining.
pub open spec fn drain_lines(r: JsonView) -> Seq<Seq<char>> {
    seq![
        "══ queue-drain 抽走 ══"@,
        "  抽走 queued: "@ + written(r, "drained"@),
        "  备份: "@ + written(r, "backup"@),
    ] + (match r.items("archived_samples"@) {
        Some(a) => lines_for(a, 2, text_line("  归档示例: · "@)),
        None => seq![],
    }) + seq!["  "@ + written(r, "note"@)]
}

fn write_value(r: &Json, k: &str) -> (s: String)
    ensures
        s@ == written(r@, k@),
{
    compact(&r.at(k))
}

fn say_texts(l: &mut Vec<String>, a: &Vec<Json>, n: usize, head: &str)
    ensures
        texts(final(l)@) == texts(old(l)@) + lines_for(views(a@), n as nat, text_line(head@)),
{
    let ghost base = texts(l@);
    let ghost w = lines_for(views(a@), n as nat, text_line(head@));
    let k: usize = if a.len() < n {
        a.len()
    } else {
        n
    };
    let mut i: usize = 0;
    assert(base + w.take(0) =~= base);
    while i < k
        invariant
            i <= k == w.len(),
            k <= a@.len(),
            w == lines_for(views(a@), n as nat, text_line(head@)),
            texts(l@) == base + w.take(i as int),
        decreases k - i,
    {
        assert(w[i as int] == head@ + crate::json::text_of(a@[i as int]@));
        let t = crate::json::value_text(&a[i]);
        say(l, cat(head, t.as_str()).as_str());
        assert(texts(l@) =~= base + w.take(i + 1));
        i += 1;
    }
    assert(w.take(i as int) =~= w);
}

fn say_senders(l: &mut Vec<String>, a: &Vec<Json>)
    ensures
        texts(final(l)@) == texts(old(l)@) + lines_for(views(a@), 3, sender_line()),
{
    let ghost base = texts(l@);
    let ghost w = lines_for(views(a@), 3, sender_line());
    let k: usize = if a.len() < 3 {
        a.len()
    } else {
        3
    };
    let mut i: usize = 0;
    assert(base + w.take(0) =~= base);
    while i < k
        invariant
            i <= k == w.len(),
            k <= a@.len(),
            w == lines_for(views(a@), 3, sender_line()),
            texts(l@) == base + w.take(i as int),
        decreases k - i,
    {
        let f = write_value(&a[i], "from");
        let c = write_value(&a[i], "count");
        assert(w[i as int] == sender_line()(a@[i as int]@));
        say(l, cat5("    · ", f.as_str(), " (", c.as_str(), " 条)").as_str());
        assert(texts(l@) =~= base + w.take(i + 1));
        i += 1;
    }
    assert(w.take(i as int) =~= w);
}

/// What is printed of the pile.
pub fn scan_report(r: &Json) -> (l: Vec<String>)
    ensures
        texts(l@) == scan_lines(r@),
{
    let mut l: Vec<String> = Vec::new();
    say(&mut l, "══ queue-drain 堆积扫描 ══");
    say(&mut l, cat("  线程总数: ", write_value(r, "total_threads").as_str()).as_str());
    let q = write_value(r, "queued");
    let d = write_value(r, "delivered");
    let mut line = cat3("  queued: ", q.as_str(), " | delivered: ");
    line.append(d.as_str());
    say(&mut l, line.as_str());
    say(&mut l, cat("  堆积比例: ", write_value(r, "queued_ratio").as_str()).as_str());
    let ghost head = texts(l@);
    let ghost senders = match r@.items("top_senders"@) {
        Some(a) => seq!["  TOP 发送方:"@] + lines_for(a, 3, sender_line()),
        None => seq![],
    };
    if let Some(a) = r.items("top_senders") {
        say(&mut l, "  TOP 发送方:");
        say_senders(&mut l, a);
    }
    assert(texts(l@) =~= head + senders);
    if let Some(a) = r.items("sample_queued") {
        assert(views(a@).len() == a@.len());
        if a.len() > 0 {
            say(&mut l, "  queued 示例:");
            say_texts(&mut l, a, 2, "    · ");
        }
    }
    say(&mut l, "  建议: --drain 抽走 queued（备份保留）| --keep 7d 保留近期");
    assert(texts(l@) =~= scan_lines(r@));
    l
}

/// What is printed of the draining.
pub fn drain_report(r: &Json) -> (l: Vec<String>)
    ensures
        texts(l@) == drain_lines(r@),
{
    let mut l: Vec<String> = Vec::new();
    say(&mut l, "══ queue-drain 抽走 ══");
    say(&mut l, cat("  抽走 queued: ", write_value(r, "drained").as_str()).as_str());
    say(&mut l, cat("  备份: ", write_value(r, "backup").as_str()).as_str());
    if let Some(a) = r.items("archived_samples") {
        say_texts(&mut l, a, 2, "  归档示例: · ");
    }
    say(&mut l, cat("  ", write_value(r, "note").as_str()).as_str());
    assert(texts(l@) =~= drain_lines(r@));
    l
}

/// What is printed of the pile: lines, or a value where a summary is asked for.
pub fn scan_output(mode: DrainMode, r: &Json) -> (l: Vec<String>)
    ensures
        texts(l@) == if mode == DrainMode::Summary {
            seq![json_pretty(r@.canon())]
        } else {
            scan_lines(r@)
        },
{
    if mode == DrainMode::Summary {
        let mut l: Vec<String> = Vec::new();
        say(&mut l, pretty(r).as_str());
        assert(texts(l@) =~= seq![json_pretty(r@.canon())]);
        l
    } else {
        scan_report(r)
    }
}

// ---------------------------------------------------------------- laws

proof fn sifted_from(ms: Seq<JsonView>, cut: int, gone: bool)
    ensures
        forall|i: int|
            0 <= i < sifted(ms, cut, gone).len() ==> ms.contains(
                #[trigger] sifted(ms, cut, gone)[i],
            ) && goes(sifted(ms, cut, gone)[i], cut) == gone,
    decreases ms.len(),
{
    if ms.len() > 0 {
        let d = ms.drop_last();
        sifted_from(d, cut, gone);
        let s = sifted(ms, cut, gone);
        let sd = sifted(d, cut, gone);
        assert forall|i: int| 0 <= i < s.len() implies ms.contains(#[trigger] s[i]) && goes(
            s[i],
            cut,
        ) == gone by {
            if i < sd.len() {
                assert(s[i] == sd[i]);
                let k = choose|k: int| 0 <= k < d.len() && d[k] == sd[i];
                assert(ms[k] == s[i]);
            } else {
                assert(ms[ms.len() - 1] == s[i]);
            }
        }
    }
}

proof fn drained_thread_orderly(t: JsonView, cut: int)
    requires
        t.orderly(),
    ensures
        drained_thread(t, cut).orderly(),
{
    broadcast use put_keeps_orderly;

    crate::json::at_keeps_orderly(t, "messages"@);
    if let Some(ms) = t.items("messages"@) {
        sifted_from(ms, cut, false);
        let k = sifted(ms, cut, false);
        assert forall|i: int| 0 <= i < k.len() implies (#[trigger] k[i]).orderly() by {
            let j = choose|j: int| 0 <= j < ms.len() && ms[j] == k[i];
            assert(ms[j].orderly());
        }
        assert(JsonView::Arr(k).orderly());
    }
}

proof fn drained_threads_orderly(data: JsonView, cut: int)
    requires
        data.orderly(),
        data.items("threads"@) is Some,
    ensures
        JsonView::Arr(drained_threads(threads_of(data), cut)).orderly(),
{
    crate::json::at_keeps_orderly(data, "threads"@);
    let ts = threads_of(data);
    let d = drained_threads(ts, cut);
    assert forall|i: int| 0 <= i < d.len() implies (#[trigger] d[i]).orderly() by {
        assert(ts[i].orderly());
        drained_thread_orderly(ts[i], cut);
    }
}

/// The draining of a thread loses no message: those that stay and those that are archived
/// are all that there were.
pub proof fn draining_keeps_messages(ms: Seq<JsonView>, cut: int)
    ensures
        sifted(ms, cut, true).to_multiset().add(sifted(ms, cut, false).to_multiset())
            == ms.to_multiset(),
    decreases ms.len(),
{
    broadcast use vstd::seq_lib::group_to_multiset_ensures;

    let a = sifted(ms, cut, true);
    let b = sifted(ms, cut, false);
    if ms.len() == 0 {
        assert(a.to_multiset().add(b.to_multiset()) =~= ms.to_multiset());
    } else {
        draining_keeps_messages(ms.drop_last(), cut);
        assert(ms.drop_last().push(ms.last()) =~= ms);
        assert(a.to_multiset().add(b.to_multiset()) =~= ms.to_multiset());
    }
}

proof fn kept_of_thread(t: JsonView, cut: int)
    ensures
        messages_of(drained_thread(t, cut)) == sifted(messages_of(t), cut, false),
{
    if let Some(ms) = t.items("messages"@) {
        put_then_get(t, "messages"@, JsonView::Arr(sifted(ms, cut, false)), "messages"@);
    }
}

/// The draining of the bus loses no message: those that stay in the threads and those
/// that are archived are all that there were.
pub proof fn drained_bus_keeps_messages(ts: Seq<JsonView>, cut: int)
    ensures
        drained_from(ts, cut).to_multiset().add(
            all_messages(drained_threads(ts, cut)).to_multiset(),
        ) == all_messages(ts).to_multiset(),
    decreases ts.len(),
{
    broadcast use vstd::seq_lib::group_to_multiset_ensures;

    let left = all_messages(drained_threads(ts, cut));
    if ts.len() == 0 {
        assert(drained_threads(ts, cut) =~= seq![]);
        assert(drained_from(ts, cut).to_multiset().add(left.to_multiset())
            =~= all_messages(ts).to_multiset());
    } else {
        let d = ts.drop_last();
        let m = messages_of(ts.last());
        drained_bus_keeps_messages(d, cut);
        draining_keeps_messages(m, cut);
        kept_of_thread(ts.last(), cut);
        assert(drained_threads(ts, cut).drop_last() =~= drained_threads(d, cut));
        assert(drained_threads(ts, cut).last() == drained_thread(ts.last(), cut));
        let (g, k) = (drained_from(d, cut), all_messages(drained_threads(d, cut)));
        let (gm, km) = (sifted(m, cut, true), sifted(m, cut, false));
        vstd::seq_lib::lemma_multiset_commutative(g, gm);
        vstd::seq_lib::lemma_multiset_commutative(k, km);
        vstd::seq_lib::lemma_multiset_commutative(all_messages(d), m);
        assert(left == k + km);
        assert(drained_from(ts, cut).to_multiset().add(left.to_multiset())
            =~= all_messages(ts).to_multiset());
    }
}

/// A second draining finds nothing more to drain on the bus.
pub proof fn drained_bus_stays(ts: Seq<JsonView>, cut: int)
    ensures
        drained_from(drained_threads(ts, cut), cut).len() == 0,
    decreases ts.len(),
{
    if ts.len() > 0 {
        let t = drained_threads(ts, cut);
        drained_bus_stays(ts.drop_last(), cut);
        drained_thread_stays(ts.last(), cut);
        assert(t.drop_last() =~= drained_threads(ts.drop_last(), cut));
        assert(t.last() == drained_thread(ts.last(), cut));
    }
}

/// The top senders are those with the most messages: each is counted as often as it sent,
/// they stand by these numbers, and no sender that is left out sent more than one of them.
pub proof fn top_senders_sent_most(ms: Seq<JsonView>)
    ensures
        top_senders(ms).len() <= 5,
        forall|i: int|
            0 <= i < ranked_senders(ms).len() ==> (#[trigger] ranked_senders(ms)[i]).1 == senders(
                ms,
            ).to_multiset().count(ranked_senders(ms)[i].0),
        forall|i: int, j: int|
            0 <= i < j < ranked_senders(ms).len() ==> (#[trigger] ranked_senders(ms)[i]).1 >= (
            #[trigger] ranked_senders(ms)[j]).1,
        forall|i: int|
            0 <= i < top_senders(ms).len() ==> #[trigger] top_senders(ms)[i] == ranked_senders(
                ms,
            )[i],
{
    let c = counts(senders(ms));
    let r = ranked_senders(ms);
    let keys = c.map_values(|x: (Seq<char>, nat)| x.1 as int);
    let p = falling(keys);
    let o = order(c.len(), p);
    order_keeps_positions(c.len(), p);
    falling_ranks(keys);
    order_is_sorted(c.len(), p);
    assert forall|i: int| 0 <= i < r.len() implies (#[trigger] r[i]).1 == senders(
        ms,
    ).to_multiset().count(r[i].0) by {
        assert(o.contains(o[i]));
        counts_occurrences(senders(ms), r[i].0);
        own_count(c, o[i]);
    }
    assert forall|i: int, j: int| 0 <= i < j < r.len() implies (#[trigger] r[i]).1 >= (
    #[trigger] r[j]).1 by {
        assert(o.contains(o[i]));
        assert(o.contains(o[j]));
        assert(!p(o[j], o[i]));
    }
}

/// Only queued messages are drained, and where some days are kept only such as are
/// older than these.
pub proof fn only_old_queued_go(ts: Seq<JsonView>, cut: int, i: int)
    requires
        0 <= i < drained_from(ts, cut).len(),
    ensures
        drained_from(ts, cut)[i].text_or("status"@, seq![]) == "queued"@,
        cut > 0 ==> message_seconds(drained_from(ts, cut)[i]) < cut,
    decreases ts.len(),
{
    if ts.len() > 0 {
        let a = drained_from(ts.drop_last(), cut);
        let m = messages_of(ts.last());
        sifted_from(m, cut, true);
        if i < a.len() {
            only_old_queued_go(ts.drop_last(), cut, i);
            assert(drained_from(ts, cut)[i] == a[i]);
        } else {
            assert(drained_from(ts, cut)[i] == sifted(m, cut, true)[i - a.len()]);
        }
    }
}

/// A second draining finds nothing more to drain in a thread.
pub proof fn drained_thread_stays(t: JsonView, cut: int)
    ensures
        sifted(messages_of(drained_thread(t, cut)), cut, true).len() == 0,
{
    match t.items("messages"@) {
        Some(ms) => {
            let k = sifted(ms, cut, false);
            put_then_get(t, "messages"@, JsonView::Arr(k), "messages"@);
            sifted_from(ms, cut, false);
            nothing_goes(k, cut);
        },
        None => {},
    }
}

proof fn nothing_goes(ms: Seq<JsonView>, cut: int)
    requires
        forall|i: int| 0 <= i < ms.len() ==> !goes(#[trigger] ms[i], cut),
    ensures
        sifted(ms, cut, true).len() == 0,
    decreases ms.len(),
{
    if ms.len() > 0 {
        assert(!goes(ms[ms.len() - 1], cut));
        let d = ms.drop_last();
        assert forall|i: int| 0 <= i < d.len() implies !goes(#[trigger] d[i], cut) by {
            assert(d[i] == ms[i]);
        }
        nothing_goes(d, cut);
    }
}

/// The messages are sifted one by one, in their order: each that is drained or stays stands
/// where it stood among the others.
pub proof fn sifting_keeps_order(a: Seq<JsonView>, b: Seq<JsonView>, cut: int, gone: bool)
    ensures
        sifted(a + b, cut, gone) == sifted(a, cut, gone) + sifted(b, cut, gone),
    decreases b.len(),
{
    if b.len() == 0 {
        assert(a + b =~= a);
        assert(sifted(a, cut, gone) + sifted(b, cut, gone) =~= sifted(a, cut, gone));
    } else {
        assert((a + b).drop_last() =~= a + b.drop_last());
        sifting_keeps_order(a, b.drop_last(), cut, gone);
        assert(sifted(a + b, cut, gone) =~= sifted(a, cut, gone) + sifted(b, cut, gone));
    }
}

proof fn sifted_holds(ms: Seq<JsonView>, cut: int, gone: bool, m: JsonView)
    ensures
        sifted(ms, cut, gone).contains(m) <==> ms.contains(m) && goes(m, cut) == gone,
    decreases ms.len(),
{
    sifted_from(ms, cut, gone);
    let s = sifted(ms, cut, gone);
    if s.contains(m) {
        let i = choose|i: int| 0 <= i < s.len() && s[i] == m;
        assert(ms.contains(s[i]));
    }
    if ms.contains(m) && goes(m, cut) == gone {
        let k = choose|k: int| 0 <= k < ms.len() && ms[k] == m;
        let d = ms.drop_last();
        let sd = sifted(d, cut, gone);
        if k < d.len() {
            assert(d[k] == m);
            sifted_holds(d, cut, gone, m);
            let j = choose|j: int| 0 <= j < sd.len() && sd[j] == m;
            assert(s[j] == m);
        } else {
            assert(s[s.len() - 1] == m);
        }
    }
}

proof fn drained_holds(ts: Seq<JsonView>, cut: int, a: int, m: JsonView)
    requires
        0 <= a < ts.len(),
        messages_of(ts[a]).contains(m),
    ensures
        drained_from(ts, cut).contains(m) == goes(m, cut),
        messages_of(drained_threads(ts, cut)[a]).contains(m) == !goes(m, cut),
    decreases ts.len(),
{
    kept_of_thread(ts[a], cut);
    sifted_holds(messages_of(ts[a]), cut, false, m);
    sifted_holds(messages_of(ts[a]), cut, true, m);
    let g = drained_from(ts, cut);
    let h = drained_from(ts.drop_last(), cut);
    let l = sifted(messages_of(ts.last()), cut, true);
    if goes(m, cut) {
        if a < ts.len() - 1 {
            assert(ts.drop_last()[a] == ts[a]);
            drained_holds(ts.drop_last(), cut, a, m);
            let k = choose|k: int| 0 <= k < h.len() && h[k] == m;
            assert(g[k] == m);
        } else {
            let k = choose|k: int| 0 <= k < l.len() && l[k] == m;
            assert(g[h.len() + k] == m);
        }
    } else if g.contains(m) {
        let k = choose|k: int| 0 <= k < g.len() && g[k] == m;
        all_drained_go(ts, cut, k);
    }
}

proof fn all_drained_go(ts: Seq<JsonView>, cut: int, i: int)
    requires
        0 <= i < drained_from(ts, cut).len(),
    ensures
        goes(drained_from(ts, cut)[i], cut),
    decreases ts.len(),
{
    if ts.len() > 0 {
        let a = drained_from(ts.drop_last(), cut);
        let m = messages_of(ts.last());
        sifted_from(m, cut, true);
        if i < a.len() {
            all_drained_go(ts.drop_last(), cut, i);
        } else {
            assert(drained_from(ts, cut)[i] == sifted(m, cut, true)[i - a.len()]);
        }
    }
}

/// A queued message with its time as a number, in seconds, is taken off the bus where it is
/// older than the days to be kept, and stays in its thread otherwise; one that is not
/// queued stays, and where no days are kept every queued one is taken.
pub proof fn days_are_kept(ts: Seq<JsonView>, a: int, m: JsonView, keep: u64, now: u64, t: int)
    requires
        0 <= a < ts.len(),
        ts[a].items("messages"@) matches Some(ms) && ms.contains(m),
        m.at("time"@) == JsonView::Int(t),
        0 <= t <= i64::MAX,
        now - keep * 86400 > 0,
    ensures
        ({
            let queued = m.text_or("status"@, seq![]) == "queued"@;
            let old = t < now - keep * 86400;
            let some = cutoff(Some(keep), now);
            let none = cutoff(None, now);
            &&& drained_from(ts, some).contains(m) <==> queued && old
            &&& messages_of(drained_threads(ts, some)[a]).contains(m) <==> !(queued && old)
            &&& drained_from(ts, none).contains(m) <==> queued
            &&& messages_of(drained_threads(ts, none)[a]).contains(m) <==> !queued
        }),
{
    drained_holds(ts, cutoff(Some(keep), now), a, m);
    drained_holds(ts, cutoff(None, now), a, m);
}

/// A queued message with its time as a text is taken off the bus exactly where the seconds
/// of that time are before the days to be kept.
pub proof fn days_are_kept_by_text(
    ts: Seq<JsonView>,
    a: int,
    m: JsonView,
    keep: u64,
    now: u64,
    s: Seq<char>,
)
    requires
        0 <= a < ts.len(),
        ts[a].items("messages"@) matches Some(ms) && ms.contains(m),
        m.at("time"@) == JsonView::Str(s),
        m.text_or("status"@, seq![]) == "queued"@,
        now - keep * 86400 > 0,
    ensures
        drained_from(ts, cutoff(Some(keep), now)).contains(m) <==> seconds_given(s) < now - keep
            * 86400,
{
    drained_holds(ts, cutoff(Some(keep), now), a, m);
}

/// A number of days is read as it is, with a `d` behind it or without.
pub proof fn days_are_read(n: nat)
    requires
        n <= u64::MAX,
    ensures
        days_given(dec(n)) == Some(n),
        days_given(dec(n) + "d"@) == Some(n),
{
    reveal_strlit("d");
    dec_is_plain(n);
    dec_round_trip(n, u64::MAX as nat);
    let s = dec(n) + "d"@;
    let k = dec(n).len() as int;
    assert(s[k] == 'd');
    other_texts_are_no_numbers(s, k, u64::MAX as nat);
    assert(s.subrange(k, k + 1) =~= "d"@);
    assert(s.take(k) =~= dec(n));
}

/// The messages of the bus are those of its threads in a row, and the ones in a state stay in
/// their order.
pub proof fn messages_are_gathered(
    ts: Seq<JsonView>,
    t: JsonView,
    a: Seq<JsonView>,
    ms: Seq<JsonView>,
    m: JsonView,
    st: Seq<char>,
)
    ensures
        t.at("messages"@) == JsonView::Arr(a) ==> all_messages(ts.push(t)) == all_messages(ts) + a,
        in_state(ms.push(m), st) == if m.text_or("status"@, seq![]) == st {
            in_state(ms, st).push(m)
        } else {
            in_state(ms, st)
        },
        all_messages(seq![]).len() == 0,
        in_state(seq![], st).len() == 0,
{
    assert(ts.push(t).drop_last() =~= ts);
    assert(ms.push(m).drop_last() =~= ms);
}

/// The first texts are shown, as many as are asked for, each cut at its width.
pub proof fn first_texts_are_shown(ms: Seq<JsonView>, n: nat, width: nat, i: int, t: Seq<char>)
    requires
        0 <= i < samples(ms, n, width).len(),
        ms[i].at("text"@) == JsonView::Str(t),
    ensures
        samples(ms, n, width).len() <= n,
        samples(ms, n, width).len() == n || samples(ms, n, width).len() == ms.len(),
        t.len() <= width ==> samples(ms, n, width)[i] == t,
        samples(ms, n, width)[i].len() <= width,
{
}

/// The scan tells how many threads there are, how many messages wait and how many arrived,
/// and at most five senders.
pub proof fn piles_are_told(data: JsonView, now: u64, ratio: Seq<char>)
    ensures
        ({
            let v = pile_value(data, now, ratio);
            let ms = all_messages(threads_of(data));
            &&& v.at("ts"@) == JsonView::Int(now as int)
            &&& v.at("total_threads"@) == JsonView::Int(threads_of(data).len() as int)
            &&& v.at("queued"@) == JsonView::Int(in_state(ms, "queued"@).len() as int)
            &&& v.at("delivered"@) == JsonView::Int(in_state(ms, "delivered"@).len() as int)
            &&& v.at("queued_ratio"@) == JsonView::Str(ratio)
            &&& v.at("top_senders"@) matches JsonView::Arr(a) && a.len() <= 5
            &&& v.at("sample_queued"@) matches JsonView::Arr(b) && b.len() <= 3
        }),
{
    broadcast use read_of_put;

    reveal_strlit("ts");
    reveal_strlit("total_threads");
    reveal_strlit("queued");
    reveal_strlit("delivered");
    reveal_strlit("queued_ratio");
    reveal_strlit("top_senders");
    reveal_strlit("sample_queued");
    assert("ts"@.len() == 2 && "total_threads"@.len() == 13 && "queued"@.len() == 6 && "delivered"@.len() == 9 && "queued_ratio"@.len() == 12 && "top_senders"@.len() == 11 && "sample_queued"@.len() == 13);
    assert("total_threads"@[0] != "sample_queued"@[0]);
}

/// After the draining the bus holds the threads without what was drained, and says when that
/// was, how much it was and where it went; the rest of it stays.
pub proof fn draining_is_recorded(data: JsonView, ts: Seq<JsonView>, cut: int, now: u64, k: Seq<char>)
    requires
        data.at("threads"@) == JsonView::Arr(ts),
        k != "threads"@,
        k != "queue_drain"@,
    ensures
        ({
            let d = drained_bus(data, cut, now);
            let r = d.at("queue_drain"@);
            &&& d.at("threads"@) == JsonView::Arr(drained_threads(ts, cut))
            &&& d.at(k) == data.at(k)
            &&& r.at("last_drain_ts"@) == JsonView::Int(now as int)
            &&& r.at("drained_count"@) == JsonView::Int(drained_from(ts, cut).len() as int)
            &&& r.at("archive"@) == JsonView::Str(
                "~/.dsh/queue-drain-backups/"@ + ("agent-bus-"@ + dec(now as nat) + ".json"@),
            )
        }),
{
    broadcast use read_of_put;

    reveal_strlit("threads");
    reveal_strlit("queue_drain");
    reveal_strlit("last_drain_ts");
    reveal_strlit("drained_count");
    reveal_strlit("archive");
    assert("threads"@.len() == 7 && "queue_drain"@.len() == 11 && "last_drain_ts"@.len() == 13 && "drained_count"@.len() == 13 && "archive"@.len() == 7);
    assert("threads"@[0] != "archive"@[0]);
    assert("last_drain_ts"@[0] != "drained_count"@[0]);
}

/// Every sender of a message is ranked, and of two that sent equally much the one whose name
/// comes first stands first.
pub proof fn every_sender_is_ranked(ms: Seq<JsonView>, k: int, i: int, j: int)
    ensures
        0 <= k < ms.len() ==> exists|m: int|
            0 <= m < ranked_senders(ms).len() && (#[trigger] ranked_senders(ms)[m]).0
                == ms[k].text_or("from"@, "?"@),
        0 <= i < j < ranked_senders(ms).len() && ranked_senders(ms)[i].1 == ranked_senders(
            ms,
        )[j].1 ==> text_lt(ranked_senders(ms)[i].0, ranked_senders(ms)[j].0),
{
    let s = senders(ms);
    let c = counts(s);
    let keys = c.map_values(|x: (Seq<char>, nat)| x.1 as int);
    let p = falling(keys);
    let o = order(c.len(), p);
    let all = ranked_senders(ms);
    order_keeps_positions(c.len(), p);
    if 0 <= k < ms.len() {
        counted_texts_stand(s, s[k]);
        assert(s.contains(s[k]));
        let n = choose|n: int| 0 <= n < c.len() && (#[trigger] c[n]).0 == s[k];
        assert(o.contains(n));
        let m = choose|m: int| 0 <= m < o.len() && o[m] == n;
        assert(all[m].0 == s[k]);
    }
    if 0 <= i < j < all.len() && all[i].1 == all[j].1 {
        order_is_stable(c.len(), p, i, j);
        assert(o.contains(o[i]) && o.contains(o[j]));
        assert(all[i].1 == c[o[i]].1 && all[j].1 == c[o[j]].1);
        assert(!p(o[i], o[j]));
        crate::table::counts_occurrences(s, all[i].0);
        assert(ascending(c));
        assert(text_lt(c[o[i]].0, c[o[j]].0));
    }
}

/// A bus is drained only where that was asked for, and summed up only where that was; else it
/// is looked at.
pub proof fn modes_are_asked_for(w: Seq<char>)
    ensures
        mode_of(Some(w)) is Drain <==> w == "--drain"@,
        mode_of(Some(w)) is Summary <==> w == "--summary"@,
        mode_of(None) is Scan,
{
    reveal_strlit("--drain");
    reveal_strlit("--summary");
    assert("--drain"@.len() == 7 && "--summary"@.len() == 9);
}

} // verus!
