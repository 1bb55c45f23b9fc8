//! Reports of messages that did not concern their receiver, and who sends them.
use vstd::prelude::*;
use crate::args::{last_value, names, number_or, options, plain_words, read_args, value_or};
use crate::json::{
    entry_views, entry_views_by_index, json_pretty, pretty, quote, quoted, read_of_put, views,
    Json, JsonView,
};
use crate::num::{dec, decimal};
use crate::order::{
    arranged, at_most, falling, falling_ranks, order, order_falling, order_is_sorted,
    order_is_stable, order_keeps_positions, positions,
};
use crate::report::{say, Outcome};
use crate::stamp::{is_recent, recent, seconds_in, seconds_of, since, window_start};
use crate::table::{
    ascending, count_texts, count_views, counted_texts_stand, counts, counts_occurrences,
    own_count,
};
use crate::text::{
    begins, cat, cat3, cat4, cat5, first, first_chars, join, joined, parts_are_seen, same, starts,
    text_lt, texts,
};

verus! {

// ---------------------------------------------------------------- reporting

/// The arguments of a report.
pub struct ReportArgs {
    pub from: String,
    pub to: String,
    pub why: String,
    pub key: String,
}

/// The options of a report that take a value.
pub open spec fn report_valued() -> Seq<Seq<char>> {
    seq!["--from"@, "--to"@, "--why"@, "--key"@]
}

/// Reads the arguments of a report.
pub fn noise_report_args(args: &[String]) -> (r: ReportArgs)
    ensures
        ({
            let o = options(texts(args@), report_valued());
            &&& r.from@ == value_or(o, "--from"@, seq![])
            &&& r.to@ == value_or(o, "--to"@, seq![])
            &&& r.why@ == value_or(o, "--why"@, seq![])
            &&& r.key@ == value_or(o, "--key"@, seq![])
        }),
{
    let valued = ["--from", "--to", "--why", "--key"];
    let a = read_args(args, &valued);
    assert(names(valued@) =~= report_valued());
    proof {
        reveal_strlit("");
        assert(""@ =~= seq![]);
    }
    ReportArgs {
        from: a.value_or("--from", ""),
        to: a.value_or("--to", ""),
        why: a.value_or("--why", ""),
        key: a.value_or("--key", ""),
    }
}

/// A report that names the sender and a reason.
pub open spec fn complete(from: Seq<char>, why: Seq<char>) -> bool {
    from.len() > 0 && why.len() > 0
}

/// What is printed of a report that lacks the sender or the reason; nothing of one
/// that can be filed.
pub fn report_refusal(a: &ReportArgs) -> (r: Option<String>)
    ensures
        match r {
            Some(m) => !complete(a.from@, a.why@) && m@
                == "用法: dsh-tools noise-report --from <发送方> --to <自己> --why <为何无关> [--key <消息key>]"@,
            None => complete(a.from@, a.why@),
        },
{
    if a.from.as_str().is_empty() || a.why.as_str().is_empty() {
        Some(
            "用法: dsh-tools noise-report --from <发送方> --to <自己> --why <为何无关> [--key <消息key>]".to_owned(),
        )
    } else {
        None
    }
}

/// Where a report is filed.
pub open spec fn report_key(ts: u64, from: Seq<char>) -> Seq<char> {
    "data/audit/noise-reports/n-"@ + dec(ts as nat) + "-"@ + first(from, 8)
}

/// Where a report is filed.
pub fn report_place(ts: u64, from: &str) -> (r: String)
    ensures
        r@ == report_key(ts, from@),
{
    cat4(
        "data/audit/noise-reports/n-",
        decimal(ts).as_str(),
        "-",
        first_chars(from, 8).as_str(),
    )
}

/// A report as it is put on the board.
pub open spec fn report_value(
    from: Seq<char>,
    to: Seq<char>,
    why: Seq<char>,
    key: Seq<char>,
    ts: u64,
) -> JsonView {
    JsonView::object().put(
        "value"@,
        JsonView::object().put("from_sender"@, JsonView::Str(from)).put(
            "receiver"@,
            JsonView::Str(to),
        ).put("why_irrelevant"@, JsonView::Str(why)).put("msg_key"@, JsonView::Str(key)).put(
            "ts"@,
            JsonView::Int(ts as int),
        ).put("note"@, JsonView::Str("R018 反馈链：收到与自己无关的 send 消息，反馈 HR（司库）捕获网治理"@)),
    ).put("ts"@, JsonView::Int(ts as int))
}

/// A report as it is put on the board.
pub fn file_report(a: &ReportArgs, ts: u64) -> (r: Json)
    ensures
        r@ == report_value(a.from@, a.to@, a.why@, a.key@, ts),
{
    let inner = Json::object().with("from_sender", Json::text(a.from.as_str())).with(
        "receiver",
        Json::text(a.to.as_str()),
    ).with("why_irrelevant", Json::text(a.why.as_str())).with(
        "msg_key",
        Json::text(a.key.as_str()),
    ).with("ts", Json::Uint(ts)).with(
        "note",
        Json::text("R018 反馈链：收到与自己无关的 send 消息，反馈 HR（司库）捕获网治理"),
    );
    Json::object().with("value", inner).with("ts", Json::Uint(ts))
}

/// What is printed once a report is filed, or could not be.
pub fn filed_line(a: &ReportArgs, done: &Result<(), String>) -> (r: String)
    ensures
        r@ == match done {
            Ok(_) => "✅ 已反馈 HR: data/audit/noise-reports/ (sender="@ + a.from@ + ", why="@ + first(
                a.why@,
                40,
            ) + ")"@,
            Err(e) => "❌ 反馈失败: "@ + e@,
        },
{
    match done {
        Ok(_) => cat5(
            "✅ 已反馈 HR: data/audit/noise-reports/ (sender=",
            a.from.as_str(),
            ", why=",
            first_chars(a.why.as_str(), 40).as_str(),
            ")",
        ),
        Err(e) => cat("❌ 反馈失败: ", e.as_str()),
    }
}

// ---------------------------------------------------------------- gathering

/// The arguments of a scan.
pub struct NoiseScanArgs {
    pub hours: u64,
    pub json: bool,
}

/// Reads the arguments of a scan: twenty-four hours where no number is given.
pub fn noise_scan_args(args: &[String]) -> (r: NoiseScanArgs)
    ensures
        ({
            let o = options(texts(args@), seq!["--hours"@]);
            &&& r.hours == number_or(last_value(o, "--hours"@), 24)
            &&& r.json == plain_words(texts(args@), seq!["--hours"@]).contains("--json"@)
        }),
{
    let valued = ["--hours"];
    let a = read_args(args, &valued);
    assert(names(valued@) =~= seq!["--hours"@]);
    NoiseScanArgs { hours: a.number_or("--hours", 24), json: a.has("--json") }
}

/// A filed report: who sent the message, why it did not concern its receiver, and when
/// it was filed, where that can be read.
pub struct Noise {
    pub sender: String,
    pub why: String,
    pub ts: Option<u64>,
}

/// The reports by their sender and reason.
pub open spec fn noise_views(v: Seq<Noise>) -> Seq<(Seq<char>, Seq<char>)> {
    v.map_values(|n: Noise| (n.sender@, n.why@))
}

/// The reports by their time, sender and reason.
pub open spec fn timed_views(v: Seq<Noise>) -> Seq<(Option<u64>, Seq<char>, Seq<char>)> {
    v.map_values(|n: Noise| (n.ts, n.sender@, n.why@))
}

/// The time of a report in an entry of the board: that of the report itself, else that
/// of what it was filed in, else that of the entry.
pub open spec fn noise_time(v: JsonView) -> Option<u64> {
    match seconds_in(v.at("value"@).at("value"@).at("ts"@)) {
        Some(t) => Some(t),
        None => match seconds_in(v.at("value"@).at("ts"@)) {
            Some(t) => Some(t),
            None => seconds_in(v.at("ts"@)),
        },
    }
}

/// The report in an entry of the board.
pub open spec fn noise_of(v: JsonView) -> (Option<u64>, Seq<char>, Seq<char>) {
    let x = v.at("value"@).at("value"@);
    (noise_time(v), x.text_or("from_sender"@, "?"@), x.text_or("why_irrelevant"@, seq![]))
}

/// The reports among the entries of the board.
pub open spec fn noise_in(e: Seq<(Seq<char>, JsonView)>) -> Seq<
    (Option<u64>, Seq<char>, Seq<char>),
>
    decreases e.len(),
{
    if e.len() == 0 {
        seq![]
    } else if starts(e.last().0, "data/audit/noise-reports/"@) {
        noise_in(e.drop_last()).push(noise_of(e.last().1))
    } else {
        noise_in(e.drop_last())
    }
}

/// The reports in a window, by their sender and reason.
pub open spec fn recent_reports(
    t: Seq<(Option<u64>, Seq<char>, Seq<char>)>,
    from: int,
) -> Seq<(Seq<char>, Seq<char>)>
    decreases t.len(),
{
    if t.len() == 0 {
        seq![]
    } else if recent(t.last().0, from) {
        recent_reports(t.drop_last(), from).push((t.last().1, t.last().2))
    } else {
        recent_reports(t.drop_last(), from)
    }
}

fn time_of_report(v: &Json) -> (r: Option<u64>)
    ensures
        r == noise_time(v@),
{
    let outer = v.at("value");
    match seconds_of(&outer.at("value").at("ts")) {
        Some(t) => Some(t),
        None => match seconds_of(&outer.at("ts")) {
            Some(t) => Some(t),
            None => seconds_of(&v.at("ts")),
        },
    }
}

/// The reports on the board.
pub fn read_noise(data: &Json) -> (r: Vec<Noise>)
    ensures
        timed_views(r@) == noise_in(data@.at("list"@).entries()),
{
    proof {
        reveal_strlit("");
        assert(""@ =~= seq![]);
    }
    let mut out: Vec<Noise> = Vec::new();
    assert(timed_views(out@) =~= seq![]);
    if let Some(e) = data.entries_at("list") {
        let ghost t = entry_views(e@);
        proof {
            entry_views_by_index(e@);
        }
        let mut i: usize = 0;
        assert(t.take(0) =~= seq![]);
        while i < e.len()
            invariant
                i <= e@.len(),
                t == entry_views(e@),
                t.len() == e@.len(),
                forall|i: int| 0 <= i < e@.len() ==> #[trigger] t[i] == (e@[i].0@, e@[i].1@),
                ""@ == Seq::<char>::empty(),
                timed_views(out@) == noise_in(t.take(i as int)),
            decreases e@.len() - i,
        {
            proof {
                assert(t.take(i + 1).drop_last() =~= t.take(i as int));
                assert(t.take(i + 1).last() == t[i as int]);
            }
            if begins(e[i].0.as_str(), "data/audit/noise-reports/") {
                let x = e[i].1.at("value").at("value");
                let ghost prev = timed_views(out@);
                out.push(
                    Noise {
                        sender: x.text_or("from_sender", "?"),
                        why: x.text_or("why_irrelevant", ""),
                        ts: time_of_report(&e[i].1),
                    },
                );
                assert(timed_views(out@) =~= prev.push(noise_of(t[i as int].1)));
            }
            i += 1;
        }
        assert(t.take(i as int) =~= t);
    }
    out
}

/// The reports of the last hours.
pub fn recent_noise(rs: &Vec<Noise>, hours: u64, now: u64) -> (r: Vec<Noise>)
    ensures
        noise_views(r@) == recent_reports(timed_views(rs@), since(hours, now)),
{
    let from: u64 = window_start(hours, now);
    let ghost t = timed_views(rs@);
    let mut out: Vec<Noise> = Vec::new();
    let mut i: usize = 0;
    assert(t.take(0) =~= seq![]);
    assert(noise_views(out@) =~= seq![]);
    while i < rs.len()
        invariant
            i <= rs@.len(),
            t == timed_views(rs@),
            from == since(hours, now),
            noise_views(out@) == recent_reports(t.take(i as int), from as int),
        decreases rs@.len() - i,
    {
        proof {
            assert(t.take(i + 1).drop_last() =~= t.take(i as int));
            assert(t.take(i + 1).last() == (
                rs@[i as int].ts,
                rs@[i as int].sender@,
                rs@[i as int].why@,
            ));
        }
        if is_recent(rs[i].ts, from) {
            let ghost prev = noise_views(out@);
            out.push(
                Noise { sender: rs[i].sender.clone(), why: rs[i].why.clone(), ts: rs[i].ts },
            );
            assert(noise_views(out@) =~= prev.push((rs@[i as int].sender@, rs@[i as int].why@)));
        }
        i += 1;
    }
    assert(t.take(i as int) =~= t);
    out
}

/// The senders of the reports.
pub open spec fn noise_senders(rs: Seq<(Seq<char>, Seq<char>)>) -> Seq<Seq<char>> {
    rs.map_values(|r: (Seq<char>, Seq<char>)| r.0)
}

/// The reasons given against a sender.
pub open spec fn reasons(rs: Seq<(Seq<char>, Seq<char>)>, sender: Seq<char>) -> Seq<Seq<char>>
    decreases rs.len(),
{
    if rs.len() == 0 {
        seq![]
    } else if rs.last().0 == sender {
        reasons(rs.drop_last(), sender).push(rs.last().1)
    } else {
        reasons(rs.drop_last(), sender)
    }
}

/// The senders with the number of reports, the most reported first, and those of
/// one number by their names.
pub open spec fn ranked(rs: Seq<(Seq<char>, Seq<char>)>) -> Seq<(Seq<char>, nat)> {
    let c = counts(noise_senders(rs));
    arranged(c, order(c.len(), falling(c.map_values(|x: (Seq<char>, nat)| x.1 as int))))
}

/// A sender, the number of reports, and the first two reasons.
pub open spec fn source(rs: Seq<(Seq<char>, Seq<char>)>, x: (Seq<char>, nat)) -> (
    Seq<char>,
    nat,
    Seq<Seq<char>>,
) {
    (x.0, x.1, at_most(reasons(rs, x.0), 2))
}

/// The senders with their reasons, the most reported first.
pub open spec fn sources(rs: Seq<(Seq<char>, Seq<char>)>) -> Seq<(Seq<char>, nat, Seq<Seq<char>>)> {
    ranked(rs).map_values(|x: (Seq<char>, nat)| source(rs, x))
}

/// The most reported sender stands first, and each is counted as often as it was
/// reported.
pub proof fn sources_are_counted(rs: Seq<(Seq<char>, Seq<char>)>)
    ensures
        forall|i: int|
            0 <= i < sources(rs).len() ==> (#[trigger] sources(rs)[i]).1 == noise_senders(
                rs,
            ).to_multiset().count(sources(rs)[i].0),
        forall|i: int, j: int|
            0 <= i < j < sources(rs).len() ==> (#[trigger] sources(rs)[i]).1 >= (
            #[trigger] sources(rs)[j]).1,
{
    let c = counts(noise_senders(rs));
    let keys = c.map_values(|x: (Seq<char>, nat)| x.1 as int);
    let p = falling(keys);
    let o = order(c.len(), p);
    order_keeps_positions(c.len(), p);
    falling_ranks(keys);
    order_is_sorted(c.len(), p);
    assert forall|i: int| 0 <= i < sources(rs).len() implies (#[trigger] sources(rs)[i]).1
        == noise_senders(rs).to_multiset().count(sources(rs)[i].0) by {
        assert(o.contains(o[i]));
        let k = sources(rs)[i].0;
        counts_occurrences(noise_senders(rs), k);
        own_count(c, o[i]);
    }
    assert forall|i: int, j: int| 0 <= i < j < sources(rs).len() implies (
    #[trigger] sources(rs)[i]).1 >= (#[trigger] sources(rs)[j]).1 by {
        assert(o.contains(o[i]));
        assert(o.contains(o[j]));
        assert(!p(o[j], o[i]));
    }
}

/// A sender with what is held against it.
pub struct Source {
    pub sender: String,
    pub count: u64,
    pub reasons: Vec<String>,
}

/// The senders as texts and numbers.
pub open spec fn source_views(v: Seq<Source>) -> Seq<(Seq<char>, nat, Seq<Seq<char>>)> {
    v.map_values(|s: Source| (s.sender@, s.count as nat, texts(s.reasons@)))
}

fn first_reasons(rs: &Vec<Noise>, sender: &str) -> (r: Vec<String>)
    ensures
        texts(r@) == at_most(reasons(noise_views(rs@), sender@), 2),
{
    let mut out: Vec<String> = Vec::new();
    let ghost t = noise_views(rs@);
    let mut i: usize = 0;
    assert(t.take(0) =~= seq![]);
    assert(texts(out@) =~= seq![]);
    while i < rs.len()
        invariant
            i <= rs@.len(),
            t == noise_views(rs@),
            texts(out@) == at_most(reasons(t.take(i as int), sender@), 2),
        decreases rs@.len() - i,
    {
        proof {
            assert(t.take(i + 1).drop_last() =~= t.take(i as int));
            assert(t.take(i + 1).last() == (rs@[i as int].sender@, rs@[i as int].why@));
        }
        if same(rs[i].sender.as_str(), sender) {
            let ghost before = reasons(t.take(i as int), sender@);
            assert(texts(out@).len() == out@.len());
            if out.len() < 2 {
                let ghost prev = texts(out@);
                out.push(rs[i].why.clone());
                assert(texts(out@) =~= prev.push(rs@[i as int].why@));
                assert(texts(out@) =~= at_most(before.push(rs@[i as int].why@), 2));
            } else {
                assert(at_most(before, 2) =~= at_most(before.push(rs@[i as int].why@), 2));
            }
        }
        i += 1;
    }
    assert(t.take(i as int) =~= t);
    out
}

/// The senders with their reasons, the most reported first.
pub fn noise_sources(rs: &Vec<Noise>) -> (r: Vec<Source>)
    ensures
        source_views(r@) == sources(noise_views(rs@)),
{
    let ghost t = noise_views(rs@);
    let mut names: Vec<String> = Vec::new();
    let mut i: usize = 0;
    while i < rs.len()
        invariant
            i <= rs@.len(),
            t == noise_views(rs@),
            names@.len() == i,
            forall|j: int| 0 <= j < i ==> (#[trigger] names@[j])@ == t[j].0,
        decreases rs@.len() - i,
    {
        names.push(rs[i].sender.clone());
        i += 1;
    }
    assert(texts(names@) =~= noise_senders(t));
    let c = count_texts(&names);
    let ghost cv = count_views(c@);
    let mut keys: Vec<u64> = Vec::new();
    let mut j: usize = 0;
    while j < c.len()
        invariant
            j <= c@.len(),
            cv == count_views(c@),
            keys@.len() == j,
            forall|m: int| 0 <= m < j ==> (#[trigger] keys@[m]) == cv[m].1,
        decreases c@.len() - j,
    {
        keys.push(c[j].count);
        j += 1;
    }
    let o = order_falling(&keys);
    assert(keys@.map_values(|k: u64| k as int) =~= cv.map_values(
        |x: (Seq<char>, nat)| x.1 as int,
    ));
    let ghost w = sources(t);
    assert(ranked(t) == arranged(cv, positions(o@)));
    let mut out: Vec<Source> = Vec::new();
    let mut k: usize = 0;
    while k < o.len()
        invariant
            k <= o@.len() == w.len(),
            o@.len() == c@.len(),
            cv == count_views(c@),
            t == noise_views(rs@),
            w == sources(t),
            ranked(t) == arranged(cv, positions(o@)),
            forall|i: int| 0 <= i < o@.len() ==> (#[trigger] o@[i]) < c@.len(),
            out@.len() == k,
            forall|m: int|
                0 <= m < k ==> ((#[trigger] out@[m]).sender@, out@[m].count as nat, texts(
                    out@[m].reasons@,
                )) == w[m],
        decreases o@.len() - k,
    {
        let p: usize = o[k];
        assert(positions(o@)[k as int] == p);
        assert(ranked(t)[k as int] == cv[p as int]);
        assert(cv[p as int] == (c@[p as int].key@, c@[p as int].count as nat));
        assert(w[k as int] == source(t, cv[p as int]));
        let reasons = first_reasons(rs, c[p].key.as_str());
        out.push(Source { sender: c[p].key.clone(), count: c[p].count, reasons });
        k += 1;
    }
    assert(source_views(out@) =~= w);
    out
}

// ---------------------------------------------------------------- the findings

/// A sender in the summary.
pub open spec fn named_count(x: (Seq<char>, nat, Seq<Seq<char>>)) -> Seq<char> {
    quoted(x.0) + "×"@ + dec(x.1)
}

/// The findings in one sentence.
pub open spec fn noise_summary(rs: Seq<(Seq<char>, Seq<char>)>) -> Seq<char> {
    if rs.len() == 0 {
        "无反馈（通道卫生正常）"@
    } else {
        "收到 "@ + dec(rs.len()) + " 条无关消息反馈，疑似污染源 TOP: "@ + join(
            at_most(sources(rs), 3).map_values(
                |x: (Seq<char>, nat, Seq<Seq<char>>)| named_count(x),
            ),
            ", "@,
        )
    }
}

/// A sender as a value.
pub open spec fn source_value(x: (Seq<char>, nat, Seq<Seq<char>>)) -> JsonView {
    JsonView::object().put("sender"@, JsonView::Str(x.0)).put(
        "reports"@,
        JsonView::Int(x.1 as int),
    ).put("reasons"@, JsonView::Arr(x.2.map_values(|s: Seq<char>| JsonView::Str(s))))
}

/// Three reports or more are no accident.
pub open spec fn polluted(rs: Seq<(Seq<char>, Seq<char>)>) -> bool {
    rs.len() >= 3
}

/// The findings as a value.
pub open spec fn noise_value(rs: Seq<(Seq<char>, Seq<char>)>, now: u64, hours: u64) -> JsonView {
    JsonView::object().put("ts"@, JsonView::Int(now as int)).put(
        "window_hours"@,
        JsonView::Int(hours as int),
    ).put("total_reports"@, JsonView::Int(rs.len() as int)).put(
        "top_sources"@,
        JsonView::Arr(
            at_most(sources(rs), 5).map_values(
                |x: (Seq<char>, nat, Seq<Seq<char>>)| source_value(x),
            ),
        ),
    ).put("pollution_suspected"@, JsonView::Bool(polluted(rs))).put(
        "summary"@,
        JsonView::Str(noise_summary(rs)),
    )
}

fn summary_of(rs: &Vec<Noise>, src: &Vec<Source>) -> (r: String)
    requires
        source_views(src@) == sources(noise_views(rs@)),
    ensures
        r@ == noise_summary(noise_views(rs@)),
{
    let ghost t = noise_views(rs@);
    if rs.len() == 0 {
        return "无反馈（通道卫生正常）".to_owned();
    }
    let ghost sv = source_views(src@);
    let ghost want = at_most(sv, 3).map_values(
        |x: (Seq<char>, nat, Seq<Seq<char>>)| named_count(x),
    );
    let k: usize = if src.len() > 3 {
        3
    } else {
        src.len()
    };
    let mut parts: Vec<String> = Vec::new();
    let mut i: usize = 0;
    while i < k
        invariant
            i <= k <= src@.len(),
            k == want.len(),
            sv == source_views(src@),
            want == at_most(sv, 3).map_values(
                |x: (Seq<char>, nat, Seq<Seq<char>>)| named_count(x),
            ),
            parts@.len() == i,
            forall|j: int| 0 <= j < i ==> (#[trigger] parts@[j])@ == want[j],
        decreases k - i,
    {
        assert(sv[i as int].0 == src@[i as int].sender@);
        assert(want[i as int] == named_count(sv[i as int]));
        let q = quote(src[i].sender.as_str());
        parts.push(cat3(q.as_str(), "×", decimal(src[i].count).as_str()));
        i += 1;
    }
    assert(texts(parts@) =~= want);
    cat4(
        "收到 ",
        decimal(rs.len() as u64).as_str(),
        " 条无关消息反馈，疑似污染源 TOP: ",
        joined(&parts, ", ").as_str(),
    )
}

/// The findings as a value.
pub fn noise_findings(rs: &Vec<Noise>, now: u64, hours: u64) -> (r: Json)
    ensures
        r@ == noise_value(noise_views(rs@), now, hours),
{
    let ghost t = noise_views(rs@);
    let src = noise_sources(rs);
    let ghost sv = source_views(src@);
    let ghost want = at_most(sv, 5).map_values(
        |x: (Seq<char>, nat, Seq<Seq<char>>)| source_value(x),
    );
    let k: usize = if src.len() > 5 {
        5
    } else {
        src.len()
    };
    let mut top: Vec<Json> = Vec::new();
    let mut i: usize = 0;
    while i < k
        invariant
            i <= k <= src@.len(),
            k == want.len(),
            sv == source_views(src@),
            want == at_most(sv, 5).map_values(
                |x: (Seq<char>, nat, Seq<Seq<char>>)| source_value(x),
            ),
            top@.len() == i,
            forall|j: int| 0 <= j < i ==> (#[trigger] top@[j])@ == want[j],
        decreases k - i,
    {
        let ghost x = sv[i as int];
        assert(x == (src@[i as int].sender@, src@[i as int].count as nat, texts(
            src@[i as int].reasons@,
        )));
        assert(want[i as int] == source_value(x));
        let v = Json::object().with("sender", Json::text(src[i].sender.as_str())).with(
            "reports",
            Json::Uint(src[i].count),
        ).with("reasons", Json::text_array(&src[i].reasons));
        assert(src@[i as int].reasons@.map_values(|s: String| JsonView::Str(s@))
            =~= x.2.map_values(|s: Seq<char>| JsonView::Str(s)));
        top.push(v);
        i += 1;
    }
    assert(views(top@) =~= want);
    let summary = summary_of(rs, &src);
    Json::object().with("ts", Json::Uint(now)).with("window_hours", Json::Uint(hours)).with(
        "total_reports",
        Json::Uint(rs.len() as u64),
    ).with("top_sources", Json::array(top)).with(
        "pollution_suspected",
        Json::Bool(rs.len() >= 3),
    ).with("summary", Json::text(summary.as_str()))
}

/// What is printed of a sender.
pub open spec fn source_lines(x: (Seq<char>, nat, Seq<Seq<char>>)) -> Seq<Seq<char>> {
    seq![
        "  "@ + if x.1 >= 3 {
            "🔴"@
        } else {
            "🟡"@
        } + " "@ + quoted(x.0) + " ("@ + dec(x.1) + " 次反馈)"@,
    ] + x.2.map_values(|r: Seq<char>| "      - "@ + r)
}

/// What is printed of some senders.
pub open spec fn sources_lines(s: Seq<(Seq<char>, nat, Seq<Seq<char>>)>) -> Seq<Seq<char>>
    decreases s.len(),
{
    if s.len() == 0 {
        seq![]
    } else {
        sources_lines(s.drop_last()) + source_lines(s.last())
    }
}

/// What is printed of the findings.
pub open spec fn noise_lines(rs: Seq<(Seq<char>, Seq<char>)>, hours: u64) -> Seq<Seq<char>> {
    seq![
        "══ noise-scan HR 捕获网（"@ + dec(hours as nat) + "h）══"@,
        "  无关消息反馈: "@ + dec(rs.len()) + " 条"@,
    ] + if rs.len() == 0 {
        seq!["  ✅ 无反馈"@]
    } else {
        sources_lines(at_most(sources(rs), 5)) + if polluted(rs) {
            seq!["  🔴 疑似系统性污染（≥3 次反馈），建议 HR 介入治理"@]
        } else {
            seq![]
        }
    } + seq!["  "@ + quoted(noise_summary(rs))]
}

fn say_source(l: &mut Vec<String>, s: &Source)
    ensures
        texts(final(l)@) == texts(old(l)@) + source_lines(
            (s.sender@, s.count as nat, texts(s.reasons@)),
        ),
{
    let ghost base = texts(l@);
    let ghost x = (s.sender@, s.count as nat, texts(s.reasons@));
    let flag = if s.count >= 3 {
        "🔴"
    } else {
        "🟡"
    };
    let q = quote(s.sender.as_str());
    let mut head = cat5("  ", flag, " ", q.as_str(), " (");
    head.append(decimal(s.count).as_str());
    head.append(" 次反馈)");
    say(l, head.as_str());
    let ghost head_line = head@;
    let ghost want = x.2.map_values(|r: Seq<char>| "      - "@ + r);
    let mut i: usize = 0;
    assert(texts(l@) =~= base + (seq![head_line] + want.take(0)));
    while i < s.reasons.len()
        invariant
            i <= s.reasons@.len() == want.len(),
            want == texts(s.reasons@).map_values(|r: Seq<char>| "      - "@ + r),
            texts(l@) == base + (seq![head_line] + want.take(i as int)),
        decreases s.reasons@.len() - i,
    {
        let ghost prev = texts(l@);
        assert(want[i as int] == "      - "@ + s.reasons@[i as int]@);
        say(l, cat("      - ", s.reasons[i].as_str()).as_str());
        assert(texts(l@) =~= base + (seq![head_line] + want.take(i + 1)));
        i += 1;
    }
    assert(want.take(i as int) =~= want);
}

/// What is printed of the findings.
pub fn noise_report(rs: &Vec<Noise>, hours: u64) -> (l: Vec<String>)
    ensures
        texts(l@) == noise_lines(noise_views(rs@), hours),
{
    let ghost t = noise_views(rs@);
    let src = noise_sources(rs);
    let ghost sv = source_views(src@);
    let ghost few = at_most(sv, 5);
    let mut l: Vec<String> = Vec::new();
    say(&mut l, cat3("══ noise-scan HR 捕获网（", decimal(hours).as_str(), "h）══").as_str());
    say(
        &mut l,
        cat3("  无关消息反馈: ", decimal(rs.len() as u64).as_str(), " 条").as_str(),
    );
    let ghost base = texts(l@);
    if rs.len() == 0 {
        say(&mut l, "  ✅ 无反馈");
    } else {
        let k: usize = if src.len() > 5 {
            5
        } else {
            src.len()
        };
        let mut i: usize = 0;
        assert(few.take(0) =~= seq![]);
        assert(base + sources_lines(few.take(0)) =~= base);
        while i < k
            invariant
                i <= k <= src@.len(),
                k == few.len(),
                sv == source_views(src@),
                few == at_most(sv, 5),
                texts(l@) == base + sources_lines(few.take(i as int)),
            decreases k - i,
        {
            proof {
                assert(few.take(i + 1).drop_last() =~= few.take(i as int));
                assert(few.take(i + 1).last() == sv[i as int]);
            }
            let ghost prev = texts(l@);
            say_source(&mut l, &src[i]);
            assert(texts(l@) =~= base + sources_lines(few.take(i + 1)));
            i += 1;
        }
        assert(few.take(i as int) =~= few);
        if rs.len() >= 3 {
            say(&mut l, "  🔴 疑似系统性污染（≥3 次反馈），建议 HR 介入治理");
        }
    }
    let s = quote(summary_of(rs, &src).as_str());
    say(&mut l, cat("  ", s.as_str()).as_str());
    assert(texts(l@) =~= noise_lines(t, hours));
    l
}

/// What is printed where no subcommand is given.
pub fn noise_usage() -> (l: Vec<String>)
    ensures
        texts(l@) == seq![
            "dsh-tools noise 子命令:"@,
            "  noise-report --from <发送方> --to <自己> --why <为何无关> [--key <key>]  # 端侧反馈（收到无关消息时）"@,
            "  noise-scan [--hours N] [--json]   # HR 捕获网聚合（TOP 污染源 + 系统性污染识别）"@,
        ],
{
    let mut l: Vec<String> = Vec::new();
    say(&mut l, "dsh-tools noise 子命令:");
    say(
        &mut l,
        "  noise-report --from <发送方> --to <自己> --why <为何无关> [--key <key>]  # 端侧反馈（收到无关消息时）",
    );
    say(&mut l, "  noise-scan [--hours N] [--json]   # HR 捕获网聚合（TOP 污染源 + 系统性污染识别）");
    assert(texts(l@) =~= seq![
        "dsh-tools noise 子命令:"@,
        "  noise-report --from <发送方> --to <自己> --why <为何无关> [--key <key>]  # 端侧反馈（收到无关消息时）"@,
        "  noise-scan [--hours N] [--json]   # HR 捕获网聚合（TOP 污染源 + 系统性污染识别）"@,
    ]);
    l
}

// ---------------------------------------------------------------- the commands

/// The outcome of filing a report.
pub fn cmd_report(a: &ReportArgs, done: &Result<(), String>) -> (r: Outcome)
    ensures
        r.code == match done {
            Ok(_) => 0i32,
            Err(_) => 1i32,
        },
        texts(r.lines@) == seq![
            match done {
                Ok(_) => "✅ 已反馈 HR: data/audit/noise-reports/ (sender="@ + a.from@ + ", why="@
                    + first(a.why@, 40) + ")"@,
                Err(e) => "❌ 反馈失败: "@ + e@,
            },
        ],
{
    let mut l: Vec<String> = Vec::new();
    let line = filed_line(a, done);
    say(&mut l, line.as_str());
    assert(texts(l@) =~= seq![line@]);
    let code: i32 = match done {
        Ok(_) => 0,
        Err(_) => 1,
    };
    Outcome { lines: l, code }
}

/// What is printed of the reports in the window: a value, or lines.
pub fn cmd_scan(rs: &Vec<Noise>, a: &NoiseScanArgs, now: u64) -> (r: Outcome)
    ensures
        r.code == 0,
        ({
            let few = recent_reports(timed_views(rs@), since(a.hours, now));
            texts(r.lines@) == if a.json {
                seq![json_pretty(noise_value(few, now, a.hours).canon())]
            } else {
                noise_lines(few, a.hours)
            }
        }),
{
    let few = recent_noise(rs, a.hours, now);
    if a.json {
        let mut l: Vec<String> = Vec::new();
        say(&mut l, pretty(&noise_findings(&few, now, a.hours)).as_str());
        assert(texts(l@) =~= seq![
            json_pretty(noise_value(noise_views(few@), now, a.hours).canon()),
        ]);
        Outcome { lines: l, code: 0 }
    } else {
        Outcome { lines: noise_report(&few, a.hours), code: 0 }
    }
}

/// What a subcommand asks for.
#[derive(Clone, Copy, PartialEq, Eq, Structural, Debug)]
pub enum NoiseCommand {
    Report,
    Scan,
    Unknown,
}

/// What a subcommand asks for.
pub fn read_command(s: &str) -> (r: NoiseCommand)
    ensures
        r == if s@ == "report"@ || s@ == "noise-report"@ {
            NoiseCommand::Report
        } else if s@ == "scan"@ || s@ == "noise-scan"@ {
            NoiseCommand::Scan
        } else {
            NoiseCommand::Unknown
        },
{
    if same(s, "report") || same(s, "noise-report") {
        NoiseCommand::Report
    } else if same(s, "scan") || same(s, "noise-scan") {
        NoiseCommand::Scan
    } else {
        NoiseCommand::Unknown
    }
}

// ---------------------------------------------------------------- laws

/// What is filed is a report again when the board is read: under its place, with its
/// sender, its reason and its time.
pub proof fn filed_report_is_read(
    from: Seq<char>,
    to: Seq<char>,
    why: Seq<char>,
    key: Seq<char>,
    ts: u64,
)
    ensures
        noise_in(
            seq![(report_key(ts, from), JsonView::object().put("value"@, report_value(from, to, why, key, ts)))],
        ) == seq![(Some(ts), from, why)],
{
    let k = report_key(ts, from);
    let v = JsonView::object().put("value"@, report_value(from, to, why, key, ts));
    let e = seq![(k, v)];
    let p = "data/audit/noise-reports/"@;
    let tail = seq!['n', '-'] + dec(ts as nat) + "-"@ + first(from, 8);
    reveal_strlit("data/audit/noise-reports/");
    reveal_strlit("data/audit/noise-reports/n-");
    assert(k =~= p + tail);
    parts_are_seen(seq![], p, tail);
    assert(e.drop_last() =~= seq![]);
    broadcast use read_of_put;

    reveal_strlit("value");
    reveal_strlit("from_sender");
    reveal_strlit("receiver");
    reveal_strlit("why_irrelevant");
    reveal_strlit("msg_key");
    reveal_strlit("ts");
    reveal_strlit("note");
    assert("value"@.len() == 5 && "from_sender"@.len() == 11 && "receiver"@.len() == 8 && "why_irrelevant"@.len() == 14 && "msg_key"@.len() == 7 && "ts"@.len() == 2 && "note"@.len() == 4);
    let r = report_value(from, to, why, key, ts);
    assert(v.at("value"@) == r);
    let x = r.at("value"@);
    assert(x.at("from_sender"@) == JsonView::Str(from));
    assert(x.at("why_irrelevant"@) == JsonView::Str(why));
    assert(x.at("ts"@) == JsonView::Int(ts as int));
    assert(noise_of(v) == (Some(ts), from, why));
    assert(e.last() == (k, v));
    assert(noise_in(e.drop_last()) =~= seq![]);
    assert(noise_in(e) =~= seq![(Some(ts), from, why)]);
}

/// The reports of two parts of the board are those of the one and then those of the other;
/// so are those in a window, and the reasons against a sender.
pub proof fn reports_add_up(
    a: Seq<(Seq<char>, JsonView)>,
    b: Seq<(Seq<char>, JsonView)>,
)
    ensures
        noise_in(a + b) == noise_in(a) + noise_in(b),
    decreases b.len(),
{
    if b.len() == 0 {
        assert(a + b =~= a);
    } else {
        assert((a + b).drop_last() =~= a + b.drop_last());
        reports_add_up(a, b.drop_last());
    }
    assert(noise_in(a + b) =~= noise_in(a) + noise_in(b));
}

/// A report is in the window of some hours exactly where it was filed no longer ago than so
/// many times 3600 seconds; the others in the window stay in their order.
pub proof fn window_is_kept(
    a: Seq<(Option<u64>, Seq<char>, Seq<char>)>,
    t: u64,
    sender: Seq<char>,
    why: Seq<char>,
    hours: u64,
    now: u64,
)
    ensures
        recent_reports(a.push((Some(t), sender, why)), since(hours, now)) == if t + hours * 3600
            >= now {
            recent_reports(a, since(hours, now)).push((sender, why))
        } else {
            recent_reports(a, since(hours, now))
        },
{
    let s = a.push((Some(t), sender, why));
    assert(s.drop_last() =~= a);
}

/// Every sender that was reported is among the sources, with the first two reasons given
/// against it, in the order in which they came.
pub proof fn first_reasons_are_kept(rs: Seq<(Seq<char>, Seq<char>)>, i: int)
    requires
        0 <= i < sources(rs).len(),
    ensures
        sources(rs)[i].2.len() <= 2,
        sources(rs)[i].2.len() == 2 || sources(rs)[i].2 == reasons(rs, sources(rs)[i].0),
        forall|j: int|
            0 <= j < sources(rs)[i].2.len() ==> #[trigger] sources(rs)[i].2[j] == reasons(
                rs,
                sources(rs)[i].0,
            )[j],
{
}

/// A report adds its reason to those against its sender, behind them, and to no other's.
pub proof fn reasons_add_up(
    rs: Seq<(Seq<char>, Seq<char>)>,
    sender: Seq<char>,
    why: Seq<char>,
    other: Seq<char>,
)
    ensures
        reasons(rs.push((sender, why)), sender) == reasons(rs, sender).push(why),
        other != sender ==> reasons(rs.push((sender, why)), other) == reasons(rs, other),
        reasons(seq![], sender).len() == 0,
{
    assert(rs.push((sender, why)).drop_last() =~= rs);
}

/// The findings tell how many reports there were, of which window and when, at most five
/// sources, and that the channel is suspect exactly from three reports on.
pub proof fn findings_are_told(rs: Seq<(Seq<char>, Seq<char>)>, now: u64, hours: u64)
    ensures
        ({
            let v = noise_value(rs, now, hours);
            &&& v.at("ts"@) == JsonView::Int(now as int)
            &&& v.at("window_hours"@) == JsonView::Int(hours as int)
            &&& v.at("total_reports"@) == JsonView::Int(rs.len() as int)
            &&& v.at("pollution_suspected"@) == JsonView::Bool(rs.len() > 2)
            &&& v.at("top_sources"@) matches JsonView::Arr(a) && a.len() <= 5 && (a.len() == 5
                || a.len() == sources(rs).len()) && forall|i: int|
                0 <= i < a.len() ==> (#[trigger] a[i]).at("sender"@) == JsonView::Str(
                    sources(rs)[i].0,
                ) && a[i].at("reports"@) == JsonView::Int(sources(rs)[i].1 as int)
        }),
{
    broadcast use read_of_put;

    reveal_strlit("ts");
    reveal_strlit("window_hours");
    reveal_strlit("total_reports");
    reveal_strlit("top_sources");
    reveal_strlit("pollution_suspected");
    reveal_strlit("summary");
    reveal_strlit("sender");
    reveal_strlit("reports");
    reveal_strlit("reasons");
    assert("ts"@.len() == 2 && "window_hours"@.len() == 12 && "total_reports"@.len() == 13 && "top_sources"@.len() == 11 && "pollution_suspected"@.len() == 19 && "summary"@.len() == 7 && "sender"@.len() == 6 && "reports"@.len() == 7 && "reasons"@.len() == 7);
    assert("summary"@[0] != "reports"@[0]);
    assert("summary"@[0] != "reasons"@[0]);
    assert("reports"@[2] != "reasons"@[2]);
    let v = noise_value(rs, now, hours);
    if let JsonView::Arr(a) = v.at("top_sources"@) {
        assert forall|i: int| 0 <= i < a.len() implies (#[trigger] a[i]).at("sender"@)
            == JsonView::Str(sources(rs)[i].0) && a[i].at("reports"@) == JsonView::Int(
            sources(rs)[i].1 as int,
        ) by {
            assert(a[i] == source_value(sources(rs)[i]));
        }
    }
}

/// Every sender that was reported is among the sources, and of two that were reported
/// equally often the one whose name comes first stands first.
pub proof fn every_sender_is_a_source(rs: Seq<(Seq<char>, Seq<char>)>, k: int, i: int, j: int)
    ensures
        0 <= k < rs.len() ==> exists|m: int|
            0 <= m < sources(rs).len() && (#[trigger] sources(rs)[m]).0 == rs[k].0,
        0 <= i < j < sources(rs).len() && sources(rs)[i].1 == sources(rs)[j].1 ==> text_lt(
            sources(rs)[i].0,
            sources(rs)[j].0,
        ),
{
    let s = noise_senders(rs);
    let c = counts(s);
    let keys = c.map_values(|x: (Seq<char>, nat)| x.1 as int);
    let p = falling(keys);
    let o = order(c.len(), p);
    let all = sources(rs);
    order_keeps_positions(c.len(), p);
    if 0 <= k < rs.len() {
        assert(s[k] == rs[k].0);
        counted_texts_stand(s, rs[k].0);
        let n = choose|n: int| 0 <= n < c.len() && (#[trigger] c[n]).0 == rs[k].0;
        assert(o.contains(n));
        let m = choose|m: int| 0 <= m < o.len() && o[m] == n;
        assert(all[m].0 == rs[k].0);
    }
    if 0 <= i < j < all.len() && all[i].1 == all[j].1 {
        order_is_stable(c.len(), p, i, j);
        assert(o.contains(o[i]) && o.contains(o[j]));
        assert(all[i].1 == c[o[i]].1 && all[j].1 == c[o[j]].1);
        assert(!p(o[i], o[j]));
        counts_occurrences(s, all[i].0);
        assert(ascending(c));
        assert(text_lt(c[o[i]].0, c[o[j]].0));
    }
}

/// A report is filed under its time and the first eight characters of the sender; without a
/// sender, or without a reason, it is none.
pub proof fn reports_have_their_places(ts: u64, from: Seq<char>, why: Seq<char>)
    ensures
        from.len() <= 8 ==> report_key(ts, from) == "data/audit/noise-reports/n-"@ + dec(ts as nat)
            + "-"@ + from,
        from.len() > 8 ==> report_key(ts, from) == "data/audit/noise-reports/n-"@ + dec(ts as nat)
            + "-"@ + from.take(8),
        complete(from, why) <==> from != Seq::<char>::empty() && why != Seq::<char>::empty(),
{
    assert(from.len() == 0 ==> from =~= Seq::<char>::empty());
    assert(why.len() == 0 ==> why =~= Seq::<char>::empty());
}

} // verus!
