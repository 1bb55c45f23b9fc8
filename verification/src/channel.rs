//! The hygiene of the channel for all: messages to one receiver do not belong there.
use vstd::prelude::*;
use crate::args::{last_of, names, options, plain_words, read_args};
use crate::json::{
    compact, entry_views, entry_views_by_index, json_pretty, json_text, pretty, quote, quoted,
    read_of_put, views, Json, JsonView,
};
use crate::num::{dec, dec_round_trip, decimal, read_u64, uint_of};
use crate::order::at_most;
use crate::report::{say, Outcome};
use crate::stamp::{is_recent, recent, seconds_in, seconds_of, since, window_start};
use crate::text::{
    begins, cat, cat3, cat4, cat5, contains, has, lowercase_stays, lowered, maybe, occurs_at,
    parts_are_seen, same, starts, texts, to_lowercase,
};

verus! {

// ---------------------------------------------------------------- arguments

/// The arguments of the audit. The window has no hours where the days given make too
/// many of them.
pub struct AuditArgs {
    pub hours: Option<u64>,
    pub json: bool,
    pub write: bool,
}

/// The window in hours: a day where no number is given.
pub open spec fn window(o: Seq<(Seq<char>, Seq<char>)>) -> nat {
    match last_of(o, "--hours"@, "--days"@) {
        None => 24,
        Some((k, s)) => match uint_of(s, false, u64::MAX as nat) {
            Some(n) => if k == "--days"@ {
                n * 24
            } else {
                n
            },
            None => 24,
        },
    }
}

/// Reads the arguments: the last of `--hours` and `--days` sets the window.
pub fn audit_args(args: &[String]) -> (r: AuditArgs)
    ensures
        ({
            let o = options(texts(args@), seq!["--hours"@, "--days"@]);
            let w = plain_words(texts(args@), seq!["--hours"@, "--days"@]);
            &&& match r.hours {
                Some(h) => h == window(o),
                None => window(o) > u64::MAX,
            }
            &&& r.json == w.contains("--json"@)
            &&& r.write == !w.contains("--no-write"@)
        }),
{
    let valued = ["--hours", "--days"];
    let a = read_args(args, &valued);
    assert(names(valued@) =~= seq!["--hours"@, "--days"@]);
    let hours: Option<u64> = match a.last_of("--hours", "--days") {
        None => Some(24),
        Some((k, s)) => match read_u64(s.as_str()) {
            Some(n) => if same(k.as_str(), "--days") {
                n.checked_mul(24)
            } else {
                Some(n)
            },
            None => Some(24),
        },
    };
    AuditArgs { hours, json: a.has("--json"), write: !a.has("--no-write") }
}

// ---------------------------------------------------------------- the rule

/// The text under a key, where it is not empty.
pub open spec fn filled_text(v: JsonView, k: Seq<char>) -> Option<Seq<char>> {
    match v.text(k) {
        Some(t) => if t.len() > 0 {
            Some(t)
        } else {
            None
        },
        None => None,
    }
}

/// The receiver that a level of a message names.
pub open spec fn named_target(v: JsonView) -> Option<Seq<char>> {
    match filled_text(v, "to"@) {
        Some(t) => Some(t),
        None => filled_text(v, "target"@),
    }
}

/// The receiver that a message names, outside or inside.
pub open spec fn target_of(v: JsonView) -> Option<Seq<char>> {
    match named_target(v) {
        Some(t) => Some(t),
        None => named_target(v.at("value"@)),
    }
}

fn filled_at(v: &Json, k: &str) -> (r: Option<String>)
    ensures
        maybe(r) == filled_text(v@, k@),
{
    match v.text_at(k) {
        Some(t) => if t.as_str().is_empty() {
            None
        } else {
            Some(t)
        },
        None => None,
    }
}

fn named_in(v: &Json) -> (r: Option<String>)
    ensures
        maybe(r) == named_target(v@),
{
    match filled_at(v, "to") {
        Some(t) => Some(t),
        None => filled_at(v, "target"),
    }
}

/// The receiver that a message names.
pub fn extract_target(v: &Json) -> (r: Option<String>)
    ensures
        maybe(r) == target_of(v@),
{
    match named_in(v) {
        Some(t) => Some(t),
        None => named_in(&v.at("value")),
    }
}

/// A lowercase receiver that means everyone.
pub open spec fn for_all(t: Seq<char>) -> bool {
    ||| contains(t, "all"@)
    ||| contains(t, "collab"@)
    ||| contains(t, "coordinator"@)
    ||| contains(t, "everyone"@)
    ||| contains(t, "bus"@)
    ||| contains(t, "中枢"@)
    ||| contains(t, "全部"@)
}

/// A lowercase receiver that means several.
pub open spec fn for_several(t: Seq<char>) -> bool {
    ||| contains(t, "+"@)
    ||| contains(t, ","@)
    ||| contains(t, "&"@)
    ||| contains(t, " and "@)
}

/// A receiver that is one node of the others: not everyone, not several, not a session,
/// and not the `mac-mini` in the middle.
pub open spec fn single(target: Seq<char>) -> bool {
    let t = lowered(target);
    !(for_all(t) || for_several(t) || starts(t, "session-"@) || t == "mac-mini"@)
}

/// Whether a receiver is one node of the others.
pub fn is_single(target: &str) -> (r: bool)
    ensures
        r == single(target@),
{
    let low = to_lowercase(target);
    let t = low.as_str();
    let all = has(t, "all") || has(t, "collab") || has(t, "coordinator") || has(t, "everyone")
        || has(t, "bus") || has(t, "中枢") || has(t, "全部");
    let several = has(t, "+") || has(t, ",") || has(t, "&") || has(t, " and ");
    !(all || several || begins(t, "session-") || same(t, "mac-mini"))
}

// ---------------------------------------------------------------- the findings

/// A message in the wrong channel: its key, its sender, its receiver and its time.
pub struct Violation {
    pub key: String,
    pub from: String,
    pub target: String,
    pub ts: String,
}

/// A message in the wrong channel, as texts.
#[verifier::ext_equal]
pub struct Misplaced {
    pub key: Seq<char>,
    pub from: Seq<char>,
    pub target: Seq<char>,
    pub ts: Seq<char>,
}

impl Violation {
    /// The message as texts.
    pub open spec fn model(&self) -> Misplaced {
        Misplaced { key: self.key@, from: self.from@, target: self.target@, ts: self.ts@ }
    }
}

/// Some messages as texts.
pub open spec fn misplaced_views(v: Seq<Violation>) -> Seq<Misplaced> {
    v.map_values(|x: Violation| x.model())
}

/// The time of an entry: its own, else that of the message in it.
pub open spec fn time_of(v: JsonView) -> Seq<char> {
    if v.text_or("ts"@, seq![]).len() == 0 {
        v.at("value"@).text_or("ts"@, seq![])
    } else {
        v.text_or("ts"@, seq![])
    }
}

/// When an entry was written, in seconds: by its own time, else by that of the message in
/// it, where one of them can be read.
pub open spec fn entry_seconds(v: JsonView) -> Option<u64> {
    match seconds_in(v.at("ts"@)) {
        Some(t) => Some(t),
        None => seconds_in(v.at("value"@).at("ts"@)),
    }
}

/// An entry of the channel for all.
pub open spec fn in_channel(k: Seq<char>) -> bool {
    starts(k, "notes/collab/"@)
}

/// What is wrong with an entry.
pub open spec fn misplaced(k: Seq<char>, v: JsonView) -> Option<Misplaced> {
    let m = v.at("value"@);
    match target_of(m) {
        Some(t) => if single(t) {
            Some(Misplaced { key: k, from: m.text_or("from"@, "?"@), target: t, ts: time_of(v) })
        } else {
            None
        },
        None => None,
    }
}

/// The messages in the wrong channel, from a time on.
pub open spec fn misplaced_in(e: Seq<(Seq<char>, JsonView)>, from: int) -> Seq<Misplaced>
    decreases e.len(),
{
    if e.len() == 0 {
        seq![]
    } else {
        let before = misplaced_in(e.drop_last(), from);
        if !in_channel(e.last().0) || !recent(entry_seconds(e.last().1), from) {
            before
        } else {
            match misplaced(e.last().0, e.last().1) {
                Some(m) => before.push(m),
                None => before,
            }
        }
    }
}

/// How many messages stand in the channel.
pub open spec fn channel_size(e: Seq<(Seq<char>, JsonView)>) -> nat
    decreases e.len(),
{
    if e.len() == 0 {
        0
    } else {
        channel_size(e.drop_last()) + if in_channel(e.last().0) {
            1nat
        } else {
            0nat
        }
    }
}

/// What an audit found.
pub struct Audit {
    pub scanned: usize,
    pub violations: Vec<Violation>,
}

fn check_entry(k: &str, v: &Json) -> (r: Option<Violation>)
    ensures
        match r {
            Some(x) => misplaced(k@, v@) == Some(x.model()),
            None => misplaced(k@, v@) is None,
        },
{
    proof {
        reveal_strlit("");
        assert(""@ =~= seq![]);
    }
    let m = v.at("value");
    match extract_target(&m) {
        Some(t) => if is_single(t.as_str()) {
            let own = v.text_or("ts", "");
            let ts = if own.as_str().is_empty() {
                m.text_or("ts", "")
            } else {
                own
            };
            Some(Violation { key: k.to_owned(), from: m.text_or("from", "?"), target: t, ts })
        } else {
            None
        },
        None => None,
    }
}

fn seconds_of_entry(v: &Json) -> (r: Option<u64>)
    ensures
        r == entry_seconds(v@),
{
    match seconds_of(&v.at("ts")) {
        Some(t) => Some(t),
        None => seconds_of(&v.at("value").at("ts")),
    }
}

/// Goes through the messages in the channel for all, and finds those of the last hours
/// that do not belong there.
pub fn audit(data: &Json, hours: u64, now: u64) -> (r: Audit)
    ensures
        r.scanned == channel_size(data@.at("list"@).entries()),
        misplaced_views(r.violations@) == misplaced_in(
            data@.at("list"@).entries(),
            since(hours, now),
        ),
{
    let from: u64 = window_start(hours, now);
    let mut out: Vec<Violation> = Vec::new();
    let mut n: usize = 0;
    assert(misplaced_views(out@) =~= seq![]);
    if let Some(e) = data.entries_at("list") {
        let ghost t = entry_views(e@);
        proof {
            entry_views_by_index(e@);
        }
        let mut i: usize = 0;
        assert(t.take(0) =~= seq![]);
        while i < e.len()
            invariant
                n <= i <= e@.len(),
                t == entry_views(e@),
                t.len() == e@.len(),
                forall|i: int| 0 <= i < e@.len() ==> #[trigger] t[i] == (e@[i].0@, e@[i].1@),
                n == channel_size(t.take(i as int)),
                from == since(hours, now),
                misplaced_views(out@) == misplaced_in(t.take(i as int), from as int),
            decreases e@.len() - i,
        {
            proof {
                assert(t.take(i + 1).drop_last() =~= t.take(i as int));
                assert(t.take(i + 1).last() == t[i as int]);
            }
            if begins(e[i].0.as_str(), "notes/collab/") {
                n += 1;
                if is_recent(seconds_of_entry(&e[i].1), from) {
                    if let Some(x) = check_entry(e[i].0.as_str(), &e[i].1) {
                        let ghost prev = misplaced_views(out@);
                        let ghost m = x.model();
                        out.push(x);
                        assert(misplaced_views(out@) =~= prev.push(m));
                    }
                }
            }
            i += 1;
        }
        assert(t.take(i as int) =~= t);
    }
    Audit { scanned: n, violations: out }
}

/// A message of the window that names one node as its receiver is found, wherever it
/// stands in the channel.
pub proof fn misplaced_is_found(e: Seq<(Seq<char>, JsonView)>, from: int, i: int)
    requires
        0 <= i < e.len(),
        in_channel(e[i].0),
        recent(entry_seconds(e[i].1), from),
        misplaced(e[i].0, e[i].1) is Some,
    ensures
        misplaced_in(e, from).contains(misplaced(e[i].0, e[i].1)->0),
    decreases e.len(),
{
    let d = e.drop_last();
    let m = misplaced(e[i].0, e[i].1)->0;
    if i < d.len() {
        assert(d[i] == e[i]);
        misplaced_is_found(d, from, i);
        let f = misplaced_in(d, from);
        let j = choose|j: int| 0 <= j < f.len() && f[j] == m;
        assert(misplaced_in(e, from)[j] == m);
    } else {
        assert(misplaced_in(e, from).last() == m);
    }
}

/// Nothing else is found: what is found is a message of the window that names one node,
/// and there is no more of it than there are messages.
pub proof fn found_is_misplaced(e: Seq<(Seq<char>, JsonView)>, from: int)
    ensures
        misplaced_in(e, from).len() <= channel_size(e) <= e.len(),
        forall|j: int|
            0 <= j < misplaced_in(e, from).len() ==> is_found(e, from, #[trigger] misplaced_in(
                e,
                from,
            )[j]),
    decreases e.len(),
{
    if e.len() > 0 {
        let d = e.drop_last();
        found_is_misplaced(d, from);
        let (a, b) = (misplaced_in(d, from), misplaced_in(e, from));
        assert forall|j: int| 0 <= j < b.len() implies is_found(e, from, #[trigger] b[j]) by {
            if j < a.len() {
                assert(a[j] == b[j]);
                assert(is_found(d, from, a[j]));
                let i = choose|i: int|
                    0 <= i < d.len() && in_channel((#[trigger] d[i]).0) && recent(
                        entry_seconds(d[i].1),
                        from,
                    ) && misplaced(d[i].0, d[i].1) == Some(a[j]);
                assert(e[i] == d[i]);
            } else {
                assert(e[e.len() - 1] == e.last());
            }
        }
    }
}

/// A finding is what is wrong with some message of the window in the channel.
pub open spec fn is_found(e: Seq<(Seq<char>, JsonView)>, from: int, m: Misplaced) -> bool {
    exists|i: int|
        0 <= i < e.len() && in_channel((#[trigger] e[i]).0) && recent(entry_seconds(e[i].1), from)
            && misplaced(e[i].0, e[i].1) == Some(m)
}

// ---------------------------------------------------------------- the report

/// What is advised.
pub open spec fn advice() -> Seq<char> {
    "应写 notes/<node>/ 定向通道或 data/<域>/ 命名空间，collab 仅限全局公告（R002）"@
}

/// A finding as a value.
pub open spec fn violation_value(m: Misplaced) -> JsonView {
    JsonView::object().put("key"@, JsonView::Str(m.key)).put(
        "severity"@,
        JsonView::Str("WARN"@),
    ).put("type"@, JsonView::Str("定向消息误走广播"@)).put("from"@, JsonView::Str(m.from)).put(
        "target"@,
        JsonView::Str(m.target),
    ).put("ts"@, JsonView::Str(m.ts)).put("advice"@, JsonView::Str(advice()))
}

/// The findings in one sentence.
pub open spec fn audit_summary(n: nat) -> Seq<char> {
    if n == 0 {
        "通道卫生 ✅ 无违规"@
    } else {
        "发现 "@ + dec(n) + " 条定向消息误走广播"@
    }
}

/// The findings as a value.
pub open spec fn audit_value(scanned: nat, ms: Seq<Misplaced>, now: u64) -> JsonView {
    JsonView::object().put("ts"@, JsonView::Int(now as int)).put(
        "scanned_collab_msgs"@,
        JsonView::Int(scanned as int),
    ).put(
        "violations"@,
        JsonView::Arr(ms.map_values(|m: Misplaced| violation_value(m))),
    ).put("violation_count"@, JsonView::Int(ms.len() as int)).put(
        "summary"@,
        JsonView::Str(audit_summary(ms.len())),
    )
}

fn audit_sentence(n: usize) -> (r: String)
    ensures
        r@ == audit_summary(n as nat),
{
    if n == 0 {
        "通道卫生 ✅ 无违规".to_owned()
    } else {
        cat3("发现 ", decimal(n as u64).as_str(), " 条定向消息误走广播")
    }
}

/// The findings as a value.
pub fn audit_findings(a: &Audit, now: u64) -> (r: Json)
    ensures
        r@ == audit_value(a.scanned as nat, misplaced_views(a.violations@), now),
{
    let ghost ms = misplaced_views(a.violations@);
    let mut out: Vec<Json> = Vec::new();
    let mut i: usize = 0;
    while i < a.violations.len()
        invariant
            i <= a.violations@.len(),
            ms == misplaced_views(a.violations@),
            out@.len() == i,
            forall|j: int| 0 <= j < i ==> (#[trigger] out@[j])@ == violation_value(ms[j]),
        decreases a.violations@.len() - i,
    {
        let x = &a.violations[i];
        assert(ms[i as int] == x.model());
        let v = Json::object().with("key", Json::text(x.key.as_str())).with(
            "severity",
            Json::text("WARN"),
        ).with("type", Json::text("定向消息误走广播")).with(
            "from",
            Json::text(x.from.as_str()),
        ).with("target", Json::text(x.target.as_str())).with(
            "ts",
            Json::text(x.ts.as_str()),
        ).with(
            "advice",
            Json::text("应写 notes/<node>/ 定向通道或 data/<域>/ 命名空间，collab 仅限全局公告（R002）"),
        );
        out.push(v);
        i += 1;
    }
    assert(views(out@) =~= ms.map_values(|m: Misplaced| violation_value(m)));
    let n: usize = a.violations.len();
    Json::object().with("ts", Json::Uint(now)).with(
        "scanned_collab_msgs",
        Json::Uint(a.scanned as u64),
    ).with("violations", Json::array(out)).with("violation_count", Json::Uint(n as u64)).with(
        "summary",
        Json::text(audit_sentence(n).as_str()),
    )
}

/// Where the findings are filed, and as which value; nowhere where there are none or
/// nothing is to be written.
pub fn file_audit(a: &Audit, write: bool, now: u64) -> (r: Option<(String, Json)>)
    ensures
        ({
            let ms = misplaced_views(a.violations@);
            match r {
                Some((k, v)) => {
                    &&& write && ms.len() > 0
                    &&& k@ == "data/audit/channel-violations/v-"@ + dec(now as nat) + "-"@ + dec(
                        ms.len(),
                    )
                    &&& v@ == JsonView::object().put(
                        "value"@,
                        audit_value(a.scanned as nat, ms, now),
                    ).put("ts"@, JsonView::Int(now as int))
                },
                None => !(write && ms.len() > 0),
            }
        }),
{
    let n: usize = a.violations.len();
    if !write || n == 0 {
        return None;
    }
    let key = cat4(
        "data/audit/channel-violations/v-",
        decimal(now).as_str(),
        "-",
        decimal(n as u64).as_str(),
    );
    Some((key, Json::object().with("value", audit_findings(a, now)).with("ts", Json::Uint(now))))
}

/// What is printed of a finding.
pub open spec fn violation_lines(m: Misplaced) -> Seq<Seq<char>> {
    seq![
        "  ⚠️ ["@ + quoted("WARN"@) + "] "@ + quoted(m.key) + " → target="@ + quoted(m.target),
        "     from="@ + quoted(m.from) + " | "@ + quoted(advice()),
    ]
}

/// What is printed of some findings.
pub open spec fn violations_lines(ms: Seq<Misplaced>) -> Seq<Seq<char>>
    decreases ms.len(),
{
    if ms.len() == 0 {
        seq![]
    } else {
        violations_lines(ms.drop_last()) + violation_lines(ms.last())
    }
}

/// What is printed of an audit.
pub open spec fn audit_lines(scanned: nat, ms: Seq<Misplaced>, hours: u64) -> Seq<Seq<char>> {
    seq![
        "══ channel-audit 通道卫生巡检（"@ + dec(hours as nat) + "h 窗口）══"@,
        "  扫描 collab 消息: "@ + dec(scanned),
        "  违规数: "@ + dec(ms.len()),
    ] + violations_lines(at_most(ms, 10)) + if ms.len() == 0 {
        seq!["  ✅ 通道卫生正常"@]
    } else {
        seq![]
    } + seq!["  报告: "@ + quoted(audit_summary(ms.len()))]
}

fn say_violation(l: &mut Vec<String>, x: &Violation)
    ensures
        texts(final(l)@) == texts(old(l)@) + violation_lines(x.model()),
{
    let ghost base = texts(l@);
    let mut s = cat5(
        "  ⚠️ [",
        quote("WARN").as_str(),
        "] ",
        quote(x.key.as_str()).as_str(),
        " → target=",
    );
    s.append(quote(x.target.as_str()).as_str());
    say(l, s.as_str());
    say(
        l,
        cat4(
            "     from=",
            quote(x.from.as_str()).as_str(),
            " | ",
            quote("应写 notes/<node>/ 定向通道或 data/<域>/ 命名空间，collab 仅限全局公告（R002）").as_str(),
        ).as_str(),
    );
    assert(texts(l@) =~= base + violation_lines(x.model()));
}

/// What is printed of an audit.
pub fn audit_report(a: &Audit, hours: u64) -> (l: Vec<String>)
    ensures
        texts(l@) == audit_lines(a.scanned as nat, misplaced_views(a.violations@), hours),
{
    let ghost ms = misplaced_views(a.violations@);
    let ghost few = at_most(ms, 10);
    let n: usize = a.violations.len();
    let mut l: Vec<String> = Vec::new();
    say(
        &mut l,
        cat3("══ channel-audit 通道卫生巡检（", decimal(hours).as_str(), "h 窗口）══").as_str(),
    );
    say(&mut l, cat("  扫描 collab 消息: ", decimal(a.scanned as u64).as_str()).as_str());
    say(&mut l, cat("  违规数: ", decimal(n as u64).as_str()).as_str());
    let ghost base = texts(l@);
    let k: usize = if n > 10 {
        10
    } else {
        n
    };
    let mut i: usize = 0;
    assert(few.take(0) =~= seq![]);
    assert(base + violations_lines(few.take(0)) =~= base);
    while i < k
        invariant
            i <= k <= a.violations@.len(),
            k == few.len(),
            ms == misplaced_views(a.violations@),
            few == at_most(ms, 10),
            texts(l@) == base + violations_lines(few.take(i as int)),
        decreases k - i,
    {
        proof {
            assert(few.take(i + 1).drop_last() =~= few.take(i as int));
            assert(few.take(i + 1).last() == ms[i as int]);
        }
        say_violation(&mut l, &a.violations[i]);
        assert(texts(l@) =~= base + violations_lines(few.take(i + 1)));
        i += 1;
    }
    assert(few.take(i as int) =~= few);
    if n == 0 {
        say(&mut l, "  ✅ 通道卫生正常");
    }
    say(&mut l, cat("  报告: ", quote(audit_sentence(n).as_str()).as_str()).as_str());
    assert(texts(l@) =~= audit_lines(a.scanned as nat, ms, hours));
    l
}

// ---------------------------------------------------------------- the command

/// What is printed where the board does not answer.
pub open spec fn error_line(e: Seq<char>) -> Seq<char> {
    json_text(JsonView::object().put("error"@, JsonView::Str(e)).canon())
}

/// What is printed where the board does not answer.
pub fn error_report(e: &str) -> (r: Outcome)
    ensures
        texts(r.lines@) == seq![error_line(e@)],
        r.code == 1,
{
    let mut l: Vec<String> = Vec::new();
    let v = Json::object().with("error", Json::text(e));
    say(&mut l, compact(&v).as_str());
    assert(texts(l@) =~= seq![error_line(e@)]);
    Outcome { lines: l, code: 1 }
}

/// What is printed of an audit: a value, or lines.
pub fn run(a: &Audit, hours: u64, json: bool, now: u64) -> (r: Outcome)
    ensures
        r.code == 0,
        ({
            let ms = misplaced_views(a.violations@);
            texts(r.lines@) == if json {
                seq![json_pretty(audit_value(a.scanned as nat, ms, now).canon())]
            } else {
                audit_lines(a.scanned as nat, ms, hours)
            }
        }),
{
    if json {
        let mut l: Vec<String> = Vec::new();
        say(&mut l, pretty(&audit_findings(a, now)).as_str());
        assert(texts(l@) =~= seq![
            json_pretty(
                audit_value(a.scanned as nat, misplaced_views(a.violations@), now).canon(),
            ),
        ]);
        Outcome { lines: l, code: 0 }
    } else {
        Outcome { lines: audit_report(a, hours), code: 0 }
    }
}

// ---------------------------------------------------------------- laws

/// A message in the channel that names one node as its receiver, outside or inside, is found
/// exactly where it was written no longer ago than the window reaches; what was found before
/// stays.
pub proof fn window_decides(
    e: Seq<(Seq<char>, JsonView)>,
    name: Seq<char>,
    v: JsonView,
    to: Seq<char>,
    t: u64,
    hours: u64,
    now: u64,
)
    requires
        to.len() > 0,
        single(to),
        v.at("value"@).at("to"@) == JsonView::Str(to) || (v.at("value"@).at("to"@) is Null && v.at(
            "value"@,
        ).at("target"@) == JsonView::Str(to)),
        v.at("ts"@) == JsonView::Int(t as int),
    ensures
        ({
            let before = misplaced_in(e, since(hours, now));
            let after = misplaced_in(e.push(("notes/collab/"@ + name, v)), since(hours, now));
            if t + hours * 3600 >= now {
                &&& after.len() == before.len() + 1
                &&& after.drop_last() == before
                &&& after.last().target == to
                &&& after.last().key == "notes/collab/"@ + name
                &&& after.last().from == v.at("value"@).text_or("from"@, "?"@)
            } else {
                after == before
            }
        }),
{
    let k = "notes/collab/"@ + name;
    let s = e.push((k, v));
    assert(s.drop_last() =~= e);
    parts_are_seen(seq![], "notes/collab/"@, name);
    let after = misplaced_in(s, since(hours, now));
    let before = misplaced_in(e, since(hours, now));
    assert(t + hours * 3600 >= now ==> after.drop_last() =~= before);
}

/// What stands outside the channel, or names no receiver, is not found.
pub proof fn others_are_left(
    e: Seq<(Seq<char>, JsonView)>,
    k: Seq<char>,
    v: JsonView,
    from: int,
)
    requires
        !starts(k, "notes/collab/"@) || ({
            let m = v.at("value"@);
            &&& m.at("to"@) !is Str
            &&& m.at("target"@) !is Str
            &&& m.at("value"@).at("to"@) !is Str
            &&& m.at("value"@).at("target"@) !is Str
        }),
    ensures
        misplaced_in(e.push((k, v)), from) == misplaced_in(e, from),
{
    assert(e.push((k, v)).drop_last() =~= e);
}

/// A receiver whose name speaks of all, or of several, is not one node.
pub proof fn groups_are_not_single(a: Seq<char>, b: Seq<char>)
    requires
        a.len() + b.len() > 0,
        forall|i: int| 0 <= i < a.len() ==> (#[trigger] a[i] as u32) < 65,
        forall|i: int| 0 <= i < b.len() ==> (#[trigger] b[i] as u32) < 65,
    ensures
        !single(a + "all"@ + b),
        !single(a + "collab"@ + b),
        !single(a + "coordinator"@ + b),
        !single(a + "everyone"@ + b),
        !single(a + "bus"@ + b),
        !single(a + "+"@ + b),
        !single(a + ","@ + b),
        !single(a + "&"@ + b),
        !single(a + " and "@ + b),
        !single("session-"@ + a),
        !single("mac-mini"@),
{
    reveal_strlit("all");
    reveal_strlit("collab");
    reveal_strlit("coordinator");
    reveal_strlit("everyone");
    reveal_strlit("bus");
    reveal_strlit("+");
    reveal_strlit(",");
    reveal_strlit("&");
    reveal_strlit(" and ");
    reveal_strlit("session-");
    reveal_strlit("mac-mini");
    lowercase_stays(a + "all"@ + b);
    lowercase_stays(a + "collab"@ + b);
    lowercase_stays(a + "coordinator"@ + b);
    lowercase_stays(a + "everyone"@ + b);
    lowercase_stays(a + "bus"@ + b);
    lowercase_stays(a + "+"@ + b);
    lowercase_stays(a + ","@ + b);
    lowercase_stays(a + "&"@ + b);
    lowercase_stays(a + " and "@ + b);
    lowercase_stays("session-"@ + a);
    lowercase_stays("mac-mini"@);
    parts_are_seen(a, "all"@, b);
    parts_are_seen(a, "collab"@, b);
    parts_are_seen(a, "coordinator"@, b);
    parts_are_seen(a, "everyone"@, b);
    parts_are_seen(a, "bus"@, b);
    parts_are_seen(a, "+"@, b);
    parts_are_seen(a, ","@, b);
    parts_are_seen(a, "&"@, b);
    parts_are_seen(a, " and "@, b);
    parts_are_seen(a, "session-"@, a);
}

/// A name of lowercase letters that no word for all or for several can be made of is one
/// node.
pub proof fn plain_names_are_single(s: Seq<char>)
    requires
        s.len() > 0,
        forall|i: int|
            0 <= i < s.len() ==> (#[trigger] s[i] == '-' || '0' <= s[i] <= '9' || 'd' <= s[i]
                <= 'r' || 'w' <= s[i] <= 'z') && s[i] != 'm',
    ensures
        single(s),
{
    lowercase_stays(s);
    reveal_strlit("all");
    reveal_strlit("collab");
    reveal_strlit("coordinator");
    reveal_strlit("everyone");
    reveal_strlit("bus");
    reveal_strlit("+");
    reveal_strlit(",");
    reveal_strlit("&");
    reveal_strlit(" and ");
    reveal_strlit("中枢");
    reveal_strlit("全部");
    reveal_strlit("session-");
    reveal_strlit("mac-mini");
    assert("all"@[0] == 'a');
    lacks(s, "all"@, 0);
    lacks(s, "collab"@, 0);
    lacks(s, "coordinator"@, 0);
    lacks(s, "everyone"@, 1);
    lacks(s, "bus"@, 0);
    lacks(s, "+"@, 0);
    lacks(s, ","@, 0);
    lacks(s, "&"@, 0);
    lacks(s, " and "@, 0);
    lacks(s, "中枢"@, 0);
    lacks(s, "全部"@, 0);
    lacks(s, "session-"@, 0);
    if starts(s, "session-"@) {
        assert(contains(s, "session-"@));
    }
    if s == "mac-mini"@ {
        assert(s[0] == 'm');
    }
}

proof fn lacks(s: Seq<char>, p: Seq<char>, k: int)
    requires
        0 <= k < p.len(),
        !s.contains(p[k]),
    ensures
        !contains(s, p),
{
    if contains(s, p) {
        let i = choose|i: int| occurs_at(s, p, i);
        assert(s.subrange(i, i + p.len())[k] == s[i + k]);
    }
}

/// The findings tell how many messages were looked at, how many stood in the wrong channel,
/// and of each its key, sender and receiver.
pub proof fn findings_are_told(scanned: nat, ms: Seq<Misplaced>, now: u64)
    ensures
        ({
            let v = audit_value(scanned, ms, now);
            &&& v.at("ts"@) == JsonView::Int(now as int)
            &&& v.at("scanned_collab_msgs"@) == JsonView::Int(scanned as int)
            &&& v.at("violation_count"@) == JsonView::Int(ms.len() as int)
            &&& v.at("violations"@) matches JsonView::Arr(a) && a.len() == ms.len() && forall|
                i: int,
            |
                0 <= i < a.len() ==> (#[trigger] a[i]).at("key"@) == JsonView::Str(ms[i].key)
                    && a[i].at("from"@) == JsonView::Str(ms[i].from) && a[i].at("target"@)
                    == JsonView::Str(ms[i].target) && a[i].at("ts"@) == JsonView::Str(ms[i].ts)
        }),
{
    broadcast use read_of_put;

    reveal_strlit("ts");
    reveal_strlit("scanned_collab_msgs");
    reveal_strlit("violation_count");
    reveal_strlit("violations");
    reveal_strlit("summary");
    reveal_strlit("key");
    reveal_strlit("severity");
    reveal_strlit("type");
    reveal_strlit("from");
    reveal_strlit("target");
    reveal_strlit("advice");
    assert("ts"@.len() == 2 && "scanned_collab_msgs"@.len() == 19 && "violation_count"@.len() == 15 && "violations"@.len() == 10 && "summary"@.len() == 7 && "key"@.len() == 3 && "severity"@.len() == 8 && "type"@.len() == 4 && "from"@.len() == 4 && "target"@.len() == 6 && "advice"@.len() == 6);
    assert("type"@[0] != "from"@[0]);
    assert("target"@[0] != "advice"@[0]);
}

/// A message of the channel is counted wherever it stands, and nothing else is.
pub proof fn channel_is_counted(e: Seq<(Seq<char>, JsonView)>, k: Seq<char>, v: JsonView)
    ensures
        channel_size(e.push(("notes/collab/"@ + k, v))) == channel_size(e) + 1,
        !starts(k, "notes/collab/"@) ==> channel_size(e.push((k, v))) == channel_size(e),
        channel_size(seq![]) == 0,
{
    assert(e.push((k, v)).drop_last() =~= e);
    assert(e.push(("notes/collab/"@ + k, v)).drop_last() =~= e);
    parts_are_seen(seq![], "notes/collab/"@, k);
}

/// The window is as many hours as were given last, a day is twenty-four of them, and without
/// a word on it the window is a day.
pub proof fn windows_are_read(o: Seq<(Seq<char>, Seq<char>)>, n: nat)
    requires
        n <= u64::MAX,
    ensures
        window(o.push(("--hours"@, dec(n)))) == n,
        window(o.push(("--days"@, dec(n)))) == n * 24,
        window(seq![]) == 24,
{
    reveal_strlit("--hours");
    reveal_strlit("--days");
    assert("--hours"@.len() == 7 && "--days"@.len() == 6);
    dec_round_trip(n, u64::MAX as nat);
}

} // verus!
