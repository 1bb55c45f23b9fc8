//! Findings of a check, and what they add up to.
use vstd::prelude::*;
use crate::json::{json_pretty, pretty, put_keeps_orderly, read_of_put, Json, JsonView};
use crate::num::{dec, decimal};
use crate::text::{cat4, cat5, cat7, replace, replaced, texts};

verus! {

/// How much a finding weighs.
#[derive(Clone, Copy, PartialEq, Eq, Structural, Debug)]
pub enum Level {
    Pass,
    Warn,
    Fail,
    Info,
}

/// What a command prints, and its exit code.
pub struct Outcome {
    pub lines: Vec<String>,
    pub code: i32,
}

/// Adds a line to what is printed.
pub fn say(v: &mut Vec<String>, s: &str)
    ensures
        texts(final(v)@) == texts(old(v)@).push(s@),
{
    let ghost before = texts(v@);
    v.push(s.to_owned());
    assert(texts(v@) =~= before.push(s@));
}

/// One finding.
pub struct CheckItem {
    pub level: Level,
    pub msg: String,
}

/// The findings by their level and text.
pub open spec fn items(v: Seq<CheckItem>) -> Seq<(Level, Seq<char>)> {
    v.map_values(|c: CheckItem| (c.level, c.msg@))
}

/// How many findings have the level `l`.
pub open spec fn count_level(v: Seq<(Level, Seq<char>)>, l: Level) -> nat
    decreases v.len(),
{
    if v.len() == 0 {
        0
    } else {
        count_level(v.drop_last(), l) + if v.last().0 == l {
            1nat
        } else {
            0nat
        }
    }
}

/// The name of a level.
pub open spec fn label(l: Level) -> Seq<char> {
    match l {
        Level::Pass => "OK"@,
        Level::Warn => "WARN"@,
        Level::Fail => "FAIL"@,
        Level::Info => "INFO"@,
    }
}

/// A check that found no failure and no warning.
pub open spec fn spotless(v: Seq<(Level, Seq<char>)>) -> bool {
    forall|i: int|
        0 <= i < v.len() ==> (#[trigger] v[i]).0 != Level::Fail && v[i].0 != Level::Warn
}

/// No finding has a level exactly when the level counts nothing.
pub proof fn count_zero_iff_absent(v: Seq<(Level, Seq<char>)>, l: Level)
    ensures
        count_level(v, l) == 0 <==> forall|i: int| 0 <= i < v.len() ==> (#[trigger] v[i]).0 != l,
        count_level(v, l) <= v.len(),
    decreases v.len(),
{
    if v.len() > 0 {
        let d = v.drop_last();
        count_zero_iff_absent(d, l);
        assert(v.last() == v[v.len() - 1]);
        assert(forall|i: int| 0 <= i < d.len() ==> d[i] == v[i]);
        if v.last().0 != l && count_level(v, l) == 0 {
            assert forall|i: int| 0 <= i < v.len() implies (#[trigger] v[i]).0 != l by {
                if i < d.len() {
                    assert(d[i].0 != l);
                }
            }
        }
        if forall|i: int| 0 <= i < v.len() ==> (#[trigger] v[i]).0 != l {
            assert forall|i: int| 0 <= i < d.len() implies (#[trigger] d[i]).0 != l by {
                assert(v[i].0 != l);
            }
        }
    }
}

/// Appends a finding.
pub fn note(v: &mut Vec<CheckItem>, level: Level, msg: String)
    ensures
        items(final(v)@) == items(old(v)@).push((level, msg@)),
{
    let ghost before = items(v@);
    let ghost m = msg@;
    v.push(CheckItem { level, msg });
    assert(items(v@) =~= before.push((level, m)));
}

/// Counts the findings of a level.
pub fn count(v: &Vec<CheckItem>, l: Level) -> (r: usize)
    ensures
        r == count_level(items(v@), l),
        r <= v@.len(),
{
    let mut n: usize = 0;
    let mut i: usize = 0;
    let ghost t = items(v@);
    assert(t.take(0) =~= seq![]);
    while i < v.len()
        invariant
            i <= v@.len(),
            t == items(v@),
            n == count_level(t.take(i as int), l),
            n <= i,
        decreases v@.len() - i,
    {
        proof {
            assert(t.take(i + 1).drop_last() =~= t.take(i as int));
            assert(t.take(i + 1).last() == t[i as int]);
        }
        if v[i].level == l {
            n += 1;
        }
        i += 1;
    }
    assert(t.take(i as int) =~= t);
    n
}

/// The name of a level.
pub fn level_name(l: Level) -> (r: &'static str)
    ensures
        r@ == label(l),
{
    match l {
        Level::Pass => "OK",
        Level::Warn => "WARN",
        Level::Fail => "FAIL",
        Level::Info => "INFO",
    }
}

/// The exit code of a deployment check: zero where nothing failed and nothing
/// was warned of.
pub fn deploy_code(v: &Vec<CheckItem>) -> (r: i32)
    ensures
        r == if spotless(items(v@)) {
            0i32
        } else {
            1i32
        },
{
    proof {
        count_zero_iff_absent(items(v@), Level::Fail);
        count_zero_iff_absent(items(v@), Level::Warn);
        let t = items(v@);
        if count_level(t, Level::Fail) == 0 && count_level(t, Level::Warn) == 0 {
            assert forall|i: int| 0 <= i < t.len() implies (#[trigger] t[i]).0 != Level::Fail
                && t[i].0 != Level::Warn by {}
        }
    }
    if count(v, Level::Fail) == 0 && count(v, Level::Warn) == 0 {
        0
    } else {
        1
    }
}

/// The exit code of the barrier before a restart: zero where nothing failed.
pub fn guard_code(v: &Vec<CheckItem>) -> (r: i32)
    ensures
        r == if exists|i: int|
            0 <= i < items(v@).len() && (#[trigger] items(v@)[i]).0 == Level::Fail {
            1i32
        } else {
            0i32
        },
{
    proof {
        count_zero_iff_absent(items(v@), Level::Fail);
    }
    if count(v, Level::Fail) > 0 {
        1
    } else {
        0
    }
}

// ---------------------------------------------------------------- printing

/// The mark before a finding.
pub open spec fn mark(l: Level) -> Seq<char> {
    match l {
        Level::Pass => "✅"@,
        Level::Warn => "⚠️ "@,
        _ => "❌"@,
    }
}

/// A finding as a line of the deployment check.
pub open spec fn deploy_text(c: (Level, Seq<char>)) -> Seq<char> {
    " "@ + mark(c.0) + " "@ + label(c.0) + " "@ + c.1
}

/// A finding as a line of the deployment check.
pub fn deploy_line(c: &CheckItem) -> (r: String)
    ensures
        r@ == deploy_text((c.level, c.msg@)),
{
    let m = match c.level {
        Level::Pass => "✅",
        Level::Warn => "⚠️ ",
        _ => "❌",
    };
    let mut s = cat5(" ", m, " ", level_name(c.level), " ");
    s.append(c.msg.as_str());
    s
}

/// The closing line of the deployment check.
pub open spec fn deploy_verdict(fail: nat, warn: nat) -> Seq<char> {
    if fail == 0 && warn == 0 {
        "✅ 通过 —— 可安全部署（仍需收包端二次自检）"@
    } else if fail == 0 {
        "⚠️  WARN 存在（版本漂移等）—— 建议修复后再上生产；紧急可用 --force 绕过"@
    } else {
        "❌ 未通过 —— 修复后再发包（禁止直接上生产）"@
    }
}

/// The closing lines of the deployment check: the counts, and the verdict.
pub fn deploy_summary(v: &Vec<CheckItem>) -> (r: (String, String))
    ensures
        ({
            let t = items(v@);
            &&& r.0@ == "结果: "@ + dec(count_level(t, Level::Pass)) + " OK / "@ + dec(
                count_level(t, Level::Warn),
            ) + " WARN / "@ + dec(count_level(t, Level::Fail)) + " FAIL"@
            &&& r.1@ == deploy_verdict(
                count_level(t, Level::Fail),
                count_level(t, Level::Warn),
            )
        }),
{
    let ok: usize = count(v, Level::Pass);
    let warn: usize = count(v, Level::Warn);
    let fail: usize = count(v, Level::Fail);
    let head = cat7(
        "结果: ",
        decimal(ok as u64).as_str(),
        " OK / ",
        decimal(warn as u64).as_str(),
        " WARN / ",
        decimal(fail as u64).as_str(),
        " FAIL",
    );
    let verdict = if fail == 0 && warn == 0 {
        "✅ 通过 —— 可安全部署（仍需收包端二次自检）"
    } else if fail == 0 {
        "⚠️  WARN 存在（版本漂移等）—— 建议修复后再上生产；紧急可用 --force 绕过"
    } else {
        "❌ 未通过 —— 修复后再发包（禁止直接上生产）"
    };
    (head, verdict.to_owned())
}

/// A finding as a value.
pub open spec fn item_value(c: (Level, Seq<char>)) -> JsonView {
    JsonView::object().put("level"@, JsonView::Str(label(c.0))).put("msg"@, JsonView::Str(c.1))
}

/// The report of a deployment check as a value.
pub open spec fn deploy_value(
    dir: Seq<char>,
    runtime: Seq<char>,
    t: Seq<(Level, Seq<char>)>,
) -> JsonView {
    JsonView::object().put("plugin_dir"@, JsonView::Str(dir)).put(
        "runtime"@,
        JsonView::Str(runtime),
    ).put(
        "summary"@,
        JsonView::object().put("ok"@, JsonView::Int(count_level(t, Level::Pass) as int)).put(
            "warn"@,
            JsonView::Int(count_level(t, Level::Warn) as int),
        ).put("fail"@, JsonView::Int(count_level(t, Level::Fail) as int)),
    ).put("checks"@, JsonView::Arr(t.map_values(|c: (Level, Seq<char>)| item_value(c))))
}

/// The report of a deployment check as a value.
pub fn deploy_json(dir: &str, runtime: &str, v: &Vec<CheckItem>) -> (r: Json)
    ensures
        r@ == deploy_value(dir@, runtime@, items(v@)),
{
    let mut a: Vec<Json> = Vec::new();
    let mut i: usize = 0;
    let ghost t = items(v@);
    while i < v.len()
        invariant
            i <= v@.len(),
            t == items(v@),
            a@.len() == i,
            forall|j: int| 0 <= j < i ==> (#[trigger] a@[j])@ == item_value(t[j]),
        decreases v@.len() - i,
    {
        let x = Json::object().with("level", Json::text(level_name(v[i].level))).with(
            "msg",
            Json::text(v[i].msg.as_str()),
        );
        a.push(x);
        i += 1;
    }
    let summary = Json::object().with("ok", Json::Uint(count(v, Level::Pass) as u64)).with(
        "warn",
        Json::Uint(count(v, Level::Warn) as u64),
    ).with("fail", Json::Uint(count(v, Level::Fail) as u64));
    assert(crate::json::views(a@) =~= t.map_values(|c: (Level, Seq<char>)| item_value(c)));
    Json::object().with("plugin_dir", Json::text(dir)).with("runtime", Json::text(runtime)).with(
        "summary",
        summary,
    ).with("checks", Json::array(a))
}

/// The report in order.
proof fn deploy_value_orderly(dir: Seq<char>, runtime: Seq<char>, t: Seq<(Level, Seq<char>)>)
    ensures
        deploy_value(dir, runtime, t).orderly(),
{
    broadcast use put_keeps_orderly;

    let a = t.map_values(|c: (Level, Seq<char>)| item_value(c));
    assert forall|i: int| 0 <= i < a.len() implies (#[trigger] a[i]).orderly() by {
        assert(a[i] == item_value(t[i]));
    }
}

/// What the deployment check prints.
pub open spec fn deploy_report(
    dir: Seq<char>,
    runtime: Seq<char>,
    t: Seq<(Level, Seq<char>)>,
    json: bool,
) -> Seq<Seq<char>> {
    let rule = "────────────────────────────────────────────────────"@;
    let fail = count_level(t, Level::Fail);
    let warn = count_level(t, Level::Warn);
    let ok = count_level(t, Level::Pass);
    if json {
        seq![json_pretty(deploy_value(dir, runtime, t))]
    } else {
        seq![
            "══ deploy-check · 部署安全审查 ══"@,
            "插件: "@ + dir + "  宿主 runtime: "@ + runtime,
            rule,
        ] + t.map_values(|c: (Level, Seq<char>)| deploy_text(c)) + seq![
            rule,
            "结果: "@ + dec(ok) + " OK / "@ + dec(warn) + " WARN / "@ + dec(fail) + " FAIL"@,
            deploy_verdict(fail, warn),
        ]
    }
}

/// What the deployment check prints.
pub fn deploy_lines(dir: &str, runtime: &str, v: &Vec<CheckItem>, json: bool) -> (r: Vec<String>)
    ensures
        texts(r@) == deploy_report(dir@, runtime@, items(v@), json),
{
    let ghost t = items(v@);
    let mut out: Vec<String> = Vec::new();
    assert(texts(out@) =~= seq![]);
    if json {
        proof {
            deploy_value_orderly(dir@, runtime@, t);
        }
        say(&mut out, pretty(&deploy_json(dir, runtime, v)).as_str());
        assert(texts(out@) =~= deploy_report(dir@, runtime@, t, json));
        return out;
    }
    let rule = "────────────────────────────────────────────────────";
    say(&mut out, "══ deploy-check · 部署安全审查 ══");
    say(&mut out, cat4("插件: ", dir, "  宿主 runtime: ", runtime).as_str());
    say(&mut out, rule);
    let ghost base = texts(out@);
    let ghost w = t.map_values(|c: (Level, Seq<char>)| deploy_text(c));
    let mut i: usize = 0;
    assert(base + w.take(0) =~= base);
    while i < v.len()
        invariant
            i <= v@.len() == w.len(),
            t == items(v@),
            w == t.map_values(|c: (Level, Seq<char>)| deploy_text(c)),
            texts(out@) == base + w.take(i as int),
        decreases v@.len() - i,
    {
        assert(w[i as int] == deploy_text((v@[i as int].level, v@[i as int].msg@)));
        say(&mut out, deploy_line(&v[i]).as_str());
        assert(texts(out@) =~= base + w.take(i + 1));
        i += 1;
    }
    assert(w.take(i as int) =~= w);
    let (counts, verdict) = deploy_summary(v);
    say(&mut out, rule);
    say(&mut out, counts.as_str());
    say(&mut out, verdict.as_str());
    assert(texts(out@) =~= deploy_report(dir@, runtime@, t, json));
    out
}

/// A finding as a line of the barrier before a restart, plain or as a value.
pub open spec fn guard_text(c: (Level, Seq<char>), json: bool) -> Seq<char> {
    if json {
        "{\"level\":\""@ + label(c.0) + "\",\"msg\":\""@ + replace(c.1, "\""@, "\\\""@) + "\"}"@
    } else {
        "["@ + label(c.0) + "] "@ + c.1
    }
}

/// A finding as a line of the barrier before a restart, plain or as a value.
pub fn guard_line(c: &CheckItem, json: bool) -> (r: String)
    ensures
        r@ == guard_text((c.level, c.msg@), json),
{
    if json {
        let m = replaced(c.msg.as_str(), "\"", "\\\"");
        cat5("{\"level\":\"", level_name(c.level), "\",\"msg\":\"", m.as_str(), "\"}")
    } else {
        cat4("[", level_name(c.level), "] ", c.msg.as_str())
    }
}

/// The closing lines of the barrier before a restart.
pub fn guard_summary(v: &Vec<CheckItem>) -> (r: (String, String))
    ensures
        ({
            let t = items(v@);
            &&& r.0@ == "══ restart-guard 汇总: "@ + dec(count_level(t, Level::Fail)) + " FAIL / "@
                + dec(count_level(t, Level::Warn)) + " WARN / "@ + dec(count_level(t, Level::Pass))
                + " OK ══"@
            &&& r.1@ == if count_level(t, Level::Fail) > 0 {
                "❌ 强制门: 存在 FAIL，禁止重启 CLD/DSH（R011 沙箱先行）"@
            } else {
                "✅ 强制门: 通过，可重启（R011）"@
            }
        }),
{
    let ok: usize = count(v, Level::Pass);
    let warn: usize = count(v, Level::Warn);
    let fail: usize = count(v, Level::Fail);
    let head = cat7(
        "══ restart-guard 汇总: ",
        decimal(fail as u64).as_str(),
        " FAIL / ",
        decimal(warn as u64).as_str(),
        " WARN / ",
        decimal(ok as u64).as_str(),
        " OK ══",
    );
    let verdict = if fail > 0 {
        "❌ 强制门: 存在 FAIL，禁止重启 CLD/DSH（R011 沙箱先行）"
    } else {
        "✅ 强制门: 通过，可重启（R011）"
    };
    (head, verdict.to_owned())
}

/// What the barrier before a restart prints.
pub open spec fn guard_report(t: Seq<(Level, Seq<char>)>, json: bool) -> Seq<Seq<char>> {
    let fail = count_level(t, Level::Fail);
    t.map_values(|c: (Level, Seq<char>)| guard_text(c, json)) + seq![
        "══ restart-guard 汇总: "@ + dec(fail) + " FAIL / "@ + dec(count_level(t, Level::Warn))
            + " WARN / "@ + dec(count_level(t, Level::Pass)) + " OK ══"@,
        if fail > 0 {
            "❌ 强制门: 存在 FAIL，禁止重启 CLD/DSH（R011 沙箱先行）"@
        } else {
            "✅ 强制门: 通过，可重启（R011）"@
        },
    ]
}

/// What the barrier before a restart prints.
pub fn guard_lines(v: &Vec<CheckItem>, json: bool) -> (r: Vec<String>)
    ensures
        texts(r@) == guard_report(items(v@), json),
{
    let ghost t = items(v@);
    let ghost w = t.map_values(|c: (Level, Seq<char>)| guard_text(c, json));
    let mut out: Vec<String> = Vec::new();
    let mut i: usize = 0;
    assert(texts(out@) =~= w.take(0));
    while i < v.len()
        invariant
            i <= v@.len() == w.len(),
            t == items(v@),
            w == t.map_values(|c: (Level, Seq<char>)| guard_text(c, json)),
            texts(out@) == w.take(i as int),
        decreases v@.len() - i,
    {
        assert(w[i as int] == guard_text((v@[i as int].level, v@[i as int].msg@), json));
        say(&mut out, guard_line(&v[i], json).as_str());
        assert(texts(out@) =~= w.take(i + 1));
        i += 1;
    }
    assert(w.take(i as int) =~= w);
    let (counts, verdict) = guard_summary(v);
    say(&mut out, counts.as_str());
    say(&mut out, verdict.as_str());
    assert(texts(out@) =~= guard_report(t, json));
    out
}

// ---------------------------------------------------------------- laws

/// A finding adds one to its own level and nothing to the others, wherever it stands.
pub proof fn findings_are_counted(
    a: Seq<(Level, Seq<char>)>,
    c: (Level, Seq<char>),
    b: Seq<(Level, Seq<char>)>,
    l: Level,
)
    ensures
        count_level(a + seq![c] + b, l) == count_level(a, l) + count_level(b, l) + if c.0 == l {
            1int
        } else {
            0
        },
        count_level(seq![], l) == 0,
    decreases b.len(),
{
    let s = a + seq![c] + b;
    if b.len() == 0 {
        assert(s.drop_last() =~= a);
    } else {
        assert(s.drop_last() =~= a + seq![c] + b.drop_last());
        findings_are_counted(a, c, b.drop_last(), l);
    }
}

/// The report of a deployment check says of which directory it is and how many findings of
/// which sort there are, and it holds every finding under its level, in order.
pub proof fn findings_are_told(dir: Seq<char>, runtime: Seq<char>, t: Seq<(Level, Seq<char>)>)
    ensures
        ({
            let v = deploy_value(dir, runtime, t);
            &&& v.at("plugin_dir"@) == JsonView::Str(dir)
            &&& v.at("runtime"@) == JsonView::Str(runtime)
            &&& v.at("summary"@).at("ok"@) == JsonView::Int(count_level(t, Level::Pass) as int)
            &&& v.at("summary"@).at("warn"@) == JsonView::Int(count_level(t, Level::Warn) as int)
            &&& v.at("summary"@).at("fail"@) == JsonView::Int(count_level(t, Level::Fail) as int)
            &&& v.at("checks"@) matches JsonView::Arr(a) && a.len() == t.len() && forall|i: int|
                0 <= i < a.len() ==> (#[trigger] a[i]).at("msg"@) == JsonView::Str(t[i].1)
                    && a[i].at("level"@) == JsonView::Str(
                    match t[i].0 {
                        Level::Pass => "OK"@,
                        Level::Warn => "WARN"@,
                        Level::Fail => "FAIL"@,
                        Level::Info => "INFO"@,
                    },
                )
        }),
{
    broadcast use read_of_put;

    reveal_strlit("plugin_dir");
    reveal_strlit("runtime");
    reveal_strlit("summary");
    reveal_strlit("ok");
    reveal_strlit("warn");
    reveal_strlit("fail");
    reveal_strlit("checks");
    reveal_strlit("level");
    reveal_strlit("msg");
    assert("plugin_dir"@.len() == 10 && "runtime"@.len() == 7 && "summary"@.len() == 7 && "ok"@.len() == 2 && "warn"@.len() == 4 && "fail"@.len() == 4 && "checks"@.len() == 6 && "level"@.len() == 5 && "msg"@.len() == 3);
    assert("runtime"@[0] != "summary"@[0]);
    assert("warn"@[0] != "fail"@[0]);
}

/// A failure shuts the barrier before a restart, wherever it stands among the findings, and
/// nothing else does.
pub proof fn failures_shut(t: Seq<(Level, Seq<char>)>, json: bool)
    ensures
        (exists|i: int| 0 <= i < t.len() && (#[trigger] t[i]).0 == Level::Fail) ==> guard_report(
            t,
            json,
        ).last() == "❌ 强制门: 存在 FAIL，禁止重启 CLD/DSH（R011 沙箱先行）"@,
        (forall|i: int| 0 <= i < t.len() ==> (#[trigger] t[i]).0 != Level::Fail) ==> guard_report(
            t,
            json,
        ).last() == "✅ 强制门: 通过，可重启（R011）"@,
        guard_report(t, json).len() == t.len() + 2,
{
    count_zero_iff_absent(t, Level::Fail);
}

/// The deployment check says at its end that all is well exactly where nothing failed and
/// nothing was warned of; a failure is said before a warning.
pub proof fn verdicts_are_told(dir: Seq<char>, runtime: Seq<char>, t: Seq<(Level, Seq<char>)>)
    ensures
        spotless(t) ==> deploy_report(dir, runtime, t, false).last()
            == "✅ 通过 —— 可安全部署（仍需收包端二次自检）"@,
        (exists|i: int| 0 <= i < t.len() && (#[trigger] t[i]).0 == Level::Fail) ==> deploy_report(
            dir,
            runtime,
            t,
            false,
        ).last() == "❌ 未通过 —— 修复后再发包（禁止直接上生产）"@,
        !spotless(t) && (forall|i: int| 0 <= i < t.len() ==> (#[trigger] t[i]).0 != Level::Fail)
            ==> deploy_report(dir, runtime, t, false).last()
            == "⚠️  WARN 存在（版本漂移等）—— 建议修复后再上生产；紧急可用 --force 绕过"@,
        deploy_report(dir, runtime, t, false).len() == t.len() + 6,
{
    count_zero_iff_absent(t, Level::Fail);
    count_zero_iff_absent(t, Level::Warn);
}

} // verus!
