//! Advice on a tool: in which language to keep it, and how to make it more general.
use vstd::prelude::*;
use crate::args::{names, options, read_args, value_or};
use crate::num::{dec, decimal};
use crate::report::say;
use crate::text::{
    cat, cat5, cat7, contains, has, lines, lines_of, lowered, parts_are_seen, texts, to_lowercase,
};

verus! {

/// The arguments of the advice.
pub struct AssessArgs {
    pub tool: String,
    pub src: String,
    pub bottleneck: String,
}

/// The options of the advice that take a value.
pub open spec fn assess_valued() -> Seq<Seq<char>> {
    seq!["--tool"@, "--src"@, "--bottleneck"@]
}

/// Reads the arguments.
pub fn assess_args(args: &[String]) -> (r: AssessArgs)
    ensures
        ({
            let o = options(texts(args@), assess_valued());
            &&& r.tool@ == value_or(o, "--tool"@, seq![])
            &&& r.src@ == value_or(o, "--src"@, seq![])
            &&& r.bottleneck@ == value_or(o, "--bottleneck"@, seq![])
        }),
{
    let valued = ["--tool", "--src", "--bottleneck"];
    let a = read_args(args, &valued);
    assert(names(valued@) =~= assess_valued());
    proof {
        reveal_strlit("");
        assert(""@ =~= seq![]);
    }
    AssessArgs {
        tool: a.value_or("--tool", ""),
        src: a.value_or("--src", ""),
        bottleneck: a.value_or("--bottleneck", ""),
    }
}

// ---------------------------------------------------------------- languages

/// A source leans on a vendor's library.
pub open spec fn vendor_bound(s: Seq<char>) -> bool {
    ||| contains(s, "@modelcontextprotocol"@)
    ||| contains(s, "@wecom"@)
    ||| contains(s, "better-sqlite3"@)
    ||| contains(s, "playwright"@)
    ||| contains(s, "puppeteer"@)
}

/// A source speaks HTTP.
pub open spec fn speaks_http(s: Seq<char>) -> bool {
    contains(s, "http.createServer"@) || contains(s, "http.request"@)
}

/// A source sends events.
pub open spec fn sends_events(s: Seq<char>) -> bool {
    contains(s, "text/event-stream"@) || contains(s, "/events"@)
}

/// A source keeps a database.
pub open spec fn keeps_database(s: Seq<char>) -> bool {
    contains(s, "sqlite"@) || contains(s, "better-sqlite3"@)
}

/// How complex a source of so many lines is.
pub open spec fn complexity(n: nat) -> Seq<char> {
    if n > 400 {
        "高"@
    } else if n > 150 {
        "中"@
    } else {
        "低"@
    }
}

/// A truth value in words.
pub open spec fn truth(b: bool) -> Seq<char> {
    if b {
        "true"@
    } else {
        "false"@
    }
}

/// The language that a source should be kept in, and what that takes and gives.
pub open spec fn advice(s: Seq<char>) -> Seq<Seq<char>> {
    if vendor_bound(s) {
        seq![
            "→ 推荐: 保留原语言（官方 SDK 锁定，Rust 化成本>收益）"@,
            "   Rust化难度: 高 | 收益: 低（SDK 无法替代）"@,
        ]
    } else if keeps_database(s) {
        seq![
            "→ 推荐: Rust（纯逻辑+SQLite，rusqlite 可替代；或 Go database/sql）"@,
            "   Rust化难度: 中 | 收益: 中（内存省50%+零依赖分发）"@,
        ]
    } else if sends_events(s) || speaks_http(s) {
        seq![
            "→ 推荐: Rust（HTTP/SSE 服务，与 dsh-tools 同栈）"@,
            "   Rust化难度: 低-中 | 收益: 高（常驻内存 5.97MB vs Node ~50MB）"@,
        ]
    } else {
        seq![
            "→ 推荐: Rust（纯逻辑工具，直接并入 dsh-tools）"@,
            "   Rust化难度: 低 | 收益: 高（单二进制零依赖）"@,
        ]
    }
}

/// What is printed of a source.
pub open spec fn source_report(tool: Seq<char>, src: Seq<char>, s: Seq<char>) -> Seq<Seq<char>> {
    let n = lines(s).len();
    seq![
        "══ 语言迁移评估 ══"@,
        "工具: "@ + (if tool.len() == 0 {
            "?"@
        } else {
            tool
        }) + "  | 源码: "@ + src + "  | "@ + dec(n) + " 行"@,
        "依赖分析: SDK锁定="@ + truth(vendor_bound(s)) + " HTTP="@ + truth(speaks_http(s)) + " SSE="@
            + truth(sends_events(s)) + " SQLite="@ + truth(keeps_database(s)),
        "复杂度: "@ + complexity(n) + "（"@ + dec(n) + " 行）"@,
    ] + advice(s) + seq![
        "预期收益: 内存 -50~90% | 启动快 2-3x | 分发零依赖（对照 LiteLLM 基准 15x/11x）"@,
    ]
}

fn truth_text(b: bool) -> (r: &'static str)
    ensures
        r@ == truth(b),
{
    if b {
        "true"
    } else {
        "false"
    }
}

/// What is printed of a source with a text.
pub fn assess_source(tool: &str, src: &str, content: &str) -> (r: Vec<String>)
    ensures
        texts(r@) == source_report(tool@, src@, content@),
{
    let ls = lines_of(content);
    assert(texts(ls@).len() == ls@.len());
    let n: usize = ls.len();
    let count = decimal(n as u64);
    let sdk = has(content, "@modelcontextprotocol") || has(content, "@wecom") || has(
        content,
        "better-sqlite3",
    ) || has(content, "playwright") || has(content, "puppeteer");
    let http = has(content, "http.createServer") || has(content, "http.request");
    let sse = has(content, "text/event-stream") || has(content, "/events");
    let sqlite = has(content, "sqlite") || has(content, "better-sqlite3");
    let mut l: Vec<String> = Vec::new();
    say(&mut l, "══ 语言迁移评估 ══");
    let name = if tool.is_empty() {
        "?"
    } else {
        tool
    };
    say(
        &mut l,
        cat7("工具: ", name, "  | 源码: ", src, "  | ", count.as_str(), " 行").as_str(),
    );
    let mut d = cat7(
        "依赖分析: SDK锁定=",
        truth_text(sdk),
        " HTTP=",
        truth_text(http),
        " SSE=",
        truth_text(sse),
        " SQLite=",
    );
    d.append(truth_text(sqlite));
    say(&mut l, d.as_str());
    let c = if n > 400 {
        "高"
    } else if n > 150 {
        "中"
    } else {
        "低"
    };
    say(&mut l, cat5("复杂度: ", c, "（", count.as_str(), " 行）").as_str());
    if sdk {
        say(&mut l, "→ 推荐: 保留原语言（官方 SDK 锁定，Rust 化成本>收益）");
        say(&mut l, "   Rust化难度: 高 | 收益: 低（SDK 无法替代）");
    } else if sqlite {
        say(&mut l, "→ 推荐: Rust（纯逻辑+SQLite，rusqlite 可替代；或 Go database/sql）");
        say(&mut l, "   Rust化难度: 中 | 收益: 中（内存省50%+零依赖分发）");
    } else if sse || http {
        say(&mut l, "→ 推荐: Rust（HTTP/SSE 服务，与 dsh-tools 同栈）");
        say(&mut l, "   Rust化难度: 低-中 | 收益: 高（常驻内存 5.97MB vs Node ~50MB）");
    } else {
        say(&mut l, "→ 推荐: Rust（纯逻辑工具，直接并入 dsh-tools）");
        say(&mut l, "   Rust化难度: 低 | 收益: 高（单二进制零依赖）");
    }
    say(&mut l, "预期收益: 内存 -50~90% | 启动快 2-3x | 分发零依赖（对照 LiteLLM 基准 15x/11x）");
    assert(texts(l@) =~= source_report(tool@, src@, content@));
    l
}

// ---------------------------------------------------------------- generality

/// One line, where it holds.
pub open spec fn line_if(b: bool, s: Seq<char>) -> Seq<Seq<char>> {
    if b {
        seq![s]
    } else {
        seq![]
    }
}

/// The directions in which a tool with a bottleneck, in lowercase, can be made more
/// general.
pub open spec fn directions(b: Seq<char>) -> Seq<Seq<char>> {
    let d = line_if(
        contains(b, "跨设备"@) || contains(b, "跨机"@) || contains(b, "remote"@),
        "  · 跨设备（黑板 notes 通道 → agent-msg 模式）"@,
    ) + line_if(
        contains(b, "多租户"@) || contains(b, "多用户"@),
        "  · 多租户（按 agent/设备隔离命名空间）"@,
    ) + line_if(
        contains(b, "批量"@) || contains(b, "大量"@),
        "  · 批量化（workflow 串行/并行编排）"@,
    ) + line_if(
        contains(b, "异步"@) || contains(b, "实时"@),
        "  · 异步化（bb-sub 订阅器事件驱动）"@,
    ) + line_if(contains(b, "订阅"@) || contains(b, "推送"@), "  · 订阅化（SSE 事件桥 8803）"@);
    if d.len() == 0 {
        seq!["  · 通用化（抽象输入输出，复用黑板 KV）"@]
    } else {
        d
    }
}

/// What is printed of a bottleneck.
pub open spec fn bottleneck_report(bottleneck: Seq<char>) -> Seq<Seq<char>> {
    seq!["══ 工具泛化评估 ══"@, "工具瓶颈: "@ + bottleneck, "泛化方向建议:"@] + directions(
        lowered(bottleneck),
    ) + seq!["参考: agent_send(同宿主) → 瓶颈:不跨设备 → 变体 agent-msg(黑板通道) ✅ 已实现"@]
}

fn say_if(l: &mut Vec<String>, b: bool, s: &str)
    ensures
        texts(final(l)@) == texts(old(l)@) + line_if(b, s@),
{
    let ghost base = texts(l@);
    if b {
        say(l, s);
    }
    assert(texts(l@) =~= base + line_if(b, s@));
}

/// What is printed of a bottleneck.
pub fn assess_bottleneck(bottleneck: &str) -> (r: Vec<String>)
    ensures
        texts(r@) == bottleneck_report(bottleneck@),
{
    let low = to_lowercase(bottleneck);
    let b = low.as_str();
    let mut l: Vec<String> = Vec::new();
    say(&mut l, "══ 工具泛化评估 ══");
    say(&mut l, cat("工具瓶颈: ", bottleneck).as_str());
    say(&mut l, "泛化方向建议:");
    let n: usize = l.len();
    assert(texts(l@).len() == n);
    let ghost base = texts(l@);
    say_if(
        &mut l,
        has(b, "跨设备") || has(b, "跨机") || has(b, "remote"),
        "  · 跨设备（黑板 notes 通道 → agent-msg 模式）",
    );
    say_if(&mut l, has(b, "多租户") || has(b, "多用户"), "  · 多租户（按 agent/设备隔离命名空间）");
    say_if(&mut l, has(b, "批量") || has(b, "大量"), "  · 批量化（workflow 串行/并行编排）");
    say_if(&mut l, has(b, "异步") || has(b, "实时"), "  · 异步化（bb-sub 订阅器事件驱动）");
    say_if(&mut l, has(b, "订阅") || has(b, "推送"), "  · 订阅化（SSE 事件桥 8803）");
    assert(texts(l@).len() == l@.len());
    if l.len() == n {
        say(&mut l, "  · 通用化（抽象输入输出，复用黑板 KV）");
    }
    assert(texts(l@) =~= base + directions(b@));
    say(&mut l, "参考: agent_send(同宿主) → 瓶颈:不跨设备 → 变体 agent-msg(黑板通道) ✅ 已实现");
    assert(texts(l@) =~= bottleneck_report(bottleneck@));
    l
}

/// What is printed of the advice that was asked for: on the language where a source is
/// given, else on the bottleneck, else how to ask.
pub open spec fn advice_lines(a: &AssessArgs, content: Seq<char>) -> Seq<Seq<char>> {
    if a.src@.len() > 0 {
        source_report(a.tool@, a.src@, content)
    } else if a.bottleneck@.len() > 0 {
        bottleneck_report(a.bottleneck@)
    } else {
        seq![
            "用法: dsh-tools assess --tool <名> --src <路径>   # 语言迁移评估（Q2）"@,
            "      dsh-tools assess --bottleneck <描述>       # 工具泛化评估（Q3）"@,
        ]
    }
}

/// What is printed of the advice that was asked for, given the text of the source.
pub fn cmd_assess(a: &AssessArgs, content: &str) -> (l: Vec<String>)
    ensures
        texts(l@) == advice_lines(a, content@),
{
    if !a.src.as_str().is_empty() {
        return assess_source(a.tool.as_str(), a.src.as_str(), content);
    }
    if !a.bottleneck.as_str().is_empty() {
        return assess_bottleneck(a.bottleneck.as_str());
    }
    let mut l: Vec<String> = Vec::new();
    say(&mut l, "用法: dsh-tools assess --tool <名> --src <路径>   # 语言迁移评估（Q2）");
    say(&mut l, "      dsh-tools assess --bottleneck <描述>       # 工具泛化评估（Q3）");
    assert(texts(l@) =~= advice_lines(a, content@));
    l
}

// ---------------------------------------------------------------- laws

/// A source that names one of the vendors' libraries stays in its language, whatever else
/// it does.
pub proof fn vendors_bind(a: Seq<char>, b: Seq<char>)
    ensures
        advice(a + "@modelcontextprotocol"@ + b)[0] == keep_it(),
        advice(a + "@wecom"@ + b)[0] == keep_it(),
        advice(a + "better-sqlite3"@ + b)[0] == keep_it(),
        advice(a + "playwright"@ + b)[0] == keep_it(),
        advice(a + "puppeteer"@ + b)[0] == keep_it(),
{
    parts_are_seen(a, "@modelcontextprotocol"@, b);
    parts_are_seen(a, "@wecom"@, b);
    parts_are_seen(a, "better-sqlite3"@, b);
    parts_are_seen(a, "playwright"@, b);
    parts_are_seen(a, "puppeteer"@, b);
}

/// The advice to keep a source in its language.
pub open spec fn keep_it() -> Seq<char> {
    "→ 推荐: 保留原语言（官方 SDK 锁定，Rust 化成本>收益）"@
}

/// A database decides before a service does, where no vendor binds; a service decides where
/// there is no database; any other source is plain logic.
pub proof fn databases_come_before_services(s: Seq<char>, a: Seq<char>, b: Seq<char>)
    requires
        !vendor_bound(s),
    ensures
        s == a + "sqlite"@ + b ==> advice(s)[0]
            == "→ 推荐: Rust（纯逻辑+SQLite，rusqlite 可替代；或 Go database/sql）"@,
        !contains(s, "sqlite"@) && (s == a + "http.createServer"@ + b || s == a + "http.request"@ + b
            || s == a + "text/event-stream"@ + b || s == a + "/events"@ + b) && !contains(
            s,
            "better-sqlite3"@,
        ) ==> advice(s)[0] == "→ 推荐: Rust（HTTP/SSE 服务，与 dsh-tools 同栈）"@,
        !contains(s, "sqlite"@) && !contains(s, "better-sqlite3"@) && !contains(
            s,
            "http.createServer"@,
        ) && !contains(s, "http.request"@) && !contains(s, "text/event-stream"@) && !contains(
            s,
            "/events"@,
        ) ==> advice(s)[0] == "→ 推荐: Rust（纯逻辑工具，直接并入 dsh-tools）"@,
{
    parts_are_seen(a, "sqlite"@, b);
    parts_are_seen(a, "http.createServer"@, b);
    parts_are_seen(a, "http.request"@, b);
    parts_are_seen(a, "text/event-stream"@, b);
    parts_are_seen(a, "/events"@, b);
}

/// A source is of low complexity up to 150 lines and of high complexity from 401 on, and
/// more lines never make it less complex.
pub proof fn complexity_grows(n: nat)
    ensures
        n <= 150 ==> complexity(n) == "低"@,
        151 <= n <= 400 ==> complexity(n) == "中"@,
        401 <= n ==> complexity(n) == "高"@,
{
}

/// A bottleneck between devices is answered with a channel between them.
pub proof fn devices_have_a_direction(b: Seq<char>)
    requires
        contains(b, "跨设备"@) || contains(b, "跨机"@) || contains(b, "remote"@),
    ensures
        directions(b)[0] == "  · 跨设备（黑板 notes 通道 → agent-msg 模式）"@,
{
}

/// A bottleneck of delivery is answered with events.
pub proof fn deliveries_have_a_direction(b: Seq<char>)
    requires
        contains(b, "订阅"@) || contains(b, "推送"@),
    ensures
        directions(b).last() == "  · 订阅化（SSE 事件桥 8803）"@,
{
}

/// A bottleneck of many users is answered with rooms of their own, be it alone or among
/// others.
pub proof fn users_have_a_direction(b: Seq<char>)
    requires
        contains(b, "多租户"@) || contains(b, "多用户"@),
    ensures
        directions(b).contains("  · 多租户（按 agent/设备隔离命名空间）"@),
{
    let n = if contains(b, "跨设备"@) || contains(b, "跨机"@) || contains(b, "remote"@) {
        1int
    } else {
        0
    };
    assert(directions(b)[n] == "  · 多租户（按 agent/设备隔离命名空间）"@);
}

/// A bottleneck of many items is answered with a workflow, be it alone or among others.
pub proof fn items_have_a_direction(b: Seq<char>)
    requires
        contains(b, "批量"@) || contains(b, "大量"@),
    ensures
        directions(b).contains("  · 批量化（workflow 串行/并行编排）"@),
{
    let m = if contains(b, "跨设备"@) || contains(b, "跨机"@) || contains(b, "remote"@) {
        1int
    } else {
        0
    };
    let n = if contains(b, "多租户"@) || contains(b, "多用户"@) {
        m + 1
    } else {
        m
    };
    assert(directions(b)[n] == "  · 批量化（workflow 串行/并行编排）"@);
}

/// A bottleneck of time is answered with a subscription, be it alone or among others.
pub proof fn time_has_a_direction(b: Seq<char>)
    requires
        contains(b, "异步"@) || contains(b, "实时"@),
    ensures
        directions(b).contains("  · 异步化（bb-sub 订阅器事件驱动）"@),
{
    let m = if contains(b, "跨设备"@) || contains(b, "跨机"@) || contains(b, "remote"@) {
        1int
    } else {
        0
    };
    let n = if contains(b, "多租户"@) || contains(b, "多用户"@) {
        m + 1
    } else {
        m
    };
    let k = if contains(b, "批量"@) || contains(b, "大量"@) {
        n + 1
    } else {
        n
    };
    assert(directions(b)[k] == "  · 异步化（bb-sub 订阅器事件驱动）"@);
}

} // verus!
