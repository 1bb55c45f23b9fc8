//! The barrier before large work: whether disk, memory and the server leave room for it.
use vstd::prelude::*;
use crate::args::{last_word, names, options, plain_words, read_args, value_or};
use crate::json::{json_pretty, pretty, quote, quoted, read_of_put, Json, JsonView};
use crate::num::{dec, dec_is_plain, dec_round_trip, decimal, read_u64, uint_of};
use crate::report::{say, Outcome};
use crate::text::{
    blank, cat, cat3, cat5, cat7, contains, has, is_space, join, joined, lines, lines_of, maybe,
    only_of, piece_between, same, second, second_piece, strip_end, stripped_end, stripping_bares,
    texts, trim, trimmed, trimming_bares, words, words_of,
};

verus! {

// ---------------------------------------------------------------- arguments

/// The arguments of the barrier.
pub struct GateArgs {
    pub server: String,
    pub report: bool,
}

/// Reads the arguments: the last of `--report` and `--check` decides.
pub fn gate_args(args: &[String]) -> (r: GateArgs)
    ensures
        ({
            let o = options(texts(args@), seq!["--server"@]);
            let w = plain_words(texts(args@), seq!["--server"@]);
            &&& r.server@ == value_or(o, "--server"@, "129.204.12.142"@)
            &&& r.report == (last_word(w, seq!["--report"@, "--check"@]) == Some("--report"@))
        }),
{
    let valued = ["--server"];
    let modes = ["--report", "--check"];
    let a = read_args(args, &valued);
    assert(names(valued@) =~= seq!["--server"@]);
    assert(names(modes@) =~= seq!["--report"@, "--check"@]);
    let report = match a.last_word(&modes) {
        Some(w) => same(w.as_str(), "--report"),
        None => false,
    };
    GateArgs { server: a.value_or("--server", "129.204.12.142"), report }
}

// ---------------------------------------------------------------- disk and memory

/// A number of kibibytes in gibibytes; zero of what is no number.
pub open spec fn gibibytes(s: Seq<char>) -> nat {
    match uint_of(s, false, u64::MAX as nat) {
        Some(n) => n / 1024 / 1024,
        None => 0,
    }
}

/// The free and the whole space that the second line of `df -k` gives.
pub open spec fn disk_space(txt: Seq<char>) -> (nat, nat) {
    let l = lines(txt);
    if l.len() >= 2 && words(l[1]).len() >= 4 {
        (gibibytes(words(l[1])[3]), gibibytes(words(l[1])[1]))
    } else {
        (0, 0)
    }
}

fn in_gibibytes(s: &str) -> (r: u64)
    ensures
        r == gibibytes(s@),
{
    match read_u64(s) {
        Some(n) => n / 1024 / 1024,
        None => 0,
    }
}

/// The free and the whole space of the disk, in gibibytes.
pub fn local_disk(txt: &str) -> (r: (u64, u64))
    ensures
        (r.0 as nat, r.1 as nat) == disk_space(txt@),
{
    let l = lines_of(txt);
    let ghost t = lines(txt@);
    assert(t.len() == l@.len());
    if l.len() >= 2 {
        assert(t[1] == l@[1]@);
        let w = words_of(l[1].as_str());
        let ghost u = words(t[1]);
        assert(u.len() == w@.len());
        if w.len() >= 4 {
            assert(u[1] == w@[1]@ && u[3] == w@[3]@);
            return (in_gibibytes(w[3].as_str()), in_gibibytes(w[1].as_str()));
        }
    }
    (0, 0)
}

/// A sort of memory pages.
#[derive(Clone, Copy, PartialEq, Eq, Structural)]
pub enum Pages {
    Free,
    Inactive,
    Speculative,
    Total,
}

/// The sort of pages that a line of `vm_stat` counts.
pub open spec fn pages_of(line: Seq<char>) -> Option<Pages> {
    if contains(line, "Pages free:"@) {
        Some(Pages::Free)
    } else if contains(line, "Pages inactive:"@) {
        Some(Pages::Inactive)
    } else if contains(line, "Pages speculative:"@) {
        Some(Pages::Speculative)
    } else if contains(line, "Pages total:"@) {
        Some(Pages::Total)
    } else {
        None
    }
}

/// The number on a line of `vm_stat`, as it is written.
pub open spec fn page_text(line: Seq<char>) -> Option<Seq<char>> {
    match second_piece(line, ":"@) {
        Some(s) => Some(strip_end(trim(s), "."@)),
        None => None,
    }
}

/// The number that the last line for a sort of pages gives, as it is written.
pub open spec fn page_count(ls: Seq<Seq<char>>, p: Pages) -> Option<Seq<char>>
    decreases ls.len(),
{
    if ls.len() == 0 {
        None
    } else if pages_of(ls.last()) == Some(p) {
        page_text(ls.last())
    } else {
        page_count(ls.drop_last(), p)
    }
}

fn sort_of(line: &str) -> (r: Option<Pages>)
    ensures
        r == pages_of(line@),
{
    if has(line, "Pages free:") {
        Some(Pages::Free)
    } else if has(line, "Pages inactive:") {
        Some(Pages::Inactive)
    } else if has(line, "Pages speculative:") {
        Some(Pages::Speculative)
    } else if has(line, "Pages total:") {
        Some(Pages::Total)
    } else {
        None
    }
}

/// The number of pages of a sort in what `vm_stat` printed, as it is written there.
pub fn count_pages(txt: &str, p: Pages) -> (r: Option<String>)
    ensures
        maybe(r) == page_count(lines(txt@), p),
{
    let l = lines_of(txt);
    let ghost t = lines(txt@);
    let mut i: usize = l.len();
    assert(t.len() == l@.len());
    assert(t.take(i as int) =~= t);
    while i > 0
        invariant
            i <= l@.len(),
            t == lines(txt@),
            t == texts(l@),
            page_count(t, p) == page_count(t.take(i as int), p),
        decreases i,
    {
        proof {
            assert(t.take(i as int).last() == l@[i - 1]@);
            assert(t.take(i as int).drop_last() =~= t.take(i - 1));
        }
        let line = l[i - 1].as_str();
        if let Some(q) = sort_of(line) {
            if q == p {
                return match second(line, ":") {
                    Some(s) => Some(stripped_end(trimmed(s.as_str()).as_str(), ".")),
                    None => None,
                };
            }
        }
        i -= 1;
    }
    None
}

// ---------------------------------------------------------------- the server

/// What a server answered on its SSH port.
pub enum Probe {
    /// It sent its banner, after so many milliseconds.
    Banner { rtt_ms: u64 },
    /// It took the connection and stayed silent.
    Silent,
    /// It took no connection.
    Unreachable,
}

/// The state of a server as a value.
pub open spec fn server_value(host: Seq<char>, p: Probe) -> JsonView {
    let v = JsonView::object().put("host"@, JsonView::Str(host)).put(
        "reachable"@,
        JsonView::Bool(!(p is Unreachable)),
    );
    match p {
        Probe::Banner { rtt_ms } => v.put("ssh_ok"@, JsonView::Bool(true)).put(
            "rtt_ms"@,
            JsonView::Int(rtt_ms as int),
        ),
        Probe::Silent => v.put("ssh_ok"@, JsonView::Bool(false)).put(
            "note"@,
            JsonView::Str("TCP 通但 SSH banner 超时——可能高负载"@),
        ),
        Probe::Unreachable => v.put("note"@, JsonView::Str("TCP 22 不可达"@)),
    }
}

/// The state of a server as a value.
pub fn server_state(host: &str, p: &Probe) -> (r: Json)
    ensures
        r@ == server_value(host@, *p),
{
    let reachable = match p {
        Probe::Unreachable => false,
        _ => true,
    };
    let v = Json::object().with("host", Json::text(host)).with("reachable", Json::Bool(reachable));
    match p {
        Probe::Banner { rtt_ms } => v.with("ssh_ok", Json::Bool(true)).with(
            "rtt_ms",
            Json::Uint(*rtt_ms),
        ),
        Probe::Silent => v.with("ssh_ok", Json::Bool(false)).with(
            "note",
            Json::text("TCP 通但 SSH banner 超时——可能高负载"),
        ),
        Probe::Unreachable => v.with("note", Json::text("TCP 22 不可达")),
    }
}

// ---------------------------------------------------------------- the verdict

/// The light that the barrier shows.
#[derive(Clone, Copy, PartialEq, Eq, Structural, Debug)]
pub enum Light {
    Green,
    Yellow,
    Red,
}

/// Free memory: whether it is short, under a fifth, and its share in percent as a
/// text and as a whole number.
pub struct Memory {
    pub short: bool,
    pub text: String,
    pub percent: u64,
}

/// What is short.
pub open spec fn shortages(
    avail: u64,
    mem_short: bool,
    mem_text: Seq<char>,
    host: Seq<char>,
    p: Probe,
) -> Seq<Seq<char>> {
    (if avail < 20 {
        seq!["本机磁盘仅 "@ + dec(avail as nat) + "GB 可用"@]
    } else {
        seq![]
    }) + (if mem_short {
        seq!["本机内存余量 "@ + mem_text + "%"@]
    } else {
        seq![]
    }) + match p {
        Probe::Unreachable => seq!["服务器 "@ + quoted(host) + " 不可达"@],
        Probe::Silent => seq!["服务器 SSH 响应异常（高负载）"@],
        Probe::Banner { .. } => seq![],
    }
}

/// The light for a number of shortages.
pub open spec fn light(n: nat) -> Light {
    if n == 0 {
        Light::Green
    } else if n == 1 {
        Light::Yellow
    } else {
        Light::Red
    }
}

/// What is said of the shortages.
pub open spec fn verdict_text(s: Seq<Seq<char>>) -> Seq<char> {
    match light(s.len()) {
        Light::Green => "资源充足，可执行"@,
        Light::Yellow => "资源偏紧: "@ + join(s, "; "@),
        Light::Red => "资源不足: "@ + join(s, "; "@),
    }
}

/// The barrier is red exactly where at least two of the three are short: disk, memory and
/// server.
pub proof fn red_means_two(
    avail: u64,
    mem_short: bool,
    mem_text: Seq<char>,
    host: Seq<char>,
    p: Probe,
)
    ensures
        ({
            let disk = avail < 20;
            let server = !(p is Banner);
            let l = light(shortages(avail, mem_short, mem_text, host, p).len());
            &&& l == Light::Red <==> (disk && mem_short) || (disk && server) || (mem_short
                && server)
            &&& l == Light::Green <==> !disk && !mem_short && !server
        }),
{
}

/// The light, and what is said with it.
pub fn gate_verdict(avail: u64, m: &Memory, host: &str, p: &Probe) -> (r: (Light, String))
    ensures
        ({
            let s = shortages(avail, m.short, m.text@, host@, *p);
            &&& r.0 == light(s.len())
            &&& r.1@ == verdict_text(s)
        }),
{
    let mut s: Vec<String> = Vec::new();
    if avail < 20 {
        say(&mut s, cat3("本机磁盘仅 ", decimal(avail).as_str(), "GB 可用").as_str());
    }
    if m.short {
        say(&mut s, cat3("本机内存余量 ", m.text.as_str(), "%").as_str());
    }
    match p {
        Probe::Unreachable => {
            say(&mut s, cat3("服务器 ", quote(host).as_str(), " 不可达").as_str());
        },
        Probe::Silent => {
            say(&mut s, "服务器 SSH 响应异常（高负载）");
        },
        Probe::Banner { .. } => {},
    }
    assert(texts(s@) =~= shortages(avail, m.short, m.text@, host@, *p));
    assert(texts(s@).len() == s@.len());
    if s.len() == 0 {
        (Light::Green, "资源充足，可执行".to_owned())
    } else if s.len() == 1 {
        (Light::Yellow, cat("资源偏紧: ", joined(&s, "; ").as_str()))
    } else {
        (Light::Red, cat("资源不足: ", joined(&s, "; ").as_str()))
    }
}

/// The name of a light.
pub open spec fn light_word(l: Light) -> Seq<char> {
    match l {
        Light::Green => "green"@,
        Light::Yellow => "yellow"@,
        Light::Red => "red"@,
    }
}

/// The name of a light.
pub fn light_name(l: Light) -> (r: &'static str)
    ensures
        r@ == light_word(l),
{
    match l {
        Light::Green => "green",
        Light::Yellow => "yellow",
        Light::Red => "red",
    }
}

/// What is advised.
pub open spec fn gate_advice(l: Light) -> Seq<char> {
    match l {
        Light::Red => "红灯：禁止部署/大任务——等资源恢复（负载回落/清理磁盘）"@,
        Light::Yellow => "黄灯：资源偏紧——小任务可执行，大文件分批"@,
        Light::Green => "绿灯：资源充足，可执行"@,
    }
}

fn advice_for(l: Light) -> (r: &'static str)
    ensures
        r@ == gate_advice(l),
{
    match l {
        Light::Red => "红灯：禁止部署/大任务——等资源恢复（负载回落/清理磁盘）",
        Light::Yellow => "黄灯：资源偏紧——小任务可执行，大文件分批",
        Light::Green => "绿灯：资源充足，可执行",
    }
}

/// The exit code of the barrier: two for a red light, one for a yellow one.
pub fn gate_code(l: Light) -> (r: i32)
    ensures
        r == match l {
            Light::Red => 2i32,
            Light::Yellow => 1i32,
            Light::Green => 0i32,
        },
{
    match l {
        Light::Red => 2,
        Light::Yellow => 1,
        Light::Green => 0,
    }
}

// ---------------------------------------------------------------- the report

/// What the barrier looked at.
pub struct Resources {
    pub avail_gb: u64,
    pub total_gb: u64,
    pub memory: Memory,
    pub server: String,
    pub probe: Probe,
}

impl Resources {
    /// What is short.
    pub open spec fn shortages(&self) -> Seq<Seq<char>> {
        shortages(
            self.avail_gb,
            self.memory.short,
            self.memory.text@,
            self.server@,
            self.probe,
        )
    }

    /// The light.
    pub open spec fn light(&self) -> Light {
        light(self.shortages().len())
    }
}

/// The state of the barrier as a value.
pub open spec fn gate_value(x: &Resources, now: u64) -> JsonView {
    JsonView::object().put("ts"@, JsonView::Int(now as int)).put(
        "verdict"@,
        JsonView::Str(light_word(x.light())),
    ).put("msg"@, JsonView::Str(verdict_text(x.shortages()))).put(
        "local"@,
        JsonView::object().put("disk_avail_gb"@, JsonView::Int(x.avail_gb as int)).put(
            "disk_total_gb"@,
            JsonView::Int(x.total_gb as int),
        ).put("mem_free_pct"@, JsonView::Int(x.memory.percent as int)),
    ).put("server"@, server_value(x.server@, x.probe)).put(
        "gate"@,
        JsonView::Str("load-gate v0.1"@),
    ).put("advice"@, JsonView::Str(gate_advice(x.light())))
}

/// The state of the barrier as a value.
pub fn gate_state(x: &Resources, now: u64) -> (r: Json)
    ensures
        r@ == gate_value(x, now),
{
    let (l, msg) = gate_verdict(x.avail_gb, &x.memory, x.server.as_str(), &x.probe);
    let local = Json::object().with("disk_avail_gb", Json::Uint(x.avail_gb)).with(
        "disk_total_gb",
        Json::Uint(x.total_gb),
    ).with("mem_free_pct", Json::Uint(x.memory.percent));
    Json::object().with("ts", Json::Uint(now)).with("verdict", Json::text(light_name(l))).with(
        "msg",
        Json::text(msg.as_str()),
    ).with("local", local).with("server", server_state(x.server.as_str(), &x.probe)).with(
        "gate",
        Json::text("load-gate v0.1"),
    ).with("advice", Json::text(advice_for(l)))
}

/// The state as it is put on the board.
pub open spec fn gate_posting(x: &Resources, now: u64) -> JsonView {
    JsonView::object().put("value"@, gate_value(x, now)).put("ts"@, JsonView::Int(now as int))
}

/// Where the state is put on the board, and as which value: under its time, and as the
/// current one.
pub fn gate_postings(x: &Resources, now: u64) -> (r: Vec<(String, Json)>)
    ensures
        r@.len() == 2,
        r@[0].0@ == "data/ops/resource-gate/status-"@ + dec(now as nat),
        r@[0].1@ == gate_posting(x, now),
        r@[1].0@ == "data/ops/resource-gate/current"@,
        r@[1].1@ == gate_posting(x, now),
{
    let mut v: Vec<(String, Json)> = Vec::new();
    v.push(
        (
            cat("data/ops/resource-gate/status-", decimal(now).as_str()),
            Json::object().with("value", gate_state(x, now)).with("ts", Json::Uint(now)),
        ),
    );
    v.push(
        (
            "data/ops/resource-gate/current".to_owned(),
            Json::object().with("value", gate_state(x, now)).with("ts", Json::Uint(now)),
        ),
    );
    v
}

/// The mark of a light.
pub open spec fn light_mark(l: Light) -> Seq<char> {
    match l {
        Light::Green => "🟢"@,
        Light::Yellow => "🟡"@,
        Light::Red => "🔴"@,
    }
}

/// What is printed of the state.
pub open spec fn gate_lines(x: &Resources) -> Seq<Seq<char>> {
    seq![
        "══ load-gate 资源总控门 ══"@,
        "  本机磁盘: "@ + dec(x.avail_gb as nat) + "G 可用 / "@ + dec(x.total_gb as nat) + "G 总量"@,
        "  本机内存余量: "@ + x.memory.text@ + "%"@,
        "  服务器 "@ + x.server@ + ": "@ + (if x.probe is Unreachable {
            "不可达"@
        } else {
            "可达"@
        }) + " (ssh_ok="@ + (if x.probe is Banner {
            "true"@
        } else {
            "false"@
        }) + ")"@,
        "  ══ 判定: ["@ + light_mark(x.light()) + "] "@ + verdict_text(x.shortages()) + " ══"@,
        "  建议: "@ + quoted(gate_advice(x.light())),
    ]
}

/// What is printed of the state.
pub fn gate_report(x: &Resources) -> (l: Vec<String>)
    ensures
        texts(l@) == gate_lines(x),
{
    let (light, msg) = gate_verdict(x.avail_gb, &x.memory, x.server.as_str(), &x.probe);
    let mut l: Vec<String> = Vec::new();
    say(&mut l, "══ load-gate 资源总控门 ══");
    say(
        &mut l,
        cat5(
            "  本机磁盘: ",
            decimal(x.avail_gb).as_str(),
            "G 可用 / ",
            decimal(x.total_gb).as_str(),
            "G 总量",
        ).as_str(),
    );
    say(&mut l, cat3("  本机内存余量: ", x.memory.text.as_str(), "%").as_str());
    let (reach, ssh) = match x.probe {
        Probe::Banner { .. } => ("可达", "true"),
        Probe::Silent => ("可达", "false"),
        Probe::Unreachable => ("不可达", "false"),
    };
    say(
        &mut l,
        cat7("  服务器 ", x.server.as_str(), ": ", reach, " (ssh_ok=", ssh, ")").as_str(),
    );
    let mark = match light {
        Light::Green => "🟢",
        Light::Yellow => "🟡",
        Light::Red => "🔴",
    };
    say(&mut l, cat5("  ══ 判定: [", mark, "] ", msg.as_str(), " ══").as_str());
    say(&mut l, cat("  建议: ", quote(advice_for(light)).as_str()).as_str());
    assert(texts(l@) =~= gate_lines(x));
    l
}

// ---------------------------------------------------------------- the command

/// What is printed of the state, a value or lines, and the exit code of the barrier.
pub fn run(x: &Resources, report: bool, now: u64) -> (r: Outcome)
    ensures
        r.code == match x.light() {
            Light::Red => 2i32,
            Light::Yellow => 1i32,
            Light::Green => 0i32,
        },
        texts(r.lines@) == if report {
            seq![json_pretty(gate_value(x, now).canon())]
        } else {
            gate_lines(x)
        },
{
    let (l, _) = gate_verdict(x.avail_gb, &x.memory, x.server.as_str(), &x.probe);
    let code: i32 = gate_code(l);
    if report {
        let mut lines: Vec<String> = Vec::new();
        say(&mut lines, pretty(&gate_state(x, now)).as_str());
        assert(texts(lines@) =~= seq![json_pretty(gate_value(x, now).canon())]);
        Outcome { lines, code }
    } else {
        Outcome { lines: gate_report(x), code }
    }
}

// ---------------------------------------------------------------- laws

/// A number of kibibytes gives the gibibytes that are full in it.
pub proof fn gibibytes_are_full(n: nat)
    requires
        n <= u64::MAX,
    ensures
        gibibytes(dec(n)) * 1048576 <= n < (gibibytes(dec(n)) + 1) * 1048576,
{
    dec_round_trip(n, u64::MAX as nat);
}

/// The free space is the fourth word of the second line, the whole space is its second
/// word, and both are kibibytes.
pub proof fn space_is_read(txt: Seq<char>, w: Seq<Seq<char>>, free: nat, whole: nat)
    requires
        lines(txt).len() >= 2,
        words(lines(txt)[1]) == w,
        w.len() >= 4,
        w[1] == dec(whole),
        w[3] == dec(free),
        free <= u64::MAX,
        whole <= u64::MAX,
    ensures
        disk_space(txt).0 * 1048576 <= free < (disk_space(txt).0 + 1) * 1048576,
        disk_space(txt).1 * 1048576 <= whole < (disk_space(txt).1 + 1) * 1048576,
{
    gibibytes_are_full(free);
    gibibytes_are_full(whole);
}

/// A number of pages is read behind the colon of its line, without the blanks around it
/// and without the dot behind it; where several lines count pages of a sort, the last one
/// says how many there are.
pub proof fn pages_are_read(
    before: Seq<Seq<char>>,
    name: Seq<char>,
    gap: Seq<char>,
    n: nat,
    behind: Seq<Seq<char>>,
    p: Pages,
)
    requires
        !name.contains(':'),
        blank(gap),
        !gap.contains(':'),
        pages_of(name + seq![':'] + (gap + dec(n) + seq!['.'])) == Some(p),
        forall|i: int| 0 <= i < behind.len() ==> pages_of(#[trigger] behind[i]) != Some(p),
    ensures
        page_count(
            before + seq![name + seq![':'] + (gap + dec(n) + seq!['.'])] + behind,
            p,
        ) == Some(dec(n)),
    decreases behind.len(),
{
    let line = name + seq![':'] + (gap + dec(n) + seq!['.']);
    let ls = before + seq![line] + behind;
    if behind.len() > 0 {
        assert(ls.last() == behind.last());
        assert(behind.last() == behind[behind.len() - 1]);
        assert(ls.drop_last() =~= before + seq![line] + behind.drop_last());
        pages_are_read(before, name, gap, n, behind.drop_last(), p);
    } else {
        assert(ls.last() == line);
        let m = gap + dec(n) + seq!['.'];
        dec_is_plain(n);
        assert(!m.contains(':'));
        piece_between(name, ':', m, seq![]);
        reveal_strlit(":");
        assert(":"@ =~= seq![':']);
        reveal_strlit(".");
        assert("."@ =~= seq!['.']);
        let b = dec(n) + seq!['.'];
        assert(m =~= gap + b + Seq::<char>::empty());
        assert(!is_space(b[0]) && !is_space(b.last()));
        trimming_bares(gap, b, seq![]);
        assert("."@.contains('.'));
        assert(only_of(seq!['.'], "."@));
        assert(!"."@.contains(dec(n).last()));
        stripping_bares(dec(n), seq!['.'], "."@);
    }
}

/// What is put on the board says the light, the free disk and the free memory, and whether
/// the server took the connection, as they are.
pub proof fn state_is_told(x: &Resources, now: u64)
    ensures
        ({
            let v = gate_value(x, now);
            let disk = x.avail_gb < 20;
            let silent = !(x.probe is Banner);
            let short = x.memory.short;
            &&& v.at("ts"@) == JsonView::Int(now as int)
            &&& v.at("local"@).at("disk_avail_gb"@) == JsonView::Int(x.avail_gb as int)
            &&& v.at("local"@).at("disk_total_gb"@) == JsonView::Int(x.total_gb as int)
            &&& v.at("local"@).at("mem_free_pct"@) == JsonView::Int(x.memory.percent as int)
            &&& v.at("server"@).at("host"@) == JsonView::Str(x.server@)
            &&& v.at("server"@).at("reachable"@) == JsonView::Bool(x.probe !is Unreachable)
            &&& v.at("verdict"@) == JsonView::Str(
                if !disk && !short && !silent {
                    "green"@
                } else if (disk && short) || (disk && silent) || (short && silent) {
                    "red"@
                } else {
                    "yellow"@
                },
            )
        }),
{
    broadcast use read_of_put;

    reveal_strlit("ts");
    reveal_strlit("verdict");
    reveal_strlit("msg");
    reveal_strlit("local");
    reveal_strlit("server");
    reveal_strlit("gate");
    reveal_strlit("advice");
    reveal_strlit("disk_avail_gb");
    reveal_strlit("disk_total_gb");
    reveal_strlit("mem_free_pct");
    reveal_strlit("host");
    reveal_strlit("reachable");
    reveal_strlit("ssh_ok");
    reveal_strlit("rtt_ms");
    reveal_strlit("note");
    assert("ts"@.len() == 2 && "verdict"@.len() == 7 && "msg"@.len() == 3 && "local"@.len() == 5 && "server"@.len() == 6 && "gate"@.len() == 4 && "advice"@.len() == 6 && "disk_avail_gb"@.len() == 13 && "disk_total_gb"@.len() == 13 && "mem_free_pct"@.len() == 12 && "host"@.len() == 4 && "reachable"@.len() == 9 && "ssh_ok"@.len() == 6 && "rtt_ms"@.len() == 6 && "note"@.len() == 4);
    assert("server"@[0] != "advice"@[0]);
    assert("server"@[1] != "ssh_ok"@[1]);
    assert("server"@[0] != "rtt_ms"@[0]);
    assert("gate"@[0] != "host"@[0]);
    assert("gate"@[0] != "note"@[0]);
    assert("advice"@[0] != "ssh_ok"@[0]);
    assert("advice"@[0] != "rtt_ms"@[0]);
    assert("disk_avail_gb"@[5] != "disk_total_gb"@[5]);
    assert("host"@[0] != "note"@[0]);
    assert("ssh_ok"@[0] != "rtt_ms"@[0]);
}

} // verus!
