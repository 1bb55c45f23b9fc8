//! The health of the plugins, and the state of an upgrade.
use vstd::prelude::*;
use crate::args::names;
use crate::board::{nonblank, nonblank_lines, tail};
use crate::bus::{maybe_value, read_json, value_read};
use crate::json::{read_of_put, views, Json, JsonView};
use crate::path::{path_under, under};
use crate::report::say;
use crate::text::{
    begins, cat4, contains, first, first_chars, has, lines, maybe, parts_are_seen, same, starts,
    texts,
};

verus! {

// ---------------------------------------------------------------- places

/// Where the runtime may stand.
pub open spec fn runtime_places() -> Seq<Seq<char>> {
    seq![
        "/Applications/CLD.app/Contents/Resources/dsh-runtime/runtime"@,
        "/Applications/CLD.app/Contents/Resources/dsh-runtime"@,
        "/Users/coreyleung/CLD/dsh-runtime/runtime"@,
    ]
}

/// Where the runtime may stand.
pub fn runtime_candidates() -> (r: Vec<String>)
    ensures
        texts(r@) == runtime_places(),
{
    let mut v: Vec<String> = Vec::new();
    say(&mut v, "/Applications/CLD.app/Contents/Resources/dsh-runtime/runtime");
    say(&mut v, "/Applications/CLD.app/Contents/Resources/dsh-runtime");
    say(&mut v, "/Users/coreyleung/CLD/dsh-runtime/runtime");
    assert(texts(v@) =~= runtime_places());
    v
}

/// The first place that is marked, else the first of all.
pub open spec fn first_marked(places: Seq<Seq<char>>, marks: Seq<bool>, i: int) -> Seq<char>
    decreases places.len() - i,
{
    if i < 0 || i >= places.len() {
        places[0]
    } else if i < marks.len() && marks[i] {
        places[i]
    } else {
        first_marked(places, marks, i + 1)
    }
}

/// Where the runtime stands, given for each place whether it does; the first place
/// where it stands nowhere.
pub fn find_runtime(present: &[bool]) -> (r: String)
    ensures
        r@ == first_marked(runtime_places(), present@, 0),
{
    let c = runtime_candidates();
    let ghost t = texts(c@);
    let mut i: usize = 0;
    while i < c.len()
        invariant
            i <= c@.len(),
            t == texts(c@),
            t == runtime_places(),
            first_marked(t, present@, 0) == first_marked(t, present@, i as int),
        decreases c@.len() - i,
    {
        assert(t[i as int] == c@[i as int]@);
        if i < present.len() && present[i] {
            return c[i].clone();
        }
        i += 1;
    }
    assert(t[0] == c@[0]@);
    c[0].clone()
}

/// The package of the program in a runtime.
pub fn program_package(runtime: &str) -> (r: String)
    ensures
        r@ == under(runtime@, "node_modules/@deepseek-ai/dsh/package.json"@),
{
    path_under(runtime, "node_modules/@deepseek-ai/dsh/package.json")
}

/// Where the plugins of the profile stand.
pub fn profile_nm(home: &str) -> (r: String)
    ensures
        r@ == under(home@, ".dsh/profiles/web/node_modules"@),
{
    path_under(home, ".dsh/profiles/web/node_modules")
}

// ---------------------------------------------------------------- files

/// The version in a package, or that there is none to be read.
pub open spec fn version_in(pkg: Option<JsonView>) -> Seq<char> {
    match pkg {
        Some(v) => v.text_or("version"@, "?"@),
        None => "MISSING"@,
    }
}

/// The version in a package.
pub fn package_version(pkg: &Option<Json>) -> (r: String)
    ensures
        r@ == version_in(maybe_value(*pkg)),
{
    match pkg {
        Some(v) => v.text_or("version", "?"),
        None => "MISSING".to_owned(),
    }
}

/// The version of the program, given the text of its package where it can be read.
pub fn dsh_version(text: &Option<String>) -> (r: String)
    ensures
        r@ == version_in(value_read(maybe(*text))),
{
    package_version(&read_json(text))
}

/// The last lines of a log that are not blank; a word where there is no log.
pub open spec fn log_tail(text: Option<Seq<char>>, n: nat) -> Seq<Seq<char>> {
    match text {
        Some(t) => tail(nonblank(lines(t)), n),
        None => seq!["(无日志)"@],
    }
}

/// The last lines of a log.
pub fn tail_file(text: &Option<String>, n: usize) -> (r: Vec<String>)
    ensures
        texts(r@) == log_tail(maybe(*text), n as nat),
{
    let mut out: Vec<String> = Vec::new();
    match text {
        None => {
            say(&mut out, "(无日志)");
            assert(texts(out@) =~= log_tail(maybe(*text), n as nat));
        },
        Some(t) => {
            let ls = nonblank_lines(t.as_str());
            let ghost u = texts(ls@);
            let from: usize = if n < ls.len() {
                ls.len() - n
            } else {
                0
            };
            let ghost want = tail(u, n as nat);
            let mut i: usize = from;
            while i < ls.len()
                invariant
                    from <= i <= ls@.len(),
                    u == texts(ls@),
                    out@.len() == i - from,
                    forall|j: int| 0 <= j < i - from ==> (#[trigger] out@[j])@ == u[from + j],
                decreases ls@.len() - i,
            {
                out.push(ls[i].clone());
                i += 1;
            }
            assert(texts(out@) =~= want);
        },
    }
    out
}

// ---------------------------------------------------------------- plugins

/// A directory among the packages of the profile: its name, the text of its package
/// where it can be read, and whether its entry file exists.
pub struct PluginDir {
    pub name: String,
    pub package: Option<String>,
    pub main_exists: bool,
}

/// A directory among the packages of the profile, as texts and values.
#[verifier::ext_equal]
pub struct Plugin {
    pub name: Seq<char>,
    pub package: Option<JsonView>,
    pub main_exists: bool,
}

impl PluginDir {
    /// The directory as texts and values.
    pub open spec fn model(&self) -> Plugin {
        Plugin {
            name: self.name@,
            package: value_read(maybe(self.package)),
            main_exists: self.main_exists,
        }
    }
}

/// Some directories as texts and values.
pub open spec fn plugin_views(v: Seq<PluginDir>) -> Seq<Plugin> {
    v.map_values(|p: PluginDir| p.model())
}

/// A directory that holds a plugin.
pub open spec fn is_plugin(name: Seq<char>) -> bool {
    starts(name, "dsh-plugin-"@)
}

/// Whether a directory holds a plugin.
pub fn names_plugin(name: &str) -> (r: bool)
    ensures
        r == is_plugin(name@),
{
    begins(name, "dsh-plugin-")
}

/// The entry file of a plugin, given the text of its package where it can be read.
pub fn plugin_main(text: &Option<String>) -> (r: Option<String>)
    ensures
        maybe(r) == match value_read(maybe(*text)) {
            Some(v) => Some(v.text_or("main"@, "lib/index.js"@)),
            None => None,
        },
{
    match read_json(text) {
        Some(v) => Some(v.text_or("main", "lib/index.js")),
        None => None,
    }
}

/// A check: its name, whether it passed, and the detail.
pub struct Check {
    pub name: String,
    pub ok: bool,
    pub detail: String,
}

/// Some checks as texts.
pub open spec fn check_views(v: Seq<Check>) -> Seq<(Seq<char>, bool, Seq<char>)> {
    v.map_values(|c: Check| (c.name@, c.ok, c.detail@))
}

fn add_check(v: &mut Vec<Check>, name: &str, ok: bool, detail: &str)
    ensures
        check_views(final(v)@) == check_views(old(v)@).push((name@, ok, detail@)),
{
    let ghost before = check_views(v@);
    v.push(Check { name: name.to_owned(), ok, detail: detail.to_owned() });
    assert(check_views(v@) =~= before.push((name@, ok, detail@)));
}

/// The check of a plugin: its package can be read, and its entry file exists.
pub open spec fn plugin_check(p: Plugin) -> (Seq<char>, bool, Seq<char>) {
    let main_ok = p.package is Some && p.main_exists;
    (
        p.name,
        main_ok,
        "v"@ + (match p.package {
            Some(v) => v.text_or("version"@, "?"@),
            None => "?"@,
        }) + " main="@ + (if main_ok {
            "ok"@
        } else {
            "MISSING"@
        }),
    )
}

/// The checks of the plugins.
pub open spec fn plugin_checks(ps: Seq<Plugin>) -> Seq<(Seq<char>, bool, Seq<char>)>
    decreases ps.len(),
{
    if ps.len() == 0 {
        seq![]
    } else if is_plugin(ps.last().name) {
        plugin_checks(ps.drop_last()).push(plugin_check(ps.last()))
    } else {
        plugin_checks(ps.drop_last())
    }
}

/// How many plugins have a package that can be read.
pub open spec fn plugin_count(ps: Seq<Plugin>) -> nat
    decreases ps.len(),
{
    if ps.len() == 0 {
        0
    } else {
        plugin_count(ps.drop_last()) + if is_plugin(ps.last().name) && ps.last().package is Some {
            1nat
        } else {
            0nat
        }
    }
}

/// The plugins that nothing works without.
pub open spec fn core_plugins() -> Seq<Seq<char>> {
    seq!["dsh-plugin-agent-way"@, "dsh-plugin-central-inbox"@, "dsh-plugin-bus-bridge"@]
}

/// Under a name stands no plugin whose package can be read.
pub open spec fn broken(ps: Seq<Plugin>, name: Seq<char>) -> bool {
    forall|i: int| 0 <= i < ps.len() && (#[trigger] ps[i]).name == name ==> ps[i].package is None
}

/// The checks of the core plugins that are not there, or broken.
pub open spec fn core_checks(ps: Seq<Plugin>, core: Seq<Seq<char>>) -> Seq<
    (Seq<char>, bool, Seq<char>),
>
    decreases core.len(),
{
    if core.len() == 0 {
        seq![]
    } else if broken(ps, core.last()) {
        core_checks(ps, core.drop_last()).push((core.last(), false, "核心插件缺失"@))
    } else {
        core_checks(ps, core.drop_last())
    }
}

fn is_broken(ps: &Vec<PluginDir>, name: &str) -> (r: bool)
    ensures
        r == broken(plugin_views(ps@), name@),
{
    let ghost t = plugin_views(ps@);
    let mut i: usize = 0;
    while i < ps.len()
        invariant
            i <= ps@.len(),
            t == plugin_views(ps@),
            forall|j: int| 0 <= j < i && (#[trigger] t[j]).name == name@ ==> t[j].package is None,
        decreases ps@.len() - i,
    {
        assert(t[i as int] == ps@[i as int].model());
        if same(ps[i].name.as_str(), name) && read_json(&ps[i].package).is_some() {
            assert(plugin_views(ps@)[i as int].name == name@);
            return false;
        }
        i += 1;
    }
    true
}

fn check_plugin(v: &mut Vec<Check>, p: &PluginDir) -> (readable: bool)
    ensures
        check_views(final(v)@) == check_views(old(v)@).push(plugin_check(p.model())),
        readable == (p.model().package is Some),
{
    let pkg = read_json(&p.package);
    let main_ok = pkg.is_some() && p.main_exists;
    let ver = match &pkg {
        Some(x) => x.text_or("version", "?"),
        None => "?".to_owned(),
    };
    let state = if main_ok {
        "ok"
    } else {
        "MISSING"
    };
    add_check(
        v,
        p.name.as_str(),
        main_ok,
        cat4("v", ver.as_str(), " main=", state).as_str(),
    );
    pkg.is_some()
}

// ---------------------------------------------------------------- the health check

/// What the health check looks at.
pub struct Health {
    pub runtime: String,
    pub package: Option<String>,
    pub plugins: Vec<PluginDir>,
    pub bridge_answers: bool,
    pub log_exists: bool,
    pub log: Option<String>,
    pub bus_exists: bool,
}

/// A line of the log that tells of activity.
pub open spec fn lively(l: Seq<char>) -> bool {
    ||| contains(l, "inject OK"@)
    ||| contains(l, "SSE connected"@)
    ||| contains(l, "apply start"@)
    ||| contains(l, "inject"@)
    ||| contains(l, "注入"@)
    ||| contains(l, "delivered"@)
    ||| contains(l, "deliv"@)
}

/// The check of the bridge.
pub open spec fn bridge_check(ok: bool) -> (Seq<char>, bool, Seq<char>) {
    (
        "SSE 8803 事件桥"@,
        ok,
        if ok {
            "连接正常"@
        } else {
            "无监听（黑板未运行或 SSE 桥未启）"@
        },
    )
}

/// One of the lines tells of activity.
pub open spec fn some_lively(ls: Seq<Seq<char>>) -> bool {
    exists|i: int| 0 <= i < ls.len() && lively(#[trigger] ls[i])
}

/// The check of the inbox: one of the last five lines of its log tells of activity.
pub open spec fn inbox_check(exists_: bool, log: Option<Seq<char>>) -> (
    Seq<char>,
    bool,
    Seq<char>,
) {
    if exists_ {
        let ls = log_tail(log, 5);
        (
            "central-inbox 活动"@,
            some_lively(ls),
            if ls.len() == 0 {
                seq![]
            } else {
                first(ls.last(), 100)
            },
        )
    } else {
        ("central-inbox 活动"@, false, "日志不存在（central-inbox 未运行）"@)
    }
}

/// The check of the bus.
pub open spec fn bus_check(ok: bool) -> (Seq<char>, bool, Seq<char>) {
    (
        "agentBus 总线"@,
        ok,
        if ok {
            "agent-bus.json 存在"@
        } else {
            "agent-bus.json 缺失"@
        },
    )
}

impl Health {
    /// The version of the program.
    pub open spec fn version(&self) -> Seq<char> {
        version_in(value_read(maybe(self.package)))
    }

    /// The directories of the profile.
    pub open spec fn dirs(&self) -> Seq<Plugin> {
        plugin_views(self.plugins@)
    }

    /// All checks in their order.
    pub open spec fn checks(&self) -> Seq<(Seq<char>, bool, Seq<char>)> {
        seq![("dsh 版本"@, self.version() != "MISSING"@, self.version())] + plugin_checks(
            self.dirs(),
        ) + core_checks(self.dirs(), core_plugins()) + seq![
            bridge_check(self.bridge_answers),
            inbox_check(self.log_exists, maybe(self.log)),
            bus_check(self.bus_exists),
        ]
    }
}

/// Every check passed.
pub open spec fn all_pass(cs: Seq<(Seq<char>, bool, Seq<char>)>) -> bool {
    forall|i: int| 0 <= i < cs.len() ==> (#[trigger] cs[i]).1
}

fn is_lively(l: &str) -> (r: bool)
    ensures
        r == lively(l@),
{
    has(l, "inject OK") || has(l, "SSE connected") || has(l, "apply start") || has(l, "inject")
        || has(l, "注入") || has(l, "delivered") || has(l, "deliv")
}

fn any_lively(ls: &Vec<String>) -> (r: bool)
    ensures
        r == some_lively(texts(ls@)),
{
    let mut i: usize = 0;
    while i < ls.len()
        invariant
            i <= ls@.len(),
            forall|j: int| 0 <= j < i ==> !lively(#[trigger] texts(ls@)[j]),
        decreases ls@.len() - i,
    {
        assert(texts(ls@)[i as int] == ls@[i as int]@);
        if is_lively(ls[i].as_str()) {
            return true;
        }
        i += 1;
    }
    false
}

fn add_inbox(v: &mut Vec<Check>, exists_: bool, log: &Option<String>)
    ensures
        check_views(final(v)@) == check_views(old(v)@).push(inbox_check(exists_, maybe(*log))),
{
    if !exists_ {
        add_check(v, "central-inbox 活动", false, "日志不存在（central-inbox 未运行）");
        return;
    }
    let ls = tail_file(log, 5);
    let ghost t = texts(ls@);
    let active = any_lively(&ls);
    let n: usize = ls.len();
    assert(t.len() == n);
    let detail = if n == 0 {
        String::new()
    } else {
        assert(t.last() == ls@[n - 1]@);
        first_chars(ls[n - 1].as_str(), 100)
    };
    add_check(v, "central-inbox 活动", active, detail.as_str());
}

fn passes(v: &Vec<Check>) -> (r: bool)
    ensures
        r == all_pass(check_views(v@)),
{
    let ghost t = check_views(v@);
    let mut i: usize = 0;
    while i < v.len()
        invariant
            i <= v@.len(),
            t == check_views(v@),
            forall|j: int| 0 <= j < i ==> (#[trigger] t[j]).1,
        decreases v@.len() - i,
    {
        assert(t[i as int].1 == v@[i as int].ok);
        if !v[i].ok {
            return false;
        }
        i += 1;
    }
    true
}

/// All checks in their order, and how many plugins were found.
pub fn health_checks(h: &Health) -> (r: (Vec<Check>, usize))
    ensures
        check_views(r.0@) == h.checks(),
        r.1 == plugin_count(h.dirs()),
{
    let mut v: Vec<Check> = Vec::new();
    let ghost ps = h.dirs();
    let dsv = dsh_version(&h.package);
    add_check(&mut v, "dsh 版本", !same(dsv.as_str(), "MISSING"), dsv.as_str());
    let ghost base = check_views(v@);
    assert(base =~= seq![("dsh 版本"@, h.version() != "MISSING"@, h.version())]);
    let mut n: usize = 0;
    let mut i: usize = 0;
    assert(ps.take(0) =~= seq![]);
    assert(base + plugin_checks(ps.take(0)) =~= base);
    while i < h.plugins.len()
        invariant
            n <= i <= h.plugins@.len(),
            ps == plugin_views(h.plugins@),
            n == plugin_count(ps.take(i as int)),
            check_views(v@) == base + plugin_checks(ps.take(i as int)),
        decreases h.plugins@.len() - i,
    {
        proof {
            assert(ps.take(i + 1).drop_last() =~= ps.take(i as int));
            assert(ps.take(i + 1).last() == h.plugins@[i as int].model());
        }
        if names_plugin(h.plugins[i].name.as_str()) {
            let readable = check_plugin(&mut v, &h.plugins[i]);
            assert(check_views(v@) =~= base + plugin_checks(ps.take(i + 1)));
            if readable {
                n += 1;
            }
        }
        i += 1;
    }
    assert(ps.take(i as int) =~= ps);
    let core = ["dsh-plugin-agent-way", "dsh-plugin-central-inbox", "dsh-plugin-bus-bridge"];
    let ghost c = core_plugins();
    assert(names(core@) =~= c);
    let ghost with_plugins = check_views(v@);
    let mut k: usize = 0;
    assert(c.take(0) =~= seq![]);
    assert(with_plugins + core_checks(ps, c.take(0)) =~= with_plugins);
    while k < 3
        invariant
            k <= 3,
            core@.len() == 3,
            c == names(core@),
            ps == plugin_views(h.plugins@),
            check_views(v@) == with_plugins + core_checks(ps, c.take(k as int)),
        decreases 3 - k,
    {
        proof {
            assert(c.take(k + 1).drop_last() =~= c.take(k as int));
            assert(c.take(k + 1).last() == core@[k as int]@);
        }
        if is_broken(&h.plugins, core[k]) {
            add_check(&mut v, core[k], false, "核心插件缺失");
            assert(check_views(v@) =~= with_plugins + core_checks(ps, c.take(k + 1)));
        }
        k += 1;
    }
    assert(c.take(k as int) =~= c);
    let bridge = if h.bridge_answers {
        "连接正常"
    } else {
        "无监听（黑板未运行或 SSE 桥未启）"
    };
    add_check(&mut v, "SSE 8803 事件桥", h.bridge_answers, bridge);
    add_inbox(&mut v, h.log_exists, &h.log);
    let bus = if h.bus_exists {
        "agent-bus.json 存在"
    } else {
        "agent-bus.json 缺失"
    };
    add_check(&mut v, "agentBus 总线", h.bus_exists, bus);
    assert(check_views(v@) =~= h.checks());
    (v, n)
}

/// A check as a value.
pub open spec fn check_value(c: (Seq<char>, bool, Seq<char>)) -> JsonView {
    JsonView::object().put("name"@, JsonView::Str(c.0)).put("ok"@, JsonView::Bool(c.1)).put(
        "detail"@,
        JsonView::Str(c.2),
    )
}

/// The health as a value.
pub open spec fn health_value(h: &Health, ts: Seq<char>) -> JsonView {
    JsonView::object().put("ts"@, JsonView::Str(ts)).put(
        "dsh_version"@,
        JsonView::Str(h.version()),
    ).put("plugins_found"@, JsonView::Int(plugin_count(h.dirs()) as int)).put(
        "checks"@,
        JsonView::Arr(h.checks().map_values(|c: (Seq<char>, bool, Seq<char>)| check_value(c))),
    ).put("all_ok"@, JsonView::Bool(all_pass(h.checks()))).put(
        "runtime"@,
        JsonView::Str(h.runtime@),
    )
}

/// The health as a value.
pub fn run_health_check(h: &Health, ts: &str) -> (r: Json)
    ensures
        r@ == health_value(h, ts@),
{
    let (cs, n) = health_checks(h);
    let ghost t = check_views(cs@);
    let mut out: Vec<Json> = Vec::new();
    let mut i: usize = 0;
    while i < cs.len()
        invariant
            i <= cs@.len(),
            t == check_views(cs@),
            out@.len() == i,
            forall|j: int| 0 <= j < i ==> (#[trigger] out@[j])@ == check_value(t[j]),
        decreases cs@.len() - i,
    {
        let c = &cs[i];
        assert(t[i as int] == (c.name@, c.ok, c.detail@));
        let x = Json::object().with("name", Json::text(c.name.as_str())).with(
            "ok",
            Json::Bool(c.ok),
        ).with("detail", Json::text(c.detail.as_str()));
        out.push(x);
        i += 1;
    }
    assert(views(out@) =~= t.map_values(|c: (Seq<char>, bool, Seq<char>)| check_value(c)));
    Json::object().with("ts", Json::text(ts)).with(
        "dsh_version",
        Json::text(dsh_version(&h.package).as_str()),
    ).with("plugins_found", Json::Uint(n as u64)).with("checks", Json::array(out)).with(
        "all_ok",
        Json::Bool(passes(&cs)),
    ).with("runtime", Json::text(h.runtime.as_str()))
}

/// A broken plugin spoils the health: not all is well where one of the plugins cannot
/// be loaded.
pub proof fn broken_plugin_is_seen(h: &Health, i: int)
    requires
        0 <= i < h.dirs().len(),
        is_plugin(h.dirs()[i].name),
        h.dirs()[i].package is None || !h.dirs()[i].main_exists,
    ensures
        !all_pass(h.checks()),
{
    let ps = h.dirs();
    plugin_is_checked(ps, i);
    let pc = plugin_checks(ps);
    let k = choose|k: int| 0 <= k < pc.len() && pc[k] == plugin_check(ps[i]);
    assert(h.checks()[k + 1] == pc[k]);
    assert(!h.checks()[k + 1].1);
}

proof fn core_is_checked(ps: Seq<Plugin>, core: Seq<Seq<char>>, i: int)
    requires
        0 <= i < core.len(),
        broken(ps, core[i]),
    ensures
        core_checks(ps, core).contains((core[i], false, "核心插件缺失"@)),
    decreases core.len(),
{
    let all = core_checks(ps, core);
    let d = core.drop_last();
    let x = (core[i], false, "核心插件缺失"@);
    if i < d.len() {
        assert(d[i] == core[i]);
        core_is_checked(ps, d, i);
        let k = choose|k: int| 0 <= k < core_checks(ps, d).len() && core_checks(ps, d)[k] == x;
        assert(all[k] == x);
    } else {
        assert(all[all.len() - 1] == x);
    }
}

/// A core plugin that is not there, or cannot be read, is reported, and spoils the health.
pub proof fn missing_core_is_seen(h: &Health, name: Seq<char>)
    requires
        core_plugins().contains(name),
        broken(h.dirs(), name),
    ensures
        h.checks().contains((name, false, "核心插件缺失"@)),
        !all_pass(h.checks()),
{
    let core = core_plugins();
    let i = choose|i: int| 0 <= i < core.len() && core[i] == name;
    core_is_checked(h.dirs(), core, i);
    let x = (name, false, "核心插件缺失"@);
    let pc = plugin_checks(h.dirs());
    let cc = core_checks(h.dirs(), core);
    let k = choose|k: int| 0 <= k < cc.len() && cc[k] == x;
    let n = 1 + pc.len() + k;
    assert(h.checks()[n] == x);
    assert(!h.checks()[n].1);
}

proof fn plugin_is_checked(ps: Seq<Plugin>, i: int)
    requires
        0 <= i < ps.len(),
        is_plugin(ps[i].name),
    ensures
        plugin_checks(ps).contains(plugin_check(ps[i])),
    decreases ps.len(),
{
    let d = ps.drop_last();
    if i < d.len() {
        assert(d[i] == ps[i]);
        plugin_is_checked(d, i);
        let k = choose|k: int|
            0 <= k < plugin_checks(d).len() && plugin_checks(d)[k] == plugin_check(ps[i]);
        assert(plugin_checks(ps)[k] == plugin_check(ps[i]));
    } else {
        assert(plugin_checks(ps).last() == plugin_check(ps[i]));
    }
}

// ---------------------------------------------------------------- upgrades

/// What the state of an upgrade is read from.
pub struct Upgrade {
    pub package: Option<String>,
    pub sandbox: Option<String>,
    pub stress: Option<String>,
    pub cld_log: Option<String>,
    pub crash_reason: Option<String>,
    pub gate_exists: bool,
    pub pitfalls: Option<String>,
}

/// Where the logs stand that are looked at: of the sandbox, of the stress test, of the
/// program, and of the last crash.
pub fn upgrade_logs(home: &str) -> (r: Vec<String>)
    ensures
        texts(r@) == seq![
            under(home@, "dsh-collab/scripts/cld-shell-sandbox-test.log"@),
            under(home@, "dsh-collab/scripts/restart-stress-test.log"@),
            under(home@, ".cld/logs/dsh-web.log"@),
            under(home@, ".cld/logs/crash-reason.log"@),
        ],
{
    let mut v: Vec<String> = Vec::new();
    say(&mut v, path_under(home, "dsh-collab/scripts/cld-shell-sandbox-test.log").as_str());
    say(&mut v, path_under(home, "dsh-collab/scripts/restart-stress-test.log").as_str());
    say(&mut v, path_under(home, ".cld/logs/dsh-web.log").as_str());
    say(&mut v, path_under(home, ".cld/logs/crash-reason.log").as_str());
    assert(texts(v@) =~= seq![
        under(home@, "dsh-collab/scripts/cld-shell-sandbox-test.log"@),
        under(home@, "dsh-collab/scripts/restart-stress-test.log"@),
        under(home@, ".cld/logs/dsh-web.log"@),
        under(home@, ".cld/logs/crash-reason.log"@),
    ]);
    v
}

/// The last three lines of a log as a value.
pub open spec fn log_value(log: Option<Seq<char>>) -> JsonView {
    JsonView::Arr(log_tail(log, 3).map_values(|s: Seq<char>| JsonView::Str(s)))
}

fn log_json(log: &Option<String>) -> (r: Json)
    ensures
        r@ == log_value(maybe(*log)),
{
    let ls = tail_file(log, 3);
    assert(ls@.map_values(|s: String| JsonView::Str(s@)) =~= texts(ls@).map_values(
        |s: Seq<char>| JsonView::Str(s),
    ));
    Json::text_array(&ls)
}

/// How many pitfalls are on record.
pub open spec fn pitfall_count(data: Option<JsonView>) -> nat {
    match data {
        Some(v) => match v.items("items"@) {
            Some(a) => a.len(),
            None => 0,
        },
        None => 0,
    }
}

/// The state of an upgrade as a value.
pub open spec fn upgrade_value(u: &Upgrade, ts: Seq<char>) -> JsonView {
    JsonView::object().put("ts"@, JsonView::Str(ts)).put(
        "dsh_version"@,
        JsonView::Str(version_in(value_read(maybe(u.package)))),
    ).put(
        "logs"@,
        JsonView::object().put("sandbox"@, log_value(maybe(u.sandbox))).put(
            "stress"@,
            log_value(maybe(u.stress)),
        ).put("cld_log"@, log_value(maybe(u.cld_log))).put(
            "crash_reason"@,
            log_value(maybe(u.crash_reason)),
        ),
    ).put("restart_gate_available"@, JsonView::Bool(u.gate_exists)).put(
        "pitfalls_count"@,
        JsonView::Int(pitfall_count(value_read(maybe(u.pitfalls))) as int),
    )
}

/// The state of an upgrade as a value.
pub fn run_upgrade_status(u: &Upgrade, ts: &str) -> (r: Json)
    ensures
        r@ == upgrade_value(u, ts@),
{
    let logs = Json::object().with("sandbox", log_json(&u.sandbox)).with(
        "stress",
        log_json(&u.stress),
    ).with("cld_log", log_json(&u.cld_log)).with("crash_reason", log_json(&u.crash_reason));
    let n: usize = match read_json(&u.pitfalls) {
        Some(v) => match v.items("items") {
            Some(a) => {
                assert(views(a@).len() == a@.len());
                a.len()
            },
            None => 0,
        },
        None => 0,
    };
    Json::object().with("ts", Json::text(ts)).with(
        "dsh_version",
        Json::text(dsh_version(&u.package).as_str()),
    ).with("logs", logs).with("restart_gate_available", Json::Bool(u.gate_exists)).with(
        "pitfalls_count",
        Json::Uint(n as u64),
    )
}

// ---------------------------------------------------------------- the commands

/// What is asked for.
#[derive(Clone, Copy, PartialEq, Eq, Structural, Debug)]
pub enum HealthCommand {
    Usage,
    Check,
    Upgrade,
    PitfallQuery,
    PitfallAdd,
    PitfallUsage,
    Unknown,
}

/// What some arguments ask for.
pub open spec fn command_of(args: Seq<Seq<char>>) -> HealthCommand {
    if args.len() == 0 {
        HealthCommand::Usage
    } else if args[0] == "health-check"@ {
        HealthCommand::Check
    } else if args[0] == "upgrade-status"@ {
        HealthCommand::Upgrade
    } else if args[0] == "pitfall"@ {
        if args.len() >= 2 && args[1] == "query"@ {
            HealthCommand::PitfallQuery
        } else if args.len() >= 2 && args[1] == "add"@ {
            HealthCommand::PitfallAdd
        } else {
            HealthCommand::PitfallUsage
        }
    } else {
        HealthCommand::Unknown
    }
}

/// What some arguments ask for.
pub fn health_command(args: &[String]) -> (r: HealthCommand)
    ensures
        r == command_of(texts(args@)),
{
    let ghost t = texts(args@);
    assert(t.len() == args@.len());
    if args.len() == 0 {
        return HealthCommand::Usage;
    }
    assert(t[0] == args@[0]@);
    let a = args[0].as_str();
    if same(a, "health-check") {
        return HealthCommand::Check;
    }
    if same(a, "upgrade-status") {
        return HealthCommand::Upgrade;
    }
    if !same(a, "pitfall") {
        return HealthCommand::Unknown;
    }
    if args.len() >= 2 {
        assert(t[1] == args@[1]@);
        let b = args[1].as_str();
        if same(b, "query") {
            return HealthCommand::PitfallQuery;
        }
        if same(b, "add") {
            return HealthCommand::PitfallAdd;
        }
    }
    HealthCommand::PitfallUsage
}

/// What is printed where nothing is asked for.
pub open spec fn health_usage_lines() -> Seq<Seq<char>> {
    seq![
        "dsh-tools health 子命令:"@,
        "  health-check                     — 插件健康检查（dsh 版本/插件/SSE/注入/总线）"@,
        "  upgrade-status                   — 升级链路状态（沙箱/压测/崩溃日志 + 版本）"@,
        "  pitfall query <关键词> [--level P1] — 查询踩坑档案"@,
        "  pitfall add <标题> [--level P1] [--date YYYY-MM-DD] [--detail 内容] — 登记踩坑（写前红绿灯）"@,
    ]
}

/// What is printed where nothing is asked for.
pub fn health_usage() -> (l: Vec<String>)
    ensures
        texts(l@) == health_usage_lines(),
{
    let mut l: Vec<String> = Vec::new();
    say(&mut l, "dsh-tools health 子命令:");
    say(&mut l, "  health-check                     — 插件健康检查（dsh 版本/插件/SSE/注入/总线）");
    say(&mut l, "  upgrade-status                   — 升级链路状态（沙箱/压测/崩溃日志 + 版本）");
    say(&mut l, "  pitfall query <关键词> [--level P1] — 查询踩坑档案");
    say(
        &mut l,
        "  pitfall add <标题> [--level P1] [--date YYYY-MM-DD] [--detail 内容] — 登记踩坑（写前红绿灯）",
    );
    assert(texts(l@) =~= health_usage_lines());
    l
}

// ---------------------------------------------------------------- what health is

/// The first place that is marked is taken, and the first of all where none is.
pub proof fn first_place_is_taken(places: Seq<Seq<char>>, marks: Seq<bool>, i: int, k: int)
    requires
        0 <= i <= k < places.len(),
        k < marks.len(),
        forall|j: int| i <= j < k ==> !(#[trigger] marks[j]),
    ensures
        marks[k] ==> first_marked(places, marks, i) == places[k],
        !marks[k] && (k + 1 == places.len() || k + 1 == marks.len()) ==> first_marked(
            places,
            marks,
            i,
        ) == places[0],
    decreases k - i,
{
    if i < k {
        assert(!marks[i]);
        first_place_is_taken(places, marks, i + 1, k);
    } else if !marks[k] && (k + 1 == places.len() || k + 1 == marks.len()) {
        none_is_taken(places, marks, k + 1);
    }
}

proof fn none_is_taken(places: Seq<Seq<char>>, marks: Seq<bool>, i: int)
    requires
        i >= 0,
        i >= places.len() || i >= marks.len(),
    ensures
        first_marked(places, marks, i) == places[0],
    decreases places.len() - i,
{
    if i < places.len() {
        none_is_taken(places, marks, i + 1);
    }
}

/// A line that speaks of an injection, a delivery, a connection or a start tells of
/// activity.
pub proof fn activity_is_seen(a: Seq<char>, b: Seq<char>)
    ensures
        lively(a + "inject"@ + b),
        lively(a + "SSE connected"@ + b),
        lively(a + "apply start"@ + b),
        lively(a + "注入"@ + b),
        lively(a + "deliv"@ + b),
{
    parts_are_seen(a, "inject"@, b);
    parts_are_seen(a, "SSE connected"@, b);
    parts_are_seen(a, "apply start"@, b);
    parts_are_seen(a, "注入"@, b);
    parts_are_seen(a, "deliv"@, b);
}

proof fn plugin_checks_pass(ps: Seq<Plugin>)
    requires
        forall|i: int|
            0 <= i < ps.len() && is_plugin((#[trigger] ps[i]).name) ==> ps[i].package is Some
                && ps[i].main_exists,
    ensures
        all_pass(plugin_checks(ps)),
    decreases ps.len(),
{
    if ps.len() > 0 {
        let d = ps.drop_last();
        assert forall|i: int|
            0 <= i < d.len() && is_plugin((#[trigger] d[i]).name) implies d[i].package is Some
            && d[i].main_exists by {
            assert(ps[i] == d[i]);
        }
        plugin_checks_pass(d);
        assert(ps.last() == ps[ps.len() - 1]);
        let (a, b) = (plugin_checks(d), plugin_checks(ps));
        assert forall|i: int| 0 <= i < b.len() implies (#[trigger] b[i]).1 by {
            if i < a.len() {
                assert(b[i] == a[i]);
            }
        }
    }
}

proof fn core_checks_pass(ps: Seq<Plugin>, core: Seq<Seq<char>>)
    requires
        forall|i: int| 0 <= i < core.len() ==> !broken(ps, #[trigger] core[i]),
    ensures
        core_checks(ps, core).len() == 0,
    decreases core.len(),
{
    if core.len() > 0 {
        let d = core.drop_last();
        assert forall|i: int| 0 <= i < d.len() implies !broken(ps, #[trigger] d[i]) by {
            assert(core[i] == d[i]);
        }
        core_checks_pass(ps, d);
        assert(core.last() == core[core.len() - 1]);
    }
}

/// All is well exactly where the version of the program can be read, every plugin has a
/// package that can be read and its entry file, none of the three core plugins is missing,
/// the bridge answers, one of the last five lines of the log of the inbox tells of activity,
/// and the bus is there.
pub proof fn health_is_all_of_it(h: &Health)
    ensures
        all_pass(h.checks()) <==> {
            &&& h.version() != "MISSING"@
            &&& forall|i: int|
                0 <= i < h.dirs().len() && starts((#[trigger] h.dirs()[i]).name, "dsh-plugin-"@)
                    ==> h.dirs()[i].package is Some && h.dirs()[i].main_exists
            &&& !broken(h.dirs(), "dsh-plugin-agent-way"@)
            &&& !broken(h.dirs(), "dsh-plugin-central-inbox"@)
            &&& !broken(h.dirs(), "dsh-plugin-bus-bridge"@)
            &&& h.bridge_answers
            &&& h.log_exists
            &&& some_lively(log_tail(maybe(h.log), 5))
            &&& h.bus_exists
        },
{
    let c = h.checks();
    let pc = plugin_checks(h.dirs());
    let core = core_plugins();
    let cc = core_checks(h.dirs(), core);
    let n = (1 + pc.len() + cc.len()) as int;
    assert(c[0] == ("dsh 版本"@, h.version() != "MISSING"@, h.version()));
    assert(c[n] == bridge_check(h.bridge_answers));
    assert(c[n + 1] == inbox_check(h.log_exists, maybe(h.log)));
    assert(c[n + 2] == bus_check(h.bus_exists));
    assert(core[0] == "dsh-plugin-agent-way"@);
    assert(core[1] == "dsh-plugin-central-inbox"@);
    assert(core[2] == "dsh-plugin-bus-bridge"@);
    let plugins_ok = forall|i: int|
        0 <= i < h.dirs().len() && starts((#[trigger] h.dirs()[i]).name, "dsh-plugin-"@)
            ==> h.dirs()[i].package is Some && h.dirs()[i].main_exists;
    if !plugins_ok {
        let i = choose|i: int|
            0 <= i < h.dirs().len() && starts((#[trigger] h.dirs()[i]).name, "dsh-plugin-"@) && !(
            h.dirs()[i].package is Some && h.dirs()[i].main_exists);
        broken_plugin_is_seen(h, i);
    } else {
        plugin_checks_pass(h.dirs());
        if broken(h.dirs(), core[0]) {
            missing_core_is_seen(h, core[0]);
        } else if broken(h.dirs(), core[1]) {
            missing_core_is_seen(h, core[1]);
        } else if broken(h.dirs(), core[2]) {
            missing_core_is_seen(h, core[2]);
        } else {
            core_checks_pass(h.dirs(), core);
            assert forall|i: int| 0 <= i < c.len() implies (#[trigger] c[i]).1 == if i == 0 {
                h.version() != "MISSING"@
            } else if i <= pc.len() {
                true
            } else if i == n {
                h.bridge_answers
            } else if i == n + 1 {
                h.log_exists && some_lively(log_tail(maybe(h.log), 5))
            } else {
                h.bus_exists
            } by {
                if 0 < i <= pc.len() {
                    assert(c[i] == pc[i - 1]);
                }
            }
        }
    }
}

/// The report tells whether all is well, the version, how many plugins were found, and every
/// check with its outcome, in order.
pub proof fn health_is_told(h: &Health, ts: Seq<char>)
    ensures
        ({
            let v = health_value(h, ts);
            &&& v.at("ts"@) == JsonView::Str(ts)
            &&& v.at("dsh_version"@) == JsonView::Str(h.version())
            &&& v.at("plugins_found"@) == JsonView::Int(plugin_count(h.dirs()) as int)
            &&& v.at("all_ok"@) == JsonView::Bool(
                forall|i: int| 0 <= i < h.checks().len() ==> (#[trigger] h.checks()[i]).1,
            )
            &&& v.at("checks"@) matches JsonView::Arr(a) && a.len() == h.checks().len() && forall|
                i: int,
            |
                0 <= i < a.len() ==> (#[trigger] a[i]).at("name"@) == JsonView::Str(
                    h.checks()[i].0,
                ) && a[i].at("ok"@) == JsonView::Bool(h.checks()[i].1)
        }),
{
    broadcast use read_of_put;

    reveal_strlit("ts");
    reveal_strlit("dsh_version");
    reveal_strlit("plugins_found");
    reveal_strlit("checks");
    reveal_strlit("all_ok");
    reveal_strlit("runtime");
    reveal_strlit("name");
    reveal_strlit("ok");
    reveal_strlit("detail");
    assert("ts"@.len() == 2 && "dsh_version"@.len() == 11 && "plugins_found"@.len() == 13 && "checks"@.len() == 6 && "all_ok"@.len() == 6 && "runtime"@.len() == 7 && "name"@.len() == 4 && "ok"@.len() == 2 && "detail"@.len() == 6);
    assert("ts"@[0] != "ok"@[0]);
    assert("checks"@[0] != "all_ok"@[0]);
    assert("checks"@[0] != "detail"@[0]);
    assert("all_ok"@[0] != "detail"@[0]);
}

/// A plugin counts where its package can be read; nothing else in the directory does.
pub proof fn plugins_are_counted(ps: Seq<Plugin>, p: Plugin)
    ensures
        plugin_count(ps.push(p)) == plugin_count(ps) + if starts(p.name, "dsh-plugin-"@)
            && p.package is Some {
            1int
        } else {
            0
        },
        plugin_count(seq![]) == 0,
{
    assert(ps.push(p).drop_last() =~= ps);
}

} // verus!
