//! The barrier before a restart: what would keep a plugin from loading.
use vstd::prelude::*;
use crate::deploy::{
    deploy_checks, deploy_items, first_error_line, first_line, statements, statements_of,
    Deployment, JsFile,
};
use crate::json::{json_parsed, parse, Json, JsonView};
use crate::num::{dec, decimal};
use crate::report::{
    guard_code, guard_lines, guard_report, items, note, say, CheckItem, Level, Outcome,
};
use crate::text::{
    blank, cat, cat3, cat4, cat5, chars_of, contains, cut, find, find_at, find_from,
    find_from_is_first, found_behind, has, is_space_char, lines, lines_of, occurs_at,
    parts_are_seen, pieces, same, split, split_once, texts, trim, trim_end, trim_end_drops,
    trimmed,
};

verus! {

// ---------------------------------------------------------------- input

/// What came of loading the entry of a plugin.
pub enum Load {
    /// There is no entry to load.
    NoEntry,
    /// There is no program to load it with.
    Unavailable,
    /// It was tried: whether the program succeeded, and what it wrote.
    Tried { success: bool, out: String, err: String },
}

/// A plugin, as far as the barrier reads it.
pub struct GuardPlugin {
    pub exists: bool,
    /// What the check before a deployment reads.
    pub deployment: Deployment,
    /// The text of `package.json`, or why it could not be read.
    pub pkg: Result<String, String>,
    /// The text of `lib/index.js`.
    pub entry: Option<String>,
    /// The number of links to packages of the host, where there is a directory of
    /// them.
    pub links: Option<u64>,
    pub load: Load,
}

impl GuardPlugin {
    /// The directory of the plugin.
    pub open spec fn dir(&self) -> Seq<char> {
        self.deployment.dir@
    }
}

// ---------------------------------------------------------------- modules

/// A source uses the syntax of ES modules.
pub open spec fn uses_esm(src: Seq<char>) -> bool {
    contains(src, "export "@) || contains(src, "import "@)
}

/// The entry uses the syntax of ES modules.
pub open spec fn entry_uses_esm(entry: Option<String>) -> bool {
    match entry {
        Some(t) => uses_esm(t@),
        None => false,
    }
}

/// What is found of the kind of module that a `package.json` declares.
pub open spec fn module_kind_item(dir: Seq<char>, is_module: bool, esm: bool) -> (
    Level,
    Seq<char>,
) {
    if esm && !is_module {
        (
            Level::Fail,
            "["@ + dir
                + "] lib/index.js 用 ESM 语法但缺 type:module（CJS 解析 → SyntaxError → 加载即崩）"@,
        )
    } else if esm {
        (Level::Pass, "["@ + dir + "] type:module + ESM 语法匹配"@)
    } else if is_module {
        (Level::Warn, "["@ + dir + "] type:module 但 lib 无 ESM 语法（无害，仅提示）"@)
    } else {
        (Level::Pass, "["@ + dir + "] CJS 插件（无 ESM 语法）"@)
    }
}

/// What is found of the packages that a plugin expects of its host.
pub open spec fn peer_items(dir: Seq<char>, peers: nat, esm: bool) -> Seq<(Level, Seq<char>)> {
    if peers == 0 && esm {
        seq![
            (
                Level::Warn,
                "["@ + dir + "] peerDependencies 为空（注入服务可能无法解析，建议声明）"@,
            ),
        ]
    } else if peers > 0 {
        seq![(Level::Pass, "["@ + dir + "] peerDependencies "@ + dec(peers) + " 项"@)]
    } else {
        seq![]
    }
}

/// How many packages a plugin expects of its host.
pub open spec fn peer_count(pkg: JsonView) -> nat {
    pkg.at("peerDependencies"@).entries().len()
}

/// What is found of a plugin by what its `package.json` holds.
pub open spec fn manifest_items(dir: Seq<char>, pkg: JsonView, esm: bool) -> Seq<
    (Level, Seq<char>),
> {
    seq![module_kind_item(dir, pkg.text("type"@) == Some("module"@), esm)] + peer_items(
        dir,
        peer_count(pkg),
        esm,
    )
}

/// What is found of a plugin by its `package.json`.
pub open spec fn package_file_items(p: GuardPlugin) -> Seq<(Level, Seq<char>)> {
    match p.pkg {
        Ok(t) => match json_parsed(t@) {
            Ok(v) => manifest_items(p.dir(), v, entry_uses_esm(p.entry)),
            Err(_) => seq![(Level::Fail, "["@ + p.dir() + "] package.json 解析失败"@)],
        },
        Err(e) => seq![(Level::Fail, "["@ + p.dir() + "] 读 package.json 失败: "@ + e@)],
    }
}

/// Judges a plugin by what its `package.json` holds.
pub fn check_manifest(dir: &str, pkg: &Json, esm: bool, out: &mut Vec<CheckItem>)
    ensures
        items(final(out)@) == items(old(out)@) + manifest_items(dir@, pkg@, esm),
{
    let ghost base = items(out@);
    let is_module = match pkg.text_at("type") {
        Some(t) => same(t.as_str(), "module"),
        None => false,
    };
    if esm && !is_module {
        note(
            out,
            Level::Fail,
            cat3(
                "[",
                dir,
                "] lib/index.js 用 ESM 语法但缺 type:module（CJS 解析 → SyntaxError → 加载即崩）",
            ),
        );
    } else if esm {
        note(out, Level::Pass, cat3("[", dir, "] type:module + ESM 语法匹配"));
    } else if is_module {
        note(out, Level::Warn, cat3("[", dir, "] type:module 但 lib 无 ESM 语法（无害，仅提示）"));
    } else {
        note(out, Level::Pass, cat3("[", dir, "] CJS 插件（无 ESM 语法）"));
    }
    let peers: usize = match pkg.entries_at("peerDependencies") {
        Some(e) => {
            proof {
                crate::json::entry_views_by_index(e@);
            }
            e.len()
        },
        None => 0,
    };
    assert(peers == peer_count(pkg@));
    if peers == 0 && esm {
        note(
            out,
            Level::Warn,
            cat3("[", dir, "] peerDependencies 为空（注入服务可能无法解析，建议声明）"),
        );
    } else if peers > 0 {
        note(
            out,
            Level::Pass,
            cat5("[", dir, "] peerDependencies ", decimal(peers as u64).as_str(), " 项"),
        );
    }
    assert(items(out@) =~= base + manifest_items(dir@, pkg@, esm));
}

// ---------------------------------------------------------------- bare calls

/// A character after which a name is part of a longer one, or of a member access.
pub open spec fn binds(c: char) -> bool {
    c == '.' || 'a' <= c <= 'z' || 'A' <= c <= 'Z' || '0' <= c <= '9' || c == '_' || c == '$'
}

/// What stands at `k` follows a character that binds it, spaces aside.
pub open spec fn bound_at(s: Seq<char>, k: int) -> bool {
    let t = trim_end(s.take(k));
    t.len() > 0 && binds(t[t.len() - 1])
}

/// From `i` on, `sym` stands in `s` at a place where nothing binds it. Occurrences
/// are taken from the left, without overlap.
pub open spec fn bare_from(s: Seq<char>, sym: Seq<char>, i: int) -> bool
    decreases s.len() - i,
{
    match find_from(s, sym, i) {
        Some(k) if sym.len() > 0 && i <= k && k + sym.len() <= s.len() => if bound_at(s, k) {
            bare_from(s, sym, k + sym.len())
        } else {
            true
        },
        _ => false,
    }
}

/// Some line of a source holds three texts.
pub open spec fn line_with(src: Seq<char>, a: Seq<char>, b: Seq<char>, c: Seq<char>) -> bool {
    exists|i: int|
        0 <= i < lines(src).len() && contains(#[trigger] lines(src)[i], a) && contains(
            lines(src)[i],
            b,
        ) && contains(lines(src)[i], c)
}

/// The name that one part of an import list makes known: the one behind `as`, where there
/// is one.
pub open spec fn local_name(part: Seq<char>) -> Seq<char> {
    match split_once(trim(part), " as "@) {
        Some((_, alias)) => trim(alias),
        None => trim(part),
    }
}

/// One of the parts of an import list makes `name` known.
pub open spec fn holds_name(body: Seq<char>, name: Seq<char>) -> bool {
    exists|i: int|
        0 <= i < split(body, ","@).len() && local_name(#[trigger] split(body, ","@)[i]) == name
}

/// A statement imports `name` in its list, alone or among others.
pub open spec fn lists_name(stmt: Seq<char>, name: Seq<char>) -> bool {
    match split_once(stmt, "import {"@) {
        Some((_, rest)) => match split_once(rest, "}"@) {
            Some((body, _)) => holds_name(body, name),
            None => false,
        },
        None => false,
    }
}

/// Some statement of a source imports `name` in its list.
pub open spec fn listed_import(src: Seq<char>, name: Seq<char>) -> bool {
    exists|i: int|
        0 <= i < statements(lines(src)).len() && lists_name(
            #[trigger] statements(lines(src))[i],
            name,
        )
}

/// A source imports the function `name`, alone or among others.
pub open spec fn imports(src: Seq<char>, name: Seq<char>) -> bool {
    ||| listed_import(src, name)
    ||| contains(src, "import { "@ + name + " }"@)
    ||| contains(src, "import { "@ + name + " ,"@)
    ||| line_with(src, "import"@, name, "node:path"@)
    ||| line_with(src, "import"@, name, "node:os"@)
}

/// A source makes a `require` of its own.
pub open spec fn makes_require(src: Seq<char>) -> bool {
    contains(src, "createRequire"@) && (contains(src, "node:module"@) || line_with(
        src,
        "import"@,
        "createRequire"@,
        "createRequire"@,
    ))
}

/// The finding on a name that a source uses bare.
pub open spec fn bare_item(fname: Seq<char>, name: Seq<char>) -> (Level, Seq<char>) {
    (Level::Fail, "["@ + fname + "] 用了裸 "@ + name + "( 但缺 ESM 导入（type:module 下 ReferenceError）"@)
}

/// One finding, where it holds.
pub open spec fn when(b: bool, c: (Level, Seq<char>)) -> Seq<(Level, Seq<char>)> {
    if b {
        seq![c]
    } else {
        seq![]
    }
}

/// A source for the browser, which has modules of its own.
pub open spec fn for_browser(src: Seq<char>) -> bool {
    contains(src, "__ModuleLoader__"@) || contains(src, "window."@)
}

/// What is found of the names that a source uses without importing them.
pub open spec fn bare_items(fname: Seq<char>, src: Seq<char>) -> Seq<(Level, Seq<char>)> {
    if for_browser(src) {
        seq![]
    } else {
        when(
            bare_from(src, "join("@, 0) && !imports(src, "join"@),
            bare_item(fname, "join"@),
        ) + when(
            bare_from(src, "homedir("@, 0) && !imports(src, "homedir"@),
            bare_item(fname, "homedir"@),
        ) + when(
            bare_from(src, "require('fs')"@, 0) && !makes_require(src),
            bare_item(fname, "require"@),
        ) + when(
            bare_from(src, "require(\"fs\")"@, 0) && !makes_require(src),
            bare_item(fname, "require"@),
        )
    }
}

fn is_bound(v: &Vec<char>, k: usize) -> (r: bool)
    requires
        k <= v@.len(),
    ensures
        r == bound_at(v@, k as int),
{
    let mut n: usize = k;
    assert(v@.take(k as int).take(k as int) =~= v@.take(k as int));
    while n > 0 && is_space_char(v[n - 1])
        invariant
            n <= k <= v@.len(),
            trim_end(v@.take(k as int)) == trim_end(v@.take(n as int)),
        decreases n,
    {
        assert(v@.take(n as int).take(n - 1) =~= v@.take(n - 1));
        n -= 1;
    }
    if n == 0 {
        false
    } else {
        let c: char = v[n - 1];
        c == '.' || ('a' <= c && c <= 'z') || ('A' <= c && c <= 'Z') || ('0' <= c && c <= '9') || c
            == '_' || c == '$'
    }
}

/// Whether `sym` stands in a source at a place where nothing binds it.
pub fn used_bare(src: &str, sym: &str) -> (r: bool)
    ensures
        r == bare_from(src@, sym@, 0),
{
    let v = chars_of(src);
    let q = chars_of(sym);
    let n: usize = v.len();
    let mut i: usize = 0;
    if q.len() == 0 {
        return false;
    }
    loop
        invariant
            i <= v@.len() == n,
            v@ == src@,
            q@ == sym@,
            q@.len() > 0,
            bare_from(src@, sym@, 0) == bare_from(src@, sym@, i as int),
        decreases v@.len() - i,
    {
        match find_at(&v, &q, i) {
            Some(k) => {
                if !is_bound(&v, k) {
                    return true;
                }
                i = k + q.len();
            },
            None => {
                return false;
            },
        }
    }
}

fn some_line_with(src: &str, a: &str, b: &str, c: &str) -> (r: bool)
    ensures
        r == line_with(src@, a@, b@, c@),
{
    let ls = lines_of(src);
    let ghost t = lines(src@);
    let mut i: usize = 0;
    while i < ls.len()
        invariant
            i <= ls@.len(),
            t == texts(ls@),
            t == lines(src@),
            forall|j: int|
                0 <= j < i ==> !(contains(#[trigger] t[j], a@) && contains(t[j], b@) && contains(
                    t[j],
                    c@,
                )),
        decreases ls@.len() - i,
    {
        assert(t[i as int] == ls@[i as int]@);
        let l = ls[i].as_str();
        if has(l, a) && has(l, b) && has(l, c) {
            assert(contains(lines(src@)[i as int], a@));
            return true;
        }
        i += 1;
    }
    false
}

fn does_hold_name(body: &str, name: &str) -> (r: bool)
    ensures
        r == holds_name(body@, name@),
{
    let parts = pieces(body, ",");
    let ghost t = split(body@, ","@);
    let mut i: usize = 0;
    while i < parts.len()
        invariant
            i <= parts@.len(),
            t == texts(parts@),
            t == split(body@, ","@),
            forall|j: int| 0 <= j < i ==> local_name(#[trigger] t[j]) != name@,
        decreases parts@.len() - i,
    {
        assert(t[i as int] == parts@[i as int]@);
        let part = trimmed(parts[i].as_str());
        let local = match cut(part.as_str(), " as ") {
            Some((_, alias)) => trimmed(alias.as_str()),
            None => part,
        };
        if same(local.as_str(), name) {
            assert(local_name(split(body@, ","@)[i as int]) == name@);
            return true;
        }
        i += 1;
    }
    false
}

fn does_list_name(stmt: &str, name: &str) -> (r: bool)
    ensures
        r == lists_name(stmt@, name@),
{
    if let Some((_, rest)) = cut(stmt, "import {") {
        if let Some((body, _)) = cut(rest.as_str(), "}") {
            return does_hold_name(body.as_str(), name);
        }
    }
    false
}

fn has_listed_import(src: &str, name: &str) -> (r: bool)
    ensures
        r == listed_import(src@, name@),
{
    let ls = statements_of(src);
    let ghost t = statements(lines(src@));
    let mut i: usize = 0;
    while i < ls.len()
        invariant
            i <= ls@.len(),
            t == texts(ls@),
            t == statements(lines(src@)),
            forall|j: int| 0 <= j < i ==> !lists_name(#[trigger] t[j], name@),
        decreases ls@.len() - i,
    {
        assert(t[i as int] == ls@[i as int]@);
        if does_list_name(ls[i].as_str(), name) {
            assert(lists_name(statements(lines(src@))[i as int], name@));
            return true;
        }
        i += 1;
    }
    false
}

fn does_import(src: &str, name: &str) -> (r: bool)
    ensures
        r == imports(src@, name@),
{
    has_listed_import(src, name) || has(src, cat3("import { ", name, " }").as_str()) || has(
        src,
        cat3("import { ", name, " ,").as_str(),
    ) || some_line_with(src, "import", name, "node:path") || some_line_with(
        src,
        "import",
        name,
        "node:os",
    )
}

fn does_make_require(src: &str) -> (r: bool)
    ensures
        r == makes_require(src@),
{
    has(src, "createRequire") && (has(src, "node:module") || some_line_with(
        src,
        "import",
        "createRequire",
        "createRequire",
    ))
}

fn note_bare(found: bool, fname: &str, name: &str, out: &mut Vec<CheckItem>)
    ensures
        items(final(out)@) == items(old(out)@) + when(found, bare_item(fname@, name@)),
{
    let ghost base = items(out@);
    if found {
        note(
            out,
            Level::Fail,
            cat5("[", fname, "] 用了裸 ", name, "( 但缺 ESM 导入（type:module 下 ReferenceError）"),
        );
    }
    assert(items(out@) =~= base + when(found, bare_item(fname@, name@)));
}

/// Judges the names that a source uses without importing them.
pub fn check_bare(fname: &str, src: &str, out: &mut Vec<CheckItem>)
    ensures
        items(final(out)@) == items(old(out)@) + bare_items(fname@, src@),
{
    let ghost base = items(out@);
    if has(src, "__ModuleLoader__") || has(src, "window.") {
        assert(items(out@) =~= base + bare_items(fname@, src@));
        return;
    }
    note_bare(used_bare(src, "join(") && !does_import(src, "join"), fname, "join", out);
    note_bare(used_bare(src, "homedir(") && !does_import(src, "homedir"), fname, "homedir", out);
    note_bare(used_bare(src, "require('fs')") && !does_make_require(src), fname, "require", out);
    note_bare(used_bare(src, "require(\"fs\")") && !does_make_require(src), fname, "require", out);
    assert(items(out@) =~= base + bare_items(fname@, src@));
}

/// What is found of the sources of a plugin; one that could not be read is passed
/// over.
pub open spec fn source_items(js: Seq<JsFile>) -> Seq<(Level, Seq<char>)>
    decreases js.len(),
{
    if js.len() == 0 {
        seq![]
    } else {
        source_items(js.drop_last()) + match js.last().text {
            Some(t) => bare_items(js.last().name@, t@),
            None => seq![],
        }
    }
}

fn check_sources(js: &Vec<JsFile>, out: &mut Vec<CheckItem>)
    ensures
        items(final(out)@) == items(old(out)@) + source_items(js@),
{
    let ghost base = items(out@);
    let mut i: usize = 0;
    assert(js@.take(0) =~= seq![]);
    assert(base + source_items(js@.take(0)) =~= base);
    while i < js.len()
        invariant
            i <= js@.len(),
            items(out@) == base + source_items(js@.take(i as int)),
        decreases js@.len() - i,
    {
        proof {
            assert(js@.take(i + 1).drop_last() =~= js@.take(i as int));
            assert(js@.take(i + 1).last() == js@[i as int]);
        }
        if let Some(t) = &js[i].text {
            check_bare(js[i].name.as_str(), t.as_str(), out);
        }
        assert(items(out@) =~= base + source_items(js@.take(i + 1)));
        i += 1;
    }
    assert(js@.take(i as int) =~= js@);
}

// ---------------------------------------------------------------- the whole barrier

/// What is found of the links to packages of the host.
pub open spec fn link_item(dir: Seq<char>, links: Option<u64>) -> (Level, Seq<char>) {
    match links {
        Some(n) => (
            Level::Pass,
            "["@ + dir + "] node_modules/@deepseek-ai 符号链接 "@ + dec(n as nat) + " 个"@,
        ),
        None => (
            Level::Warn,
            "["@ + dir + "] 无 node_modules/@deepseek-ai 符号链接（peer 依赖可能解析失败）"@,
        ),
    }
}

/// What is found of the loading of the entry.
pub open spec fn load_items(dir: Seq<char>, l: Load) -> Seq<(Level, Seq<char>)> {
    match l {
        Load::NoEntry => seq![],
        Load::Unavailable => seq![(Level::Warn, "["@ + dir + "] node 不可用，跳过加载实测"@)],
        Load::Tried { success, out, err } => if success && contains(out@, "LOAD_OK"@) {
            seq![(Level::Pass, "["@ + dir + "] 模块加载实测 OK: "@ + trim(out@))]
        } else {
            seq![(Level::Fail, "["@ + dir + "] 模块加载实测失败: "@ + first_line(err@))]
        },
    }
}

/// What is found of the directory of sources.
pub open spec fn lib_items(p: GuardPlugin) -> Seq<(Level, Seq<char>)> {
    if p.deployment.has_lib {
        source_items(p.deployment.js@).push(link_item(p.dir(), p.links))
    } else {
        seq![]
    }
}

/// What the barrier finds of a plugin: all that the check before a deployment finds,
/// and what would keep the plugin from loading.
pub open spec fn guard_plugin_items(p: GuardPlugin) -> Seq<(Level, Seq<char>)> {
    let head = (Level::Info, "══ restart-guard 审查: "@ + p.dir());
    if !p.exists {
        seq![head, (Level::Fail, "目录不存在: "@ + p.dir())]
    } else {
        seq![head] + deploy_items(p.deployment) + package_file_items(p) + lib_items(p) + load_items(
            p.dir(),
            p.load,
        )
    }
}

/// What the barrier finds of some plugins.
pub open spec fn guard_items(ps: Seq<GuardPlugin>) -> Seq<(Level, Seq<char>)>
    decreases ps.len(),
{
    if ps.len() == 0 {
        seq![]
    } else {
        guard_items(ps.drop_last()) + guard_plugin_items(ps.last())
    }
}

fn check_load(dir: &str, l: &Load, out: &mut Vec<CheckItem>)
    ensures
        items(final(out)@) == items(old(out)@) + load_items(dir@, *l),
{
    let ghost base = items(out@);
    match l {
        Load::NoEntry => {},
        Load::Unavailable => {
            note(out, Level::Warn, cat3("[", dir, "] node 不可用，跳过加载实测"));
        },
        Load::Tried { success, out: text, err } => {
            if *success && has(text.as_str(), "LOAD_OK") {
                note(
                    out,
                    Level::Pass,
                    cat4("[", dir, "] 模块加载实测 OK: ", trimmed(text.as_str()).as_str()),
                );
            } else {
                note(
                    out,
                    Level::Fail,
                    cat4("[", dir, "] 模块加载实测失败: ", first_error_line(err.as_str()).as_str()),
                );
            }
        },
    }
    assert(items(out@) =~= base + load_items(dir@, *l));
}

/// Judges one plugin.
pub fn guard_plugin(p: &GuardPlugin, out: &mut Vec<CheckItem>)
    ensures
        items(final(out)@) == items(old(out)@) + guard_plugin_items(*p),
{
    let ghost base = items(out@);
    let dir = p.deployment.dir.as_str();
    note(out, Level::Info, cat("══ restart-guard 审查: ", dir));
    if !p.exists {
        note(out, Level::Fail, cat("目录不存在: ", dir));
        assert(items(out@) =~= base + guard_plugin_items(*p));
        return;
    }
    let ghost head = seq![(Level::Info, "══ restart-guard 审查: "@ + p.dir())] + deploy_items(
        p.deployment,
    );
    let mut found = deploy_checks(&p.deployment);
    let ghost (x, y) = (out@, found@);
    out.append(&mut found);
    assert(items(out@) =~= items(x) + items(y));
    assert(items(out@) =~= base + head);
    match &p.pkg {
        Ok(t) => match parse(t.as_str()) {
            Ok(v) => {
                let esm = match &p.entry {
                    Some(t) => has(t.as_str(), "export ") || has(t.as_str(), "import "),
                    None => false,
                };
                check_manifest(dir, &v, esm, out);
            },
            Err(_) => {
                note(out, Level::Fail, cat3("[", dir, "] package.json 解析失败"));
            },
        },
        Err(e) => {
            note(out, Level::Fail, cat4("[", dir, "] 读 package.json 失败: ", e.as_str()));
        },
    }
    assert(items(out@) =~= base + (head + package_file_items(*p)));
    if p.deployment.has_lib {
        check_sources(&p.deployment.js, out);
        match p.links {
            Some(n) => {
                note(
                    out,
                    Level::Pass,
                    cat5("[", dir, "] node_modules/@deepseek-ai 符号链接 ", decimal(n).as_str(), " 个"),
                );
            },
            None => {
                note(
                    out,
                    Level::Warn,
                    cat3("[", dir, "] 无 node_modules/@deepseek-ai 符号链接（peer 依赖可能解析失败）"),
                );
            },
        }
    }
    assert(items(out@) =~= base + (head + package_file_items(*p) + lib_items(*p)));
    check_load(dir, &p.load, out);
    assert(items(out@) =~= base + guard_plugin_items(*p));
}

/// Judges the plugins before a restart.
pub fn guard_checks(ps: &Vec<GuardPlugin>) -> (r: Vec<CheckItem>)
    ensures
        items(r@) == guard_items(ps@),
{
    let mut out: Vec<CheckItem> = Vec::new();
    let mut i: usize = 0;
    assert(ps@.take(0) =~= seq![]);
    assert(items(out@) =~= seq![]);
    while i < ps.len()
        invariant
            i <= ps@.len(),
            items(out@) == guard_items(ps@.take(i as int)),
        decreases ps@.len() - i,
    {
        proof {
            assert(ps@.take(i + 1).drop_last() =~= ps@.take(i as int));
            assert(ps@.take(i + 1).last() == ps@[i as int]);
        }
        guard_plugin(&ps[i], &mut out);
        i += 1;
    }
    assert(ps@.take(i as int) =~= ps@);
    out
}

/// Judges the plugins before a restart, and reports: the exit code is zero exactly
/// where nothing failed.
pub fn restart_guard(ps: &Vec<GuardPlugin>, json: bool) -> (r: Outcome)
    ensures
        texts(r.lines@) == guard_report(guard_items(ps@), json),
        r.code == if exists|i: int|
            0 <= i < guard_items(ps@).len() && (#[trigger] guard_items(ps@)[i]).0 == Level::Fail {
            1i32
        } else {
            0i32
        },
{
    let found = guard_checks(ps);
    Outcome { lines: guard_lines(&found, json), code: guard_code(&found) }
}

/// How the barrier is called, for a call without directories.
pub fn guard_usage() -> (r: Outcome)
    ensures
        texts(r.lines@) == seq![
            "用法: dsh-tools restart-guard <插件目录>... [--runtime R] [--profile P] [--json]"@,
            "  CLD/DSH 重启前强制门：任一插件 FAIL → 禁止重启（沙箱先行，R011）"@,
        ],
        r.code == 1,
{
    let mut out: Vec<String> = Vec::new();
    assert(texts(out@) =~= seq![]);
    say(
        &mut out,
        "用法: dsh-tools restart-guard <插件目录>... [--runtime R] [--profile P] [--json]",
    );
    say(&mut out, "  CLD/DSH 重启前强制门：任一插件 FAIL → 禁止重启（沙箱先行，R011）");
    assert(texts(out@) =~= seq![
        "用法: dsh-tools restart-guard <插件目录>... [--runtime R] [--profile P] [--json]"@,
        "  CLD/DSH 重启前强制门：任一插件 FAIL → 禁止重启（沙箱先行，R011）"@,
    ]);
    Outcome { lines: out, code: 1 }
}

// ---------------------------------------------------------------- laws

/// A failure at any one plugin shuts the barrier for all of them.
pub proof fn one_failure_shuts_the_gate(ps: Seq<GuardPlugin>, i: int, j: int)
    requires
        0 <= i < ps.len(),
        0 <= j < guard_plugin_items(ps[i]).len(),
        guard_plugin_items(ps[i])[j].0 == Level::Fail,
    ensures
        exists|k: int|
            0 <= k < guard_items(ps).len() && (#[trigger] guard_items(ps)[k]).0 == Level::Fail,
    decreases ps.len(),
{
    let before = guard_items(ps.drop_last());
    if i == ps.len() - 1 {
        assert(guard_items(ps)[before.len() + j] == guard_plugin_items(ps[i])[j]);
    } else {
        assert(ps.drop_last()[i] == ps[i]);
        one_failure_shuts_the_gate(ps.drop_last(), i, j);
        let k = choose|k: int| 0 <= k < before.len() && (#[trigger] before[k]).0 == Level::Fail;
        assert(guard_items(ps)[k] == before[k]);
    }
}

/// What the check before a deployment fails, the barrier fails.
pub proof fn failed_deployment_shuts_the_gate(ps: Seq<GuardPlugin>, i: int, j: int)
    requires
        0 <= i < ps.len(),
        ps[i].exists,
        0 <= j < deploy_items(ps[i].deployment).len(),
        deploy_items(ps[i].deployment)[j].0 == Level::Fail,
    ensures
        exists|k: int|
            0 <= k < guard_items(ps).len() && (#[trigger] guard_items(ps)[k]).0 == Level::Fail,
{
    assert(guard_plugin_items(ps[i])[j + 1] == deploy_items(ps[i].deployment)[j]);
    one_failure_shuts_the_gate(ps, i, j + 1);
}

// ---------------------------------------------------------------- what fails

proof fn fails_in(p: GuardPlugin, j: int)
    requires
        0 <= j < guard_plugin_items(p).len(),
        guard_plugin_items(p)[j].0 == Level::Fail,
    ensures
        has_failure(p),
{
}

/// The barrier finds a failure in a plugin.
pub open spec fn has_failure(p: GuardPlugin) -> bool {
    exists|j: int|
        0 <= j < guard_plugin_items(p).len() && (#[trigger] guard_plugin_items(p)[j]).0
            == Level::Fail
}

/// A plugin whose directory is not there fails, and so does one whose `package.json` cannot
/// be read, or holds no value.
pub proof fn lost_plugin_fails(p: GuardPlugin)
    ensures
        !p.exists ==> has_failure(p),
        p.exists && p.pkg is Err ==> has_failure(p),
        p.exists && (p.pkg matches Ok(t) && json_parsed(t@) is Err) ==> has_failure(p),
{
    if !p.exists {
        fails_in(p, 1);
    } else if package_file_items(p).len() == 1 && package_file_items(p)[0].0 == Level::Fail {
        let j = 1 + deploy_items(p.deployment).len() as int;
        assert(guard_plugin_items(p)[j] == package_file_items(p)[0]);
        fails_in(p, j);
    }
}

/// A plugin whose entry holds an import or an export fails unless its `package.json` says
/// that its type is `module`.
pub proof fn untyped_module_fails(p: GuardPlugin, a: Seq<char>, b: Seq<char>, v: JsonView)
    requires
        p.exists,
        p.pkg matches Ok(t) && json_parsed(t@) == Ok::<JsonView, Seq<char>>(v),
        p.entry matches Some(e) && (e@ == a + "import "@ + b || e@ == a + "export "@ + b),
        v.at("type"@) != JsonView::Str("module"@),
    ensures
        has_failure(p),
{
    parts_are_seen(a, "import "@, b);
    parts_are_seen(a, "export "@, b);
    let j = 1 + deploy_items(p.deployment).len() as int;
    assert(entry_uses_esm(p.entry));
    assert(package_file_items(p)[0].0 == Level::Fail);
    assert(guard_plugin_items(p)[j] == package_file_items(p)[0]);
    fails_in(p, j);
}

/// A plugin that could not be loaded fails: the trial ended badly, or did not say that it
/// went well.
pub proof fn failed_load_fails(p: GuardPlugin, success: bool, out: String, err: String)
    requires
        p.exists,
        p.load == (Load::Tried { success, out, err }),
        !success || !contains(out@, "LOAD_OK"@),
    ensures
        has_failure(p),
{
    let j = 1 + deploy_items(p.deployment).len() + package_file_items(p).len() + lib_items(p).len();
    assert(guard_plugin_items(p)[j as int] == load_items(p.dir(), p.load)[0]);
    fails_in(p, j as int);
}

/// A name is used bare wherever it stands behind nothing that binds it, be it the first
/// place at which it stands or a later one.
pub proof fn bare_use_is_seen(s: Seq<char>, sym: Seq<char>, i: int, k: int)
    requires
        sym.len() > 0,
        forall|j: int| 0 <= j < sym.len() - 1 ==> #[trigger] sym[j] != sym.last(),
        0 <= i <= k,
        occurs_at(s, sym, k),
        !bound_at(s, k),
    ensures
        bare_from(s, sym, i),
    decreases k - i,
{
    find_from_is_first(s, sym, i);
    let n = find_from(s, sym, i)->0;
    if n < k && bound_at(s, n) {
        if k < n + sym.len() {
            let e = n + sym.len() - 1;
            assert(s.subrange(n, n + sym.len())[sym.len() - 1] == s[e]);
            assert(s.subrange(k, k + sym.len())[e - k] == s[e]);
            assert(sym[e - k] == sym.last());
        }
        bare_use_is_seen(s, sym, n + sym.len() as int, k);
    }
}

/// Where a name is said to be used bare, it stands at some place behind nothing that binds
/// it.
pub proof fn bare_use_is_real(s: Seq<char>, sym: Seq<char>, i: int)
    requires
        0 <= i,
        bare_from(s, sym, i),
    ensures
        exists|k: int| i <= k && occurs_at(s, sym, k) && !bound_at(s, k),
    decreases s.len() - i,
{
    find_from_is_first(s, sym, i);
    let n = find_from(s, sym, i)->0;
    if bound_at(s, n) {
        bare_use_is_real(s, sym, n + sym.len() as int);
        let k = choose|k: int|
            n + sym.len() <= k && occurs_at(s, sym, k) && !bound_at(s, k);
        assert(occurs_at(s, sym, k) && !bound_at(s, k));
    }
}

/// A letter, a digit, a dot, an underscore or a dollar before it binds a name, with blanks
/// between them or without; any other character does not, and neither does the start.
pub proof fn what_binds(a: Seq<char>, c: char, gap: Seq<char>, rest: Seq<char>)
    requires
        blank(gap),
        !crate::text::is_space(c),
    ensures
        bound_at(a + seq![c] + gap + rest, (a.len() + 1 + gap.len()) as int) <==> c == '.' || c
            == '_' || c == '$' || 'a' <= c <= 'z' || 'A' <= c <= 'Z' || '0' <= c <= '9',
        !bound_at(gap + rest, gap.len() as int),
{
    let k = (a.len() + 1 + gap.len()) as int;
    let s = a + seq![c] + gap + rest;
    assert(s.take(k) =~= (a + seq![c]) + gap);
    trim_end_drops(a + seq![c], gap);
    assert((a + seq![c])[a.len() as int] == c);
    assert((gap + rest).take(gap.len() as int) =~= Seq::<char>::empty() + gap);
    trim_end_drops(seq![], gap);
}

proof fn source_is_checked(js: Seq<JsFile>, i: int, c: (Level, Seq<char>))
    requires
        0 <= i < js.len(),
        js[i].text matches Some(t) && bare_items(js[i].name@, t@).contains(c),
    ensures
        source_items(js).contains(c),
    decreases js.len(),
{
    let d = js.drop_last();
    let before = source_items(d);
    let all = source_items(js);
    if i < d.len() {
        assert(d[i] == js[i]);
        source_is_checked(d, i, c);
        let k = choose|k: int| 0 <= k < before.len() && before[k] == c;
        assert(all[k] == c);
    } else {
        let b = bare_items(js[i].name@, js[i].text->0@);
        let k = choose|k: int| 0 <= k < b.len() && b[k] == c;
        assert(all[before.len() + k] == c);
    }
}

proof fn bare_is_failure(p: GuardPlugin, i: int, c: (Level, Seq<char>))
    requires
        p.exists,
        p.deployment.has_lib,
        0 <= i < p.deployment.js@.len(),
        p.deployment.js@[i].text matches Some(t) && bare_items(
            p.deployment.js@[i].name@,
            t@,
        ).contains(c),
        c.0 == Level::Fail,
    ensures
        has_failure(p),
{
    source_is_checked(p.deployment.js@, i, c);
    let s = source_items(p.deployment.js@);
    let k = choose|k: int| 0 <= k < s.len() && s[k] == c;
    let j = 1 + deploy_items(p.deployment).len() + package_file_items(p).len() + k;
    assert(lib_items(p)[k] == c);
    assert(guard_plugin_items(p)[j] == c);
    fails_in(p, j);
}

/// A source that calls `join` or `homedir` bare without importing it fails its plugin,
/// whichever source it is, unless it is one for the browser.
pub proof fn bare_call_fails(p: GuardPlugin, i: int, src: Seq<char>, k: int)
    requires
        p.exists,
        p.deployment.has_lib,
        0 <= i < p.deployment.js@.len(),
        p.deployment.js@[i].text matches Some(t) && t@ == src,
        !contains(src, "__ModuleLoader__"@),
        !contains(src, "window."@),
        !bound_at(src, k),
        (occurs_at(src, "join("@, k) && !imports(src, "join"@)) || (occurs_at(src, "homedir("@, k)
            && !imports(src, "homedir"@)) || (occurs_at(src, "require('fs')"@, k)
            && !makes_require(src)) || (occurs_at(src, "require(\"fs\")"@, k)
            && !makes_require(src)),
    ensures
        has_failure(p),
{
    reveal_strlit("join(");
    reveal_strlit("homedir(");
    reveal_strlit("require('fs')");
    reveal_strlit("require(\"fs\")");
    let name = p.deployment.js@[i].name@;
    let b = bare_items(name, src);
    let w1 = when(
        bare_from(src, "join("@, 0) && !imports(src, "join"@),
        bare_item(name, "join"@),
    );
    let w2 = when(
        bare_from(src, "homedir("@, 0) && !imports(src, "homedir"@),
        bare_item(name, "homedir"@),
    );
    let w3 = when(
        bare_from(src, "require('fs')"@, 0) && !makes_require(src),
        bare_item(name, "require"@),
    );
    if occurs_at(src, "join("@, k) && !imports(src, "join"@) {
        bare_use_is_seen(src, "join("@, 0, k);
        assert(b[0] == bare_item(name, "join"@));
        bare_is_failure(p, i, b[0]);
    } else if occurs_at(src, "homedir("@, k) && !imports(src, "homedir"@) {
        bare_use_is_seen(src, "homedir("@, 0, k);
        let n = w1.len() as int;
        assert(b[n] == bare_item(name, "homedir"@));
        bare_is_failure(p, i, b[n]);
    } else if occurs_at(src, "require('fs')"@, k) && !makes_require(src) {
        bare_use_is_seen(src, "require('fs')"@, 0, k);
        let n = (w1.len() + w2.len()) as int;
        assert(b[n] == bare_item(name, "require"@));
        bare_is_failure(p, i, b[n]);
    } else {
        bare_use_is_seen(src, "require(\"fs\")"@, 0, k);
        let n = (w1.len() + w2.len() + w3.len()) as int;
        assert(b[n] == bare_item(name, "require"@));
        bare_is_failure(p, i, b[n]);
    }
}

/// A name that stands in the list of an import statement, alone or behind `as`, is known to
/// the source.
pub proof fn listed_names_are_known(
    a: Seq<char>,
    body: Seq<char>,
    tail: Seq<char>,
    i: int,
    name: Seq<char>,
)
    requires
        find(a + "import {"@ + (body + seq!['}'] + tail), "import {"@) == Some(a.len() as int),
        !body.contains('}'),
        0 <= i < split(body, ","@).len(),
        local_name(split(body, ","@)[i]) == name,
    ensures
        lists_name(a + "import {"@ + (body + seq!['}'] + tail), name),
{
    reveal_strlit("import {");
    reveal_strlit("}");
    assert("}"@ =~= seq!['}']);
    let s = a + "import {"@ + (body + seq!['}'] + tail);
    assert(s.skip(a.len() as int + 8) =~= body + seq!['}'] + tail);
    found_behind(body, '}', tail);
}

/// A part of an import list makes known the name behind `as`, and without one itself.
pub proof fn names_behind_as_are_known(part: Seq<char>, orig: Seq<char>, alias: Seq<char>)
    ensures
        split_once(trim(part), " as "@) == Some((orig, alias)) ==> local_name(part) == trim(alias),
        split_once(trim(part), " as "@) is None ==> local_name(part) == trim(part),
{
}

/// A source for the browser is not held to the names of Node.
pub proof fn browsers_have_their_own_names(fname: Seq<char>, a: Seq<char>, b: Seq<char>)
    ensures
        bare_items(fname, a + "__ModuleLoader__"@ + b).len() == 0,
        bare_items(fname, a + "window."@ + b).len() == 0,
{
    parts_are_seen(a, "__ModuleLoader__"@, b);
    parts_are_seen(a, "window."@, b);
}

/// A plugin that declares what it needs of its host is told how many that are; an ES module
/// that declares nothing is warned of.
pub proof fn peers_are_counted(dir: Seq<char>, n: nat, esm: bool)
    ensures
        n > 0 ==> peer_items(dir, n, esm).len() == 1 && peer_items(dir, n, esm)[0].0 == Level::Pass,
        n == 0 && esm ==> peer_items(dir, n, esm).len() == 1 && peer_items(dir, n, esm)[0].0
            == Level::Warn,
        n == 0 && !esm ==> peer_items(dir, n, esm).len() == 0,
{
}

} // verus!
