//! The check before a plugin is deployed: its structure, its dependencies on the
//! host, what its sources import, and the order of the bundles.
use vstd::prelude::*;
use crate::args::{
    first_filled, first_nonempty, last_value, names, options, plain_words, positionals, read_args, value_or,
};
use crate::json::{json_parsed, parse, text_of, value_text, Json, JsonView};
use crate::num::{dec, decimal};
use crate::release::{satisfies, version_ok};
use crate::report::{
    deploy_code, deploy_lines, deploy_report, items, note, say, spotless, CheckItem, Level, Outcome,
};
use crate::table::{group_in, group_views, grouped, Group};
use crate::text::{
    before, begins, cat, cat3, cat4, cat5, cat7, contains, cut, find, find_from_is_first,
    found_behind, has, head, lines, lines_of, maybe, occurs_at, parts_are_seen, pieces, same,
    split, split_once, starts, strip_start, stripped_start, text_lt, texts, trim, trimmed,
};

verus! {

// ---------------------------------------------------------------- input

/// A file as it was found.
pub enum FileState {
    Missing,
    Unreadable(String),
    Text(String),
}

/// A package of the host: its `package.json`, the file that this names as the
/// entry, and `lib/index.js`.
pub struct HostPkg {
    pub name: String,
    pub file: FileState,
    pub entry: Option<String>,
    pub fallback: Option<String>,
}

/// What the syntax check of a source file said.
pub enum Syntax {
    Skipped,
    Good,
    Bad(String),
}

/// A source file of the plugin.
pub struct JsFile {
    pub name: String,
    pub text: Option<String>,
    pub syntax: Syntax,
}

/// The `package.json` of a profile, named on the command line.
pub struct Profile {
    pub path: String,
    pub text: Option<String>,
}

/// All that the check reads.
pub struct Deployment {
    pub dir: String,
    pub pkg_path: String,
    pub has_lib: bool,
    pub pkg: FileState,
    pub hosts: Vec<HostPkg>,
    pub js: Vec<JsFile>,
    pub patch_exists: bool,
    pub profile: Option<Profile>,
}

// ---------------------------------------------------------------- arguments

/// The arguments of the check.
pub struct DeployArgs {
    pub plugin_dir: String,
    pub runtime: String,
    pub profile: Option<String>,
    pub json_out: bool,
}

/// The options of the check that take a value.
pub open spec fn deploy_valued() -> Seq<Seq<char>> {
    seq!["--runtime"@, "--profile"@]
}

/// Reads the arguments: the directory is the first word that is neither empty nor
/// begins with a hyphen.
pub fn deploy_args(args: &[String]) -> (r: DeployArgs)
    ensures
        ({
            let o = options(texts(args@), deploy_valued());
            let w = plain_words(texts(args@), deploy_valued());
            &&& r.plugin_dir@ == match first_filled(positionals(w)) {
                Some(d) => d,
                None => seq![],
            }
            &&& r.runtime@ == value_or(o, "--runtime"@, seq![])
            &&& match r.profile {
                Some(p) => last_value(o, "--profile"@) == Some(p@),
                None => last_value(o, "--profile"@) is None,
            }
            &&& r.json_out == w.contains("--json"@)
        }),
{
    let valued = ["--runtime", "--profile"];
    let a = read_args(args, &valued);
    assert(names(valued@) =~= deploy_valued());
    proof {
        reveal_strlit("");
        assert(""@ =~= seq![]);
    }
    let plugin_dir = match first_nonempty(&a.positionals()) {
        Some(d) => d,
        None => String::new(),
    };
    DeployArgs {
        plugin_dir,
        runtime: a.value_or("--runtime", ""),
        profile: a.value("--profile"),
        json_out: a.has("--json"),
    }
}

/// The arguments of the barrier before a restart.
pub struct GuardArgs {
    pub dirs: Vec<String>,
    pub runtime: String,
    pub profile: Option<String>,
    pub json_out: bool,
}

/// Reads the arguments of the barrier: every word that does not begin with a hyphen
/// is a directory.
pub fn guard_args(args: &[String]) -> (r: GuardArgs)
    ensures
        ({
            let o = options(texts(args@), deploy_valued());
            let w = plain_words(texts(args@), deploy_valued());
            &&& texts(r.dirs@) == positionals(w)
            &&& r.runtime@ == value_or(o, "--runtime"@, seq![])
            &&& match r.profile {
                Some(p) => last_value(o, "--profile"@) == Some(p@),
                None => last_value(o, "--profile"@) is None,
            }
            &&& r.json_out == w.contains("--json"@)
        }),
{
    let valued = ["--runtime", "--profile"];
    let a = read_args(args, &valued);
    assert(names(valued@) =~= deploy_valued());
    proof {
        reveal_strlit("");
        assert(""@ =~= seq![]);
    }
    GuardArgs {
        dirs: a.positionals(),
        runtime: a.value_or("--runtime", ""),
        profile: a.value("--profile"),
        json_out: a.has("--json"),
    }
}

/// The place where the runtime of the host is looked for.
pub open spec fn runtime_candidate() -> Seq<char> {
    "/Applications/CLD.app/Contents/Resources/dsh-runtime/runtime"@
}

/// The runtime of the host: the place where it is looked for if it stands there,
/// else the current directory.
pub fn detect_runtime(present: bool) -> (r: String)
    ensures
        r@ == if present {
            runtime_candidate()
        } else {
            "."@
        },
{
    if present {
        "/Applications/CLD.app/Contents/Resources/dsh-runtime/runtime".to_owned()
    } else {
        ".".to_owned()
    }
}

// ---------------------------------------------------------------- host packages

/// What is found of a package of the host, given what its `package.json` holds.
pub open spec fn host_version_item(
    name: Seq<char>,
    want: Seq<char>,
    pkg: JsonView,
) -> (Level, Seq<char>) {
    let got = pkg.text_or("version"@, "?"@);
    if want.len() == 0 || satisfies(got, want) {
        (
            Level::Pass,
            "宿主 "@ + name + " @ "@ + got + " （期望 "@ + (if want.len() == 0 {
                "任意"@
            } else {
                want
            }) + "）"@,
        )
    } else {
        (Level::Warn, "宿主 "@ + name + " @ "@ + got + " ≠ 期望 "@ + want + " —— 版本漂移"@)
    }
}

/// What is found of a package of the host.
pub open spec fn host_item(name: Seq<char>, want: Seq<char>, f: FileState) -> (Level, Seq<char>) {
    match f {
        FileState::Missing => (
            Level::Fail,
            "宿主缺依赖包: "@ + name + " (期望 "@ + (if want.len() == 0 {
                "*"@
            } else {
                want
            }) + ")——解析链不可达"@,
        ),
        FileState::Unreadable(_) => (Level::Warn, "读 "@ + name + " package.json 失败"@),
        FileState::Text(t) => match json_parsed(t@) {
            Ok(v) => host_version_item(name, want, v),
            Err(e) => (Level::Warn, name + " package.json 解析失败: "@ + e),
        },
    }
}

/// Judges a package of the host by what its `package.json` holds.
pub fn judge_version(name: &str, want: &str, pkg: &Json) -> (r: CheckItem)
    ensures
        (r.level, r.msg@) == host_version_item(name@, want@, pkg@),
{
    let got = pkg.text_or("version", "?");
    if want.is_empty() || version_ok(got.as_str(), want) {
        let w = if want.is_empty() {
            "任意"
        } else {
            want
        };
        CheckItem {
            level: Level::Pass,
            msg: cat7("宿主 ", name, " @ ", got.as_str(), " （期望 ", w, "）"),
        }
    } else {
        CheckItem {
            level: Level::Warn,
            msg: cat7("宿主 ", name, " @ ", got.as_str(), " ≠ 期望 ", want, " —— 版本漂移"),
        }
    }
}

/// Judges a package of the host: whether it is there, and whether its version
/// satisfies the one that is wanted.
pub fn check_host_pkg(name: &str, want: &str, f: &FileState) -> (r: CheckItem)
    ensures
        (r.level, r.msg@) == host_item(name@, want@, *f),
{
    match f {
        FileState::Missing => {
            let w = if want.is_empty() {
                "*"
            } else {
                want
            };
            CheckItem {
                level: Level::Fail,
                msg: cat5("宿主缺依赖包: ", name, " (期望 ", w, ")——解析链不可达"),
            }
        },
        FileState::Unreadable(_) => CheckItem {
            level: Level::Warn,
            msg: cat3("读 ", name, " package.json 失败"),
        },
        FileState::Text(t) => match parse(t.as_str()) {
            Ok(v) => judge_version(name, want, &v),
            Err(e) => CheckItem {
                level: Level::Warn,
                msg: cat3(name, " package.json 解析失败: ", e.as_str()),
            },
        },
    }
}

/// The package of the host named `name`.
pub open spec fn host_named(hosts: Seq<HostPkg>, name: Seq<char>) -> Option<HostPkg>
    decreases hosts.len(),
{
    if hosts.len() == 0 {
        None
    } else if hosts[0].name@ == name {
        Some(hosts[0])
    } else {
        host_named(hosts.skip(1), name)
    }
}

/// The `package.json` of the package of the host named `name`.
pub open spec fn host_file(hosts: Seq<HostPkg>, name: Seq<char>) -> FileState {
    match host_named(hosts, name) {
        Some(h) => h.file,
        None => FileState::Missing,
    }
}

fn find_host<'a>(hosts: &'a Vec<HostPkg>, name: &str) -> (r: Option<&'a HostPkg>)
    ensures
        match r {
            Some(h) => host_named(hosts@, name@) == Some(*h),
            None => host_named(hosts@, name@) is None,
        },
{
    let mut i: usize = 0;
    assert(hosts@.skip(0) =~= hosts@);
    while i < hosts.len()
        invariant
            i <= hosts@.len(),
            host_named(hosts@, name@) == host_named(hosts@.skip(i as int), name@),
        decreases hosts@.len() - i,
    {
        assert(hosts@.skip(i as int)[0] == hosts@[i as int]);
        if same(hosts[i].name.as_str(), name) {
            return Some(&hosts[i]);
        }
        assert(hosts@.skip(i as int).skip(1) =~= hosts@.skip(i + 1));
        i += 1;
    }
    None
}

/// What is found of the packages that some entries name, each with the version
/// that the entry wants.
pub open spec fn host_items(e: Seq<(Seq<char>, JsonView)>, hosts: Seq<HostPkg>) -> Seq<
    (Level, Seq<char>),
>
    decreases e.len(),
{
    if e.len() == 0 {
        seq![]
    } else {
        host_items(e.drop_last(), hosts).push(
            host_item(e.last().0, text_of(e.last().1), host_file(hosts, e.last().0)),
        )
    }
}

fn check_hosts(e: &Vec<(String, Json)>, hosts: &Vec<HostPkg>, out: &mut Vec<CheckItem>)
    ensures
        items(final(out)@) == items(old(out)@) + host_items(
            crate::json::entry_views(e@),
            hosts@,
        ),
{
    let ghost base = items(out@);
    let ghost w = crate::json::entry_views(e@);
    proof {
        crate::json::entry_views_by_index(e@);
        assert(w.take(0) =~= seq![]);
        assert(base + host_items(w.take(0), hosts@) =~= base);
    }
    let missing = FileState::Missing;
    let mut i: usize = 0;
    while i < e.len()
        invariant
            i <= e@.len() == w.len(),
            missing is Missing,
            forall|j: int| 0 <= j < e@.len() ==> #[trigger] w[j] == (e@[j].0@, e@[j].1@),
            items(out@) == base + host_items(w.take(i as int), hosts@),
        decreases e@.len() - i,
    {
        proof {
            assert(w.take(i + 1).drop_last() =~= w.take(i as int));
            assert(w.take(i + 1).last() == w[i as int]);
        }
        let want = value_text(&e[i].1);
        let f = match find_host(hosts, e[i].0.as_str()) {
            Some(h) => &h.file,
            None => &missing,
        };
        let c = check_host_pkg(e[i].0.as_str(), want.as_str(), f);
        let ghost prev = items(out@);
        note(out, c.level, c.msg);
        assert(items(out@) =~= base + host_items(w.take(i + 1), hosts@));
        i += 1;
    }
    assert(w.take(i as int) =~= w);
}

/// What is found of the plugin by its `package.json`.
pub open spec fn package_items(pkg: JsonView, hosts: Seq<HostPkg>) -> Seq<(Level, Seq<char>)> {
    let name = (Level::Pass, "插件名: "@ + pkg.text_or("name"@, "?"@));
    let peers = match pkg.at("peerDependencies"@) {
        JsonView::Obj(e) => host_items(e, hosts),
        _ => seq![],
    };
    let deps = match pkg.at("dependencies"@) {
        JsonView::Obj(e) => (if e.len() == 0 {
            seq![(Level::Pass, "dependencies 为空（全部走宿主 peer）"@)]
        } else {
            seq![]
        }) + host_items(e, hosts),
        _ => seq![],
    };
    seq![name] + peers + deps
}

/// Judges the plugin by what its `package.json` holds.
pub fn check_package(pkg: &Json, hosts: &Vec<HostPkg>, out: &mut Vec<CheckItem>)
    ensures
        items(final(out)@) == items(old(out)@) + package_items(pkg@, hosts@),
{
    let ghost base = items(out@);
    let ghost name = (Level::Pass, "插件名: "@ + pkg@.text_or("name"@, "?"@));
    note(out, Level::Pass, cat("插件名: ", pkg.text_or("name", "?").as_str()));
    assert(items(out@) =~= base + seq![name]);
    let ghost peers = match pkg@.at("peerDependencies"@) {
        JsonView::Obj(e) => host_items(e, hosts@),
        _ => seq![],
    };
    if let Some(e) = pkg.entries_at("peerDependencies") {
        check_hosts(e, hosts, out);
    }
    assert(items(out@) =~= base + (seq![name] + peers));
    if let Some(e) = pkg.entries_at("dependencies") {
        proof {
            crate::json::entry_views_by_index(e@);
        }
        let ghost mid = items(out@);
        if e.len() == 0 {
            note(out, Level::Pass, "dependencies 为空（全部走宿主 peer）".to_owned());
            assert(items(out@) =~= mid + seq![
                (Level::Pass, "dependencies 为空（全部走宿主 peer）"@),
            ]);
        } else {
            assert(items(out@) =~= mid + seq![]);
        }
        check_hosts(e, hosts, out);
    }
    assert(items(out@) =~= base + package_items(pkg@, hosts@));
}

// ---------------------------------------------------------------- imports

/// A module that is neither a file of the plugin nor part of the runtime.
pub open spec fn foreign(m: Seq<char>) -> bool {
    m.len() > 0 && !starts(m, "."@) && !starts(m, "node:"@)
}

fn is_foreign(m: &str) -> (r: bool)
    ensures
        r == foreign(m@),
{
    !m.is_empty() && !begins(m, ".") && !begins(m, "node:")
}

/// The name in one part of an import list: what stands before `as`.
pub open spec fn import_name(part: Seq<char>) -> Seq<char> {
    trim(before(trim(part), " as "@))
}

/// The names in the parts of an import list, without the empty ones.
pub open spec fn import_names(parts: Seq<Seq<char>>) -> Seq<Seq<char>>
    decreases parts.len(),
{
    if parts.len() == 0 {
        seq![]
    } else if import_name(parts.last()).len() > 0 {
        import_names(parts.drop_last()).push(import_name(parts.last()))
    } else {
        import_names(parts.drop_last())
    }
}

/// The names that a line imports between braces.
pub open spec fn named_imports(line: Seq<char>) -> Seq<Seq<char>> {
    match split_once(line, "import {"@) {
        Some((_, rest)) => match split_once(rest, "}"@) {
            Some((body, _)) => import_names(split(body, ","@)),
            None => seq![],
        },
        None => seq![],
    }
}

/// The names that a line imports between braces.
pub fn extract_named_imports(line: &str) -> (r: Vec<String>)
    ensures
        texts(r@) == named_imports(line@),
{
    let mut out: Vec<String> = Vec::new();
    if let Some((_, rest)) = cut(line, "import {") {
        if let Some((body, _)) = cut(rest.as_str(), "}") {
            let parts = pieces(body.as_str(), ",");
            let ghost t = texts(parts@);
            let mut i: usize = 0;
            assert(t.take(0) =~= seq![]);
            assert(texts(out@) =~= seq![]);
            while i < parts.len()
                invariant
                    i <= parts@.len(),
                    t == texts(parts@),
                    texts(out@) == import_names(t.take(i as int)),
                decreases parts@.len() - i,
            {
                proof {
                    assert(t.take(i + 1).drop_last() =~= t.take(i as int));
                    assert(t.take(i + 1).last() == parts@[i as int]@);
                }
                let name = trimmed(head(trimmed(parts[i].as_str()).as_str(), " as ").as_str());
                if !name.as_str().is_empty() {
                    let ghost prev = out@;
                    let ghost nm = name@;
                    out.push(name);
                    assert(texts(out@) =~= texts(prev).push(nm));
                }
                i += 1;
            }
            assert(t.take(i as int) =~= t);
            return out;
        }
    }
    assert(texts(out@) =~= seq![]);
    out
}

/// A line on which an import begins a list of names that it does not end.
pub open spec fn opens_list(l: Seq<char>) -> bool {
    starts(trim(l), "import "@) && contains(l, "{"@) && !contains(l, "}"@)
}

/// The statements of some lines, and one that is not yet complete: a list of names to be
/// imported may go on over several lines, every other line stands for itself.
pub open spec fn gathered(ls: Seq<Seq<char>>) -> (Seq<Seq<char>>, Option<Seq<char>>)
    decreases ls.len(),
{
    if ls.len() == 0 {
        (seq![], None)
    } else {
        let (done, open) = gathered(ls.drop_last());
        let l = ls.last();
        match open {
            Some(h) => if contains(l, "}"@) {
                (done.push(h + " "@ + l), None)
            } else {
                (done, Some(h + " "@ + l))
            },
            None => if opens_list(l) {
                (done, Some(l))
            } else {
                (done.push(l), None)
            },
        }
    }
}

/// The statements of some lines.
pub open spec fn statements(ls: Seq<Seq<char>>) -> Seq<Seq<char>> {
    let (done, open) = gathered(ls);
    match open {
        Some(h) => done.push(h),
        None => done,
    }
}

fn does_open_list(l: &str) -> (r: bool)
    ensures
        r == opens_list(l@),
{
    let closes = has(l, "}");
    begins(trimmed(l).as_str(), "import ") && has(l, "{") && !closes
}

/// The statements of a source.
pub fn statements_of(txt: &str) -> (r: Vec<String>)
    ensures
        texts(r@) == statements(lines(txt@)),
{
    let ls = lines_of(txt);
    let ghost t = texts(ls@);
    let mut done: Vec<String> = Vec::new();
    let mut open: Option<String> = None;
    let mut i: usize = 0;
    assert(t.take(0) =~= seq![]);
    assert(texts(done@) =~= seq![]);
    while i < ls.len()
        invariant
            i <= ls@.len(),
            t == texts(ls@),
            (texts(done@), maybe(open)) == gathered(t.take(i as int)),
        decreases ls@.len() - i,
    {
        proof {
            assert(t.take(i + 1).drop_last() =~= t.take(i as int));
            assert(t.take(i + 1).last() == ls@[i as int]@);
        }
        let l = ls[i].as_str();
        let ghost prev = texts(done@);
        match open {
            Some(h) => {
                let all = cat3(h.as_str(), " ", l);
                if has(l, "}") {
                    let ghost a = all@;
                    done.push(all);
                    assert(texts(done@) =~= prev.push(a));
                    open = None;
                } else {
                    open = Some(all);
                }
            },
            None => {
                if does_open_list(l) {
                    open = Some(l.to_owned());
                } else {
                    done.push(l.to_owned());
                    assert(texts(done@) =~= prev.push(l@));
                    open = None;
                }
            },
        }
        i += 1;
    }
    assert(t.take(i as int) =~= t);
    if let Some(h) = open {
        let ghost prev = texts(done@);
        let ghost a = h@;
        done.push(h);
        assert(texts(done@) =~= prev.push(a));
    }
    done
}

/// What stands behind `open`, up to the quote that ends it.
pub open spec fn quoted_behind(l: Seq<char>, open: Seq<char>, quote: Seq<char>) -> Option<
    Seq<char>,
> {
    match split_once(l, open) {
        Some((_, rest)) => if foreign(before(rest, quote)) {
            Some(before(rest, quote))
        } else {
            None
        },
        None => None,
    }
}

/// The module that an `import` statement names, in quotes of either kind.
pub open spec fn imported_module(l: Seq<char>) -> Option<Seq<char>> {
    if starts(l, "import '"@) {
        quoted_behind(l, "import '"@, "'"@)
    } else if starts(l, "import \""@) {
        quoted_behind(l, "import \""@, "\""@)
    } else if !starts(l, "import "@) {
        None
    } else if contains(l, "from '"@) {
        quoted_behind(l, "from '"@, "'"@)
    } else {
        quoted_behind(l, "from \""@, "\""@)
    }
}

/// The modules found so far with those that the pieces of a line name, each up to the quote
/// that ends it.
pub open spec fn with_required(
    g: Seq<(Seq<char>, Seq<Seq<char>>)>,
    p: Seq<Seq<char>>,
    quote: Seq<char>,
) -> Seq<(Seq<char>, Seq<Seq<char>>)>
    decreases p.len(),
{
    if p.len() == 0 {
        g
    } else {
        let a = with_required(g, p.drop_last(), quote);
        let m = before(p.last(), quote);
        if foreign(m) {
            grouped(a, m, seq![])
        } else {
            a
        }
    }
}

/// What follows each occurrence of `open` in a line.
pub open spec fn pieces_behind(l: Seq<char>, open: Seq<char>) -> Seq<Seq<char>> {
    split(l, open).skip(1)
}

/// The modules found so far with those of one more statement: what it imports, and what
/// the calls of `require` in it name, in quotes of either kind.
pub open spec fn with_line(
    g: Seq<(Seq<char>, Seq<Seq<char>>)>,
    line: Seq<char>,
) -> Seq<(Seq<char>, Seq<Seq<char>>)> {
    let l = trim(line);
    let a = match imported_module(l) {
        Some(m) => grouped(g, m, named_imports(l)),
        None => g,
    };
    with_required(
        with_required(a, pieces_behind(l, "require('"@), "'"@),
        pieces_behind(l, "require(\""@),
        "\""@,
    )
}

/// The foreign modules that some statements import, in their order, each with the names
/// that are imported from it.
pub open spec fn modules_in(ls: Seq<Seq<char>>) -> Seq<(Seq<char>, Seq<Seq<char>>)>
    decreases ls.len(),
{
    if ls.len() == 0 {
        seq![]
    } else {
        with_line(modules_in(ls.drop_last()), ls.last())
    }
}

/// The foreign modules that some lines import, in their order, each with the names
/// that are imported from it.
pub open spec fn modules(ls: Seq<Seq<char>>) -> Seq<(Seq<char>, Seq<Seq<char>>)> {
    modules_in(statements(ls))
}

fn module_behind(l: &str, open: &str, quote: &str) -> (r: Option<String>)
    ensures
        maybe(r) == quoted_behind(l@, open@, quote@),
{
    if let Some((_, rest)) = cut(l, open) {
        let m = head(rest.as_str(), quote);
        if is_foreign(m.as_str()) {
            return Some(m);
        }
    }
    None
}

fn module_of_import(l: &str) -> (r: Option<String>)
    ensures
        maybe(r) == imported_module(l@),
{
    if begins(l, "import '") {
        module_behind(l, "import '", "'")
    } else if begins(l, "import \"") {
        module_behind(l, "import \"", "\"")
    } else if !begins(l, "import ") {
        None
    } else if has(l, "from '") {
        module_behind(l, "from '", "'")
    } else {
        module_behind(l, "from \"", "\"")
    }
}

fn group_required(g: &mut Vec<Group>, l: &str, open: &str, quote: &str)
    ensures
        group_views(final(g)@) == with_required(
            group_views(old(g)@),
            pieces_behind(l@, open@),
            quote@,
        ),
{
    let p = pieces(l, open);
    let ghost t = texts(p@).skip(1);
    let ghost base = group_views(g@);
    proof {
        assert(texts(p@).len() == p@.len());
        assert(t.take(0) =~= seq![]);
    }
    let mut i: usize = 1;
    if p.len() == 0 {
        assert(t =~= seq![]);
        return;
    }
    while i < p.len()
        invariant
            1 <= i <= p@.len(),
            t == texts(p@).skip(1),
            group_views(g@) == with_required(base, t.take(i - 1), quote@),
        decreases p@.len() - i,
    {
        proof {
            assert(t.take(i as int).drop_last() =~= t.take(i - 1));
            assert(t.take(i as int).last() == p@[i as int]@);
        }
        let m = head(p[i].as_str(), quote);
        if is_foreign(m.as_str()) {
            let none: Vec<String> = Vec::new();
            assert(texts(none@) =~= seq![]);
            group_in(g, m.as_str(), none);
        }
        i += 1;
    }
    assert(t.take(i - 1) =~= t);
}

/// The foreign modules that a source imports, each with the names that are
/// imported from it.
pub fn imported_modules(txt: &str) -> (r: Vec<Group>)
    ensures
        group_views(r@) == modules(lines(txt@)),
{
    let ls = statements_of(txt);
    let mut g: Vec<Group> = Vec::new();
    let ghost t = texts(ls@);
    let mut i: usize = 0;
    assert(t.take(0) =~= seq![]);
    assert(group_views(g@) =~= seq![]);
    while i < ls.len()
        invariant
            i <= ls@.len(),
            t == texts(ls@),
            group_views(g@) == modules_in(t.take(i as int)),
        decreases ls@.len() - i,
    {
        proof {
            assert(t.take(i + 1).drop_last() =~= t.take(i as int));
            assert(t.take(i + 1).last() == ls@[i as int]@);
        }
        let l = trimmed(ls[i].as_str());
        if let Some(m) = module_of_import(l.as_str()) {
            group_in(&mut g, m.as_str(), extract_named_imports(l.as_str()));
        }
        group_required(&mut g, l.as_str(), "require('", "'");
        group_required(&mut g, l.as_str(), "require(\"", "\"");
        i += 1;
    }
    assert(t.take(i as int) =~= t);
    g
}

// ---------------------------------------------------------------- exports

/// A part of an export list exports `name`: as the name before `as`, or the one behind it,
/// or whole.
pub open spec fn part_exports(part: Seq<char>, name: Seq<char>) -> bool {
    let p = trim(part);
    let orig = strip_start(trim(before(p, " as "@)), "\\"@);
    p.len() > 0 && (orig == name || p == name || match split_once(p, " as "@) {
        Some((_, alias)) => trim(alias) == name,
        None => false,
    })
}

/// One of the parts of an export list exports `name`.
pub open spec fn body_exports(body: Seq<char>, name: Seq<char>) -> bool {
    exists|i: int|
        0 <= i < split(body, ","@).len() && part_exports(#[trigger] split(body, ","@)[i], name)
}

/// Some export list of a source, on one line or over several, exports `name`.
pub open spec fn list_exports(txt: Seq<char>, name: Seq<char>) -> bool
    decreases txt.len(),
{
    match split_once(txt, "export {"@) {
        Some((_, rest)) => match split_once(rest, "}"@) {
            Some((body, tail)) => body_exports(body, name) || (tail.len() < txt.len()
                && list_exports(tail, name)),
            None => false,
        },
        None => false,
    }
}

/// A source exports `name`: in an export list, or by one of the forms that name it
/// directly.
pub open spec fn exports(txt: Seq<char>, name: Seq<char>) -> bool {
    ||| list_exports(txt, name)
    ||| contains(txt, "export const "@ + name)
    ||| contains(txt, "export function "@ + name)
    ||| contains(txt, "export class "@ + name)
    ||| contains(txt, "export "@ + name + " ="@)
    ||| contains(txt, "exports."@ + name + " ="@)
    ||| contains(txt, "var "@ + name + " ="@)
    ||| contains(txt, "function "@ + name + "("@)
    ||| contains(txt, "const "@ + name + " ="@)
}

fn does_part_export(part: &str, name: &str) -> (r: bool)
    ensures
        r == part_exports(part@, name@),
{
    let p = trimmed(part);
    if p.as_str().is_empty() {
        return false;
    }
    let orig = stripped_start(trimmed(head(p.as_str(), " as ").as_str()).as_str(), "\\");
    if same(orig.as_str(), name) || same(p.as_str(), name) {
        return true;
    }
    match cut(p.as_str(), " as ") {
        Some((_, alias)) => same(trimmed(alias.as_str()).as_str(), name),
        None => false,
    }
}

fn does_body_export(body: &str, name: &str) -> (r: bool)
    ensures
        r == body_exports(body@, name@),
{
    let parts = pieces(body, ",");
    let ghost t = split(body@, ","@);
    let mut i: usize = 0;
    while i < parts.len()
        invariant
            i <= parts@.len(),
            t == texts(parts@),
            t == split(body@, ","@),
            forall|j: int| 0 <= j < i ==> !part_exports(#[trigger] t[j], name@),
        decreases parts@.len() - i,
    {
        assert(t[i as int] == parts@[i as int]@);
        if does_part_export(parts[i].as_str(), name) {
            assert(t.len() == parts@.len());
            assert(part_exports(split(body@, ","@)[i as int], name@));
            return true;
        }
        i += 1;
    }
    false
}

fn does_list_export(txt: &str, name: &str) -> (r: bool)
    ensures
        r == list_exports(txt@, name@),
{
    let mut rest = txt.to_owned();
    loop
        invariant
            list_exports(txt@, name@) == list_exports(rest@, name@),
        decreases rest@.len(),
    {
        let ghost whole = rest@;
        match cut(rest.as_str(), "export {") {
            Some((_, behind)) => match cut(behind.as_str(), "}") {
                Some((body, tail)) => {
                    if does_body_export(body.as_str(), name) {
                        return true;
                    }
                    proof {
                        reveal_strlit("export {");
                        reveal_strlit("}");
                        find_from_is_first(whole, "export {"@, 0);
                        find_from_is_first(behind@, "}"@, 0);
                    }
                    assert(tail@.len() < whole.len());
                    rest = tail;
                },
                None => return false,
            },
            None => return false,
        }
    }
}

/// Whether a source exports `name`.
pub fn exports_name(txt: &str, name: &str) -> (r: bool)
    ensures
        r == exports(txt@, name@),
{
    does_list_export(txt, name) || has(txt, cat("export const ", name).as_str()) || has(
        txt,
        cat("export function ", name).as_str(),
    ) || has(txt, cat("export class ", name).as_str()) || has(
        txt,
        cat3("export ", name, " =").as_str(),
    ) || has(txt, cat3("exports.", name, " =").as_str()) || has(
        txt,
        cat3("var ", name, " =").as_str(),
    ) || has(txt, cat3("function ", name, "(").as_str()) || has(
        txt,
        cat3("const ", name, " =").as_str(),
    )
}

/// The entry that a `package.json` names, given what it holds.
pub open spec fn entry_in(pkg: JsonView) -> Seq<char> {
    pkg.text_or("main"@, "lib/index.js"@)
}

/// The entry that the text of a `package.json` names.
pub open spec fn entry_named(txt: Seq<char>) -> Seq<char> {
    match json_parsed(txt) {
        Ok(v) => entry_in(v),
        Err(_) => "lib/index.js"@,
    }
}

/// The entry that a `package.json` names, given what it holds.
pub fn entry_of_value(pkg: &Json) -> (r: String)
    ensures
        r@ == entry_in(pkg@),
{
    pkg.text_or("main", "lib/index.js")
}

/// The entry file that the text of a `package.json` names.
pub fn entry_of(txt: &str) -> (r: String)
    ensures
        r@ == entry_named(txt@),
{
    match parse(txt) {
        Ok(v) => entry_of_value(&v),
        Err(_) => "lib/index.js".to_owned(),
    }
}

/// The source of a package: that of the entry, else that of `lib/index.js`.
pub open spec fn host_source(h: HostPkg) -> Option<Seq<char>> {
    match h.entry {
        Some(t) => Some(t@),
        None => match h.fallback {
            Some(t) => Some(t@),
            None => None,
        },
    }
}

/// A package of the host exports `name`, as far as its source can be read.
pub open spec fn host_exports(h: HostPkg, name: Seq<char>) -> bool {
    match h.file {
        FileState::Text(_) => match host_source(h) {
            Some(t) => exports(t, name),
            None => true,
        },
        _ => true,
    }
}

/// Whether a package of the host exports `name`; one whose source cannot be read
/// is given the benefit of the doubt.
pub fn export_exists(h: &HostPkg, name: &str) -> (r: bool)
    ensures
        r == host_exports(*h, name@),
{
    match &h.file {
        FileState::Text(_) => match &h.entry {
            Some(t) => exports_name(t.as_str(), name),
            None => match &h.fallback {
                Some(t) => exports_name(t.as_str(), name),
                None => true,
            },
        },
        _ => true,
    }
}

/// What is found of the names that a file imports from a package.
pub open spec fn drift_items(
    fname: Seq<char>,
    m: Seq<char>,
    h: HostPkg,
    named: Seq<Seq<char>>,
) -> Seq<(Level, Seq<char>)>
    decreases named.len(),
{
    if named.len() == 0 {
        seq![]
    } else {
        let n = named.last();
        let before_it = drift_items(fname, m, h, named.drop_last());
        if n == "default"@ || host_exports(h, n) {
            before_it
        } else {
            before_it.push(
                (
                    Level::Fail,
                    "["@ + fname + "] import { "@ + n + " } from '"@ + m
                        + "' → API 漂移：宿主包未导出 "@ + n
                        + "（cordis 4.x 已移除 definePlugin 等）"@,
                ),
            )
        }
    }
}

/// What is found of one module that a file imports.
pub open spec fn module_items(
    fname: Seq<char>,
    m: Seq<char>,
    named: Seq<Seq<char>>,
    hosts: Seq<HostPkg>,
) -> Seq<(Level, Seq<char>)> {
    match host_named(hosts, m) {
        Some(h) if !(h.file is Missing) => drift_items(fname, m, h, named),
        _ => seq![
            (
                Level::Fail,
                "["@ + fname + "] import '"@ + m + "' → 宿主无此包（解析链不可达）"@,
            ),
        ],
    }
}

/// What is found of the modules that a file imports.
pub open spec fn scan_items(
    fname: Seq<char>,
    g: Seq<(Seq<char>, Seq<Seq<char>>)>,
    hosts: Seq<HostPkg>,
) -> Seq<(Level, Seq<char>)>
    decreases g.len(),
{
    if g.len() == 0 {
        seq![]
    } else {
        scan_items(fname, g.drop_last(), hosts) + module_items(
            fname,
            g.last().0,
            g.last().1,
            hosts,
        )
    }
}

fn check_drift(
    fname: &str,
    m: &str,
    h: &HostPkg,
    named: &Vec<String>,
    out: &mut Vec<CheckItem>,
)
    ensures
        items(final(out)@) == items(old(out)@) + drift_items(fname@, m@, *h, texts(named@)),
{
    let ghost base = items(out@);
    let ghost t = texts(named@);
    let mut i: usize = 0;
    assert(t.take(0) =~= seq![]);
    assert(base + drift_items(fname@, m@, *h, t.take(0)) =~= base);
    while i < named.len()
        invariant
            i <= named@.len(),
            t == texts(named@),
            items(out@) == base + drift_items(fname@, m@, *h, t.take(i as int)),
        decreases named@.len() - i,
    {
        proof {
            assert(t.take(i + 1).drop_last() =~= t.take(i as int));
            assert(t.take(i + 1).last() == named@[i as int]@);
        }
        let n = named[i].as_str();
        if !same(n, "default") && !export_exists(h, n) {
            let mut s = cat7("[", fname, "] import { ", n, " } from '", m, "' → API 漂移：宿主包未导出 ");
            s.append(n);
            s.append("（cordis 4.x 已移除 definePlugin 等）");
            note(out, Level::Fail, s);
            assert(items(out@) =~= base + drift_items(fname@, m@, *h, t.take(i + 1)));
        }
        i += 1;
    }
    assert(t.take(i as int) =~= t);
}

/// Judges what one source file imports.
pub fn scan_js_file(fname: &str, txt: &str, hosts: &Vec<HostPkg>, out: &mut Vec<CheckItem>)
    ensures
        items(final(out)@) == items(old(out)@) + scan_items(fname@, modules(lines(txt@)), hosts@),
{
    let g = imported_modules(txt);
    let ghost base = items(out@);
    let ghost w = group_views(g@);
    let mut i: usize = 0;
    assert(w.take(0) =~= seq![]);
    assert(base + scan_items(fname@, w.take(0), hosts@) =~= base);
    while i < g.len()
        invariant
            i <= g@.len(),
            w == group_views(g@),
            items(out@) == base + scan_items(fname@, w.take(i as int), hosts@),
        decreases g@.len() - i,
    {
        proof {
            assert(w.take(i + 1).drop_last() =~= w.take(i as int));
            assert(w.take(i + 1).last() == w[i as int]);
        }
        let ghost mid = items(out@);
        let m = g[i].key.as_str();
        let mut absent = true;
        if let Some(h) = find_host(hosts, m) {
            match h.file {
                FileState::Missing => {},
                _ => {
                    absent = false;
                    check_drift(fname, m, h, &g[i].items, out);
                },
            }
        }
        if absent {
            note(out, Level::Fail, cat5("[", fname, "] import '", m, "' → 宿主无此包（解析链不可达）"));
        }
        assert(items(out@) =~= mid + module_items(fname@, w[i as int].0, w[i as int].1, hosts@));
        assert(items(out@) =~= base + scan_items(fname@, w.take(i + 1), hosts@));
        i += 1;
    }
    assert(w.take(i as int) =~= w);
}

/// What is found of what the source files import.
pub open spec fn all_scans(js: Seq<JsFile>, hosts: Seq<HostPkg>) -> Seq<(Level, Seq<char>)>
    decreases js.len(),
{
    if js.len() == 0 {
        seq![]
    } else {
        all_scans(js.drop_last(), hosts) + match js.last().text {
            Some(t) => scan_items(js.last().name@, modules(lines(t@)), hosts),
            None => seq![],
        }
    }
}

fn scan_all(js: &Vec<JsFile>, hosts: &Vec<HostPkg>, out: &mut Vec<CheckItem>)
    ensures
        items(final(out)@) == items(old(out)@) + all_scans(js@, hosts@),
{
    let ghost base = items(out@);
    let mut i: usize = 0;
    assert(js@.take(0) =~= seq![]);
    assert(base + all_scans(js@.take(0), hosts@) =~= base);
    while i < js.len()
        invariant
            i <= js@.len(),
            items(out@) == base + all_scans(js@.take(i as int), hosts@),
        decreases js@.len() - i,
    {
        proof {
            assert(js@.take(i + 1).drop_last() =~= js@.take(i as int));
            assert(js@.take(i + 1).last() == js@[i as int]);
        }
        if let Some(t) = &js[i].text {
            scan_js_file(js[i].name.as_str(), t.as_str(), hosts, out);
        }
        assert(items(out@) =~= base + all_scans(js@.take(i + 1), hosts@));
        i += 1;
    }
    assert(js@.take(i as int) =~= js@);
}

// ---------------------------------------------------------------- references

/// What is found of the way in which a dependency is named.
pub open spec fn reference_item(p: Seq<char>, v: Seq<char>) -> Option<(Level, Seq<char>)> {
    if starts(v, "link:"@) || starts(v, "file:"@) || starts(v, "github:"@) {
        Some((Level::Pass, "deps["@ + p + "] 用 "@ + v + " 语法（本地/远程引用）"@))
    } else if v.len() > 0 && v != "*"@ {
        Some(
            (
                Level::Warn,
                "deps["@ + p + "] 用 registry 版本 "@ + v + " —— 跨设备需确认宿主已装同版本"@,
            ),
        )
    } else {
        None
    }
}

/// What is found of the ways in which some dependencies are named.
pub open spec fn reference_items(e: Seq<(Seq<char>, JsonView)>) -> Seq<(Level, Seq<char>)>
    decreases e.len(),
{
    if e.len() == 0 {
        seq![]
    } else {
        match reference_item(e.last().0, text_of(e.last().1)) {
            Some(c) => reference_items(e.drop_last()).push(c),
            None => reference_items(e.drop_last()),
        }
    }
}

fn check_references(e: &Vec<(String, Json)>, out: &mut Vec<CheckItem>)
    ensures
        items(final(out)@) == items(old(out)@) + reference_items(crate::json::entry_views(e@)),
{
    let ghost base = items(out@);
    let ghost w = crate::json::entry_views(e@);
    proof {
        crate::json::entry_views_by_index(e@);
        assert(w.take(0) =~= seq![]);
        assert(base + reference_items(w.take(0)) =~= base);
    }
    let mut i: usize = 0;
    while i < e.len()
        invariant
            i <= e@.len() == w.len(),
            forall|j: int| 0 <= j < e@.len() ==> #[trigger] w[j] == (e@[j].0@, e@[j].1@),
            items(out@) == base + reference_items(w.take(i as int)),
        decreases e@.len() - i,
    {
        proof {
            assert(w.take(i + 1).drop_last() =~= w.take(i as int));
            assert(w.take(i + 1).last() == w[i as int]);
        }
        let v = value_text(&e[i].1);
        let p = e[i].0.as_str();
        if begins(v.as_str(), "link:") || begins(v.as_str(), "file:") || begins(
            v.as_str(),
            "github:",
        ) {
            note(out, Level::Pass, cat5("deps[", p, "] 用 ", v.as_str(), " 语法（本地/远程引用）"));
        } else if !v.as_str().is_empty() && !same(v.as_str(), "*") {
            note(
                out,
                Level::Warn,
                cat5("deps[", p, "] 用 registry 版本 ", v.as_str(), " —— 跨设备需确认宿主已装同版本"),
            );
        }
        assert(items(out@) =~= base + reference_items(w.take(i + 1)));
        i += 1;
    }
    assert(w.take(i as int) =~= w);
}

/// The patch file that a `package.json` names, given what it holds.
pub open spec fn patch_in(pkg: JsonView) -> Option<Seq<char>> {
    pkg.at("dsh"@).at("bundle"@).text("patch"@)
}

/// The patch file that the text of a `package.json` names.
pub open spec fn patch_named(txt: Seq<char>) -> Option<Seq<char>> {
    match json_parsed(txt) {
        Ok(v) => patch_in(v),
        Err(_) => None,
    }
}

/// The patch file that a `package.json` names, given what it holds.
pub fn patch_of_value(pkg: &Json) -> (r: Option<String>)
    ensures
        match r {
            Some(p) => patch_in(pkg@) == Some(p@),
            None => patch_in(pkg@) is None,
        },
{
    pkg.at("dsh").at("bundle").text_at("patch")
}

/// The patch file that the text of a `package.json` names.
pub fn patch_of(txt: &str) -> (r: Option<String>)
    ensures
        match r {
            Some(p) => patch_named(txt@) == Some(p@),
            None => patch_named(txt@) is None,
        },
{
    match parse(txt) {
        Ok(v) => patch_of_value(&v),
        Err(_) => None,
    }
}

/// What is found of the dependencies and of the patch that a `package.json` names.
pub open spec fn bundle_items(pkg: JsonView, patch_exists: bool) -> Seq<(Level, Seq<char>)> {
    let deps = match pkg.at("dependencies"@) {
        JsonView::Obj(e) => reference_items(e),
        _ => seq![],
    };
    let patch = match patch_in(pkg) {
        Some(p) => if patch_exists {
            seq![(Level::Pass, "bundle.patch → "@ + p + " 存在"@)]
        } else {
            seq![(Level::Fail, "bundle.patch 引用的 "@ + p + " 不存在（配置不生效）"@)]
        },
        None => seq![],
    };
    deps + patch
}

/// Judges the dependencies and the patch that a `package.json` names.
pub fn check_bundle(pkg: &Json, patch_exists: bool, out: &mut Vec<CheckItem>)
    ensures
        items(final(out)@) == items(old(out)@) + bundle_items(pkg@, patch_exists),
{
    let ghost base = items(out@);
    let ghost deps = match pkg@.at("dependencies"@) {
        JsonView::Obj(e) => reference_items(e),
        _ => seq![],
    };
    if let Some(e) = pkg.entries_at("dependencies") {
        check_references(e, out);
    }
    assert(items(out@) =~= base + deps);
    if let Some(p) = patch_of_value(pkg) {
        if patch_exists {
            note(out, Level::Pass, cat3("bundle.patch → ", p.as_str(), " 存在"));
        } else {
            note(out, Level::Fail, cat3("bundle.patch 引用的 ", p.as_str(), " 不存在（配置不生效）"));
        }
    }
    assert(items(out@) =~= base + bundle_items(pkg@, patch_exists));
}

// ---------------------------------------------------------------- bundle order

/// The first position of `k` in `w`.
pub open spec fn position(w: Seq<Seq<char>>, k: Seq<char>) -> Option<nat>
    decreases w.len(),
{
    if w.len() == 0 {
        None
    } else if w[0] == k {
        Some(0)
    } else {
        match position(w.skip(1), k) {
            Some(n) => Some(n + 1),
            None => None,
        }
    }
}

/// The bundle that has to come first.
pub open spec fn needed_bundle() -> Seq<char> {
    "dsh-plugin-agent-bus"@
}

/// The bundle that depends on it.
pub open spec fn needing_bundle() -> Seq<char> {
    "dsh-plugin-central-inbox"@
}

/// What is found of the order of the bundles: one that another depends on has to
/// come before it.
pub open spec fn order_items(bundles: Seq<Seq<char>>) -> Seq<(Level, Seq<char>)> {
    if bundles.len() == 0 {
        seq![(Level::Warn, "profile 无 dsh.profile.bundles（跳过顺序检查）"@)]
    } else {
        match (position(bundles, needed_bundle()), position(bundles, needing_bundle())) {
            (Some(d), Some(u)) => if d < u {
                seq![
                    (
                        Level::Pass,
                        "bundles 顺序 OK: "@ + needed_bundle() + " (idx "@ + dec(d) + ") 先于 "@
                            + needing_bundle() + " (idx "@ + dec(u) + ")"@,
                    ),
                ]
            } else {
                seq![
                    (
                        Level::Fail,
                        "bundles 顺序错误: "@ + needed_bundle() + " (idx "@ + dec(d) + ") 在 "@
                            + needing_bundle() + " (idx "@ + dec(u)
                            + ") 之后——依赖插件必须先于依赖它的插件"@,
                    ),
                ]
            },
            (None, Some(_)) => seq![
                (
                    Level::Warn,
                    needed_bundle() + " 未在 bundles 中（"@ + needing_bundle()
                        + " 依赖它，可能加载失败）"@,
                ),
            ],
            _ => seq![],
        }
    }
}

/// The bundles that a profile lists, given what its `package.json` holds.
pub open spec fn profile_bundles(pkg: JsonView) -> Seq<Seq<char>> {
    pkg.at("dsh"@).at("profile"@).text_items("bundles"@)
}

/// What is found of the order of the bundles of a profile.
pub open spec fn profile_items(p: Profile) -> Seq<(Level, Seq<char>)> {
    match p.text {
        None => seq![(Level::Warn, "--profile 指定文件不可读: "@ + p.path@ + "（跳过顺序检查）"@)],
        Some(t) => match json_parsed(t@) {
            Ok(v) => order_items(profile_bundles(v)),
            Err(_) => seq![(Level::Warn, "profile package.json 解析失败（跳过顺序检查）"@)],
        },
    }
}

fn position_of(w: &Vec<String>, k: &str) -> (r: Option<usize>)
    ensures
        match r {
            Some(n) => position(texts(w@), k@) == Some(n as nat),
            None => position(texts(w@), k@) is None,
        },
{
    let mut i: usize = 0;
    let ghost t = texts(w@);
    assert(t.skip(0) =~= t);
    while i < w.len()
        invariant
            i <= w@.len(),
            t == texts(w@),
            position(t, k@) == match position(t.skip(i as int), k@) {
                Some(n) => Some(n + i as nat),
                None => None,
            },
        decreases w@.len() - i,
    {
        assert(t.skip(i as int)[0] == w@[i as int]@);
        if same(w[i].as_str(), k) {
            return Some(i);
        }
        assert(t.skip(i as int).skip(1) =~= t.skip(i + 1));
        i += 1;
    }
    None
}

/// Judges the order of some bundles.
pub fn check_order(bundles: &Vec<String>, out: &mut Vec<CheckItem>)
    ensures
        items(final(out)@) == items(old(out)@) + order_items(texts(bundles@)),
{
    let ghost base = items(out@);
    if bundles.len() == 0 {
        note(out, Level::Warn, "profile 无 dsh.profile.bundles（跳过顺序检查）".to_owned());
        assert(items(out@) =~= base + order_items(texts(bundles@)));
        return;
    }
    let dep = "dsh-plugin-agent-bus";
    let uses = "dsh-plugin-central-inbox";
    match (position_of(bundles, dep), position_of(bundles, uses)) {
        (Some(d), Some(u)) => {
            let dt = decimal(d as u64);
            let ut = decimal(u as u64);
            if d < u {
                let mut s = cat7("bundles 顺序 OK: ", dep, " (idx ", dt.as_str(), ") 先于 ", uses, " (idx ");
                s.append(ut.as_str());
                s.append(")");
                note(out, Level::Pass, s);
            } else {
                let mut s = cat7("bundles 顺序错误: ", dep, " (idx ", dt.as_str(), ") 在 ", uses, " (idx ");
                s.append(ut.as_str());
                s.append(") 之后——依赖插件必须先于依赖它的插件");
                note(out, Level::Fail, s);
            }
        },
        (None, Some(_)) => {
            note(out, Level::Warn, cat4(dep, " 未在 bundles 中（", uses, " 依赖它，可能加载失败）"));
        },
        _ => {},
    }
    assert(items(out@) =~= base + order_items(texts(bundles@)));
}

/// Judges the order of the bundles of a profile.
pub fn check_bundle_order(p: &Profile, out: &mut Vec<CheckItem>)
    ensures
        items(final(out)@) == items(old(out)@) + profile_items(*p),
{
    let ghost base = items(out@);
    match &p.text {
        None => {
            note(
                out,
                Level::Warn,
                cat3("--profile 指定文件不可读: ", p.path.as_str(), "（跳过顺序检查）"),
            );
        },
        Some(t) => match parse(t.as_str()) {
            Ok(v) => {
                let b = v.at("dsh").at("profile").text_items("bundles");
                check_order(&b, out);
            },
            Err(_) => {
                note(out, Level::Warn, "profile package.json 解析失败（跳过顺序检查）".to_owned());
            },
        },
    }
    assert(items(out@) =~= base + profile_items(*p));
}

// ---------------------------------------------------------------- syntax

/// What is found of the syntax of some source files.
pub open spec fn syntax_items(js: Seq<JsFile>) -> Seq<(Level, Seq<char>)>
    decreases js.len(),
{
    if js.len() == 0 {
        seq![]
    } else {
        let f = js.last();
        match f.syntax {
            Syntax::Skipped => syntax_items(js.drop_last()),
            Syntax::Good => syntax_items(js.drop_last()).push(
                (Level::Pass, "["@ + f.name@ + "] 语法 OK"@),
            ),
            Syntax::Bad(e) => syntax_items(js.drop_last()).push(
                (Level::Fail, "["@ + f.name@ + "] 语法错误: "@ + e@),
            ),
        }
    }
}

fn check_syntax(js: &Vec<JsFile>, out: &mut Vec<CheckItem>)
    ensures
        items(final(out)@) == items(old(out)@) + syntax_items(js@),
{
    let ghost base = items(out@);
    let mut i: usize = 0;
    assert(js@.take(0) =~= seq![]);
    assert(base + syntax_items(js@.take(0)) =~= base);
    while i < js.len()
        invariant
            i <= js@.len(),
            items(out@) == base + syntax_items(js@.take(i as int)),
        decreases js@.len() - i,
    {
        proof {
            assert(js@.take(i + 1).drop_last() =~= js@.take(i as int));
            assert(js@.take(i + 1).last() == js@[i as int]);
        }
        match &js[i].syntax {
            Syntax::Skipped => {},
            Syntax::Good => {
                note(out, Level::Pass, cat3("[", js[i].name.as_str(), "] 语法 OK"));
            },
            Syntax::Bad(e) => {
                note(
                    out,
                    Level::Fail,
                    cat4("[", js[i].name.as_str(), "] 语法错误: ", e.as_str()),
                );
            },
        }
        assert(items(out@) =~= base + syntax_items(js@.take(i + 1)));
        i += 1;
    }
    assert(js@.take(i as int) =~= js@);
}

/// The first line of what a program wrote to its error output.
pub open spec fn first_line(err: Seq<char>) -> Seq<char> {
    if lines(err).len() > 0 {
        lines(err)[0]
    } else {
        "?"@
    }
}

/// The first line of what a program wrote to its error output.
pub fn first_error_line(err: &str) -> (r: String)
    ensures
        r@ == first_line(err@),
{
    let ls = lines_of(err);
    assert(texts(ls@).len() == ls@.len());
    if ls.len() > 0 {
        assert(texts(ls@)[0] == ls@[0]@);
        ls[0].clone()
    } else {
        "?".to_owned()
    }
}

// ---------------------------------------------------------------- the whole check

/// What is found of the structure of the plugin.
pub open spec fn structure_items(d: Deployment) -> Seq<(Level, Seq<char>)> {
    let lib = if d.has_lib {
        seq![]
    } else {
        seq![(Level::Fail, "缺 lib/ 目录: "@ + d.dir@)]
    };
    let pkg = match d.pkg {
        FileState::Missing => seq![(Level::Fail, "缺 package.json: "@ + d.pkg_path@)],
        FileState::Unreadable(e) => seq![(Level::Fail, "读 package.json 失败: "@ + e@)],
        FileState::Text(t) => match json_parsed(t@) {
            Ok(v) => package_items(v, d.hosts@),
            Err(e) => seq![(Level::Fail, "package.json 解析失败: "@ + e)],
        },
    };
    lib + pkg
}

/// What is found of the bundle of the plugin.
pub open spec fn plugin_bundle_items(d: Deployment) -> Seq<(Level, Seq<char>)> {
    match d.pkg {
        FileState::Text(t) => match json_parsed(t@) {
            Ok(v) => bundle_items(v, d.patch_exists),
            Err(_) => seq![],
        },
        _ => seq![],
    }
}

/// The source files that count: none without a directory of them.
pub open spec fn sources(d: Deployment) -> Seq<JsFile> {
    if d.has_lib {
        d.js@
    } else {
        seq![]
    }
}

/// All that the check finds, in order: the structure and the dependencies, the
/// imports, the bundle, the order of the bundles, the syntax.
pub open spec fn deploy_items(d: Deployment) -> Seq<(Level, Seq<char>)> {
    structure_items(d) + all_scans(sources(d), d.hosts@) + plugin_bundle_items(d) + (
    match d.profile {
        Some(p) => profile_items(p),
        None => seq![],
    }) + syntax_items(sources(d))
}

/// Checks a plugin before it is deployed.
pub fn deploy_checks(d: &Deployment) -> (r: Vec<CheckItem>)
    ensures
        items(r@) == deploy_items(*d),
{
    let mut out: Vec<CheckItem> = Vec::new();
    assert(items(out@) =~= seq![]);
    if !d.has_lib {
        note(&mut out, Level::Fail, cat("缺 lib/ 目录: ", d.dir.as_str()));
    }
    let pkg: Option<Json> = match &d.pkg {
        FileState::Missing => {
            note(&mut out, Level::Fail, cat("缺 package.json: ", d.pkg_path.as_str()));
            None
        },
        FileState::Unreadable(e) => {
            note(&mut out, Level::Fail, cat("读 package.json 失败: ", e.as_str()));
            None
        },
        FileState::Text(t) => match parse(t.as_str()) {
            Ok(v) => {
                check_package(&v, &d.hosts, &mut out);
                Some(v)
            },
            Err(e) => {
                note(&mut out, Level::Fail, cat("package.json 解析失败: ", e.as_str()));
                None
            },
        },
    };
    assert(items(out@) =~= structure_items(*d));
    if d.has_lib {
        scan_all(&d.js, &d.hosts, &mut out);
    }
    assert(items(out@) =~= structure_items(*d) + all_scans(sources(*d), d.hosts@));
    if let Some(v) = &pkg {
        check_bundle(v, d.patch_exists, &mut out);
    }
    assert(items(out@) =~= structure_items(*d) + all_scans(sources(*d), d.hosts@)
        + plugin_bundle_items(*d));
    let ghost mid = items(out@);
    if let Some(p) = &d.profile {
        check_bundle_order(p, &mut out);
    }
    assert(items(out@) =~= mid + (match d.profile {
        Some(p) => profile_items(p),
        None => seq![],
    }));
    if d.has_lib {
        check_syntax(&d.js, &mut out);
    }
    assert(items(out@) =~= deploy_items(*d));
    out
}

/// Checks a plugin before it is deployed, and reports: the exit code is zero exactly
/// where nothing failed and nothing was warned of.
pub fn run(runtime: &str, json: bool, d: &Deployment) -> (r: Outcome)
    ensures
        texts(r.lines@) == deploy_report(d.dir@, runtime@, deploy_items(*d), json),
        r.code == if spotless(deploy_items(*d)) {
            0i32
        } else {
            1i32
        },
{
    let found = deploy_checks(d);
    Outcome { lines: deploy_lines(d.dir.as_str(), runtime, &found, json), code: deploy_code(&found) }
}

/// How the check is called.
pub open spec fn usage_lines() -> Seq<Seq<char>> {
    seq![
        "用法: dsh-tools deploy-check <插件目录> [--runtime <CLD runtime>] [--profile <profile/package.json>] [--json]"@,
        "  <插件目录>: 要审查的插件源码目录（含 lib/ 与 package.json）"@,
        "  --runtime: 宿主 CLD runtime 的 node_modules 父目录（默认自动探测）"@,
        "  --profile: 宿主 profile 的 package.json 路径（检查 bundles 顺序，可选）"@,
    ]
}

/// How the check is called, for a call without a directory.
pub fn usage() -> (r: Outcome)
    ensures
        texts(r.lines@) == usage_lines(),
        r.code == 1,
{
    let mut out: Vec<String> = Vec::new();
    say(
        &mut out,
        "用法: dsh-tools deploy-check <插件目录> [--runtime <CLD runtime>] [--profile <profile/package.json>] [--json]",
    );
    say(&mut out, "  <插件目录>: 要审查的插件源码目录（含 lib/ 与 package.json）");
    say(&mut out, "  --runtime: 宿主 CLD runtime 的 node_modules 父目录（默认自动探测）");
    say(&mut out, "  --profile: 宿主 profile 的 package.json 路径（检查 bundles 顺序，可选）");
    assert(texts(out@) =~= usage_lines());
    Outcome { lines: out, code: 1 }
}

// ---------------------------------------------------------------- what to look up

/// The keys of the object under `k`.
pub open spec fn keys_at(pkg: JsonView, k: Seq<char>) -> Seq<Seq<char>> {
    pkg.at(k).entries().map_values(|e: (Seq<char>, JsonView)| e.0)
}

/// The packages of the host that a `package.json` names.
pub open spec fn packages_in(pkg: JsonView) -> Seq<Seq<char>> {
    keys_at(pkg, "peerDependencies"@) + keys_at(pkg, "dependencies"@)
}

fn push_keys(pkg: &Json, k: &str, out: &mut Vec<String>)
    ensures
        texts(final(out)@) == texts(old(out)@) + keys_at(pkg@, k@),
{
    let ghost base = texts(out@);
    let ghost w = keys_at(pkg@, k@);
    match pkg.entries_at(k) {
        Some(e) => {
            proof {
                crate::json::entry_views_by_index(e@);
            }
            let mut i: usize = 0;
            assert(base + w.take(0) =~= base);
            while i < e.len()
                invariant
                    i <= e@.len() == w.len(),
                    forall|j: int| 0 <= j < e@.len() ==> #[trigger] w[j] == e@[j].0@,
                    texts(out@) == base + w.take(i as int),
                decreases e@.len() - i,
            {
                let ghost prev = out@;
                out.push(e[i].0.clone());
                assert(texts(out@) =~= texts(prev).push(w[i as int]));
                assert(base + w.take(i as int).push(w[i as int]) =~= base + w.take(i + 1));
                assert(texts(out@) =~= base + w.take(i + 1));
                i += 1;
            }
            assert(w.take(i as int) =~= w);
        },
        None => {
            assert(w =~= seq![]);
            assert(base + w =~= base);
        },
    }
}

/// The packages of the host that a `package.json` names, given what it holds.
pub fn packages_of_value(pkg: &Json) -> (r: Vec<String>)
    ensures
        texts(r@) == packages_in(pkg@),
{
    let mut out: Vec<String> = Vec::new();
    assert(texts(out@) =~= seq![]);
    push_keys(pkg, "peerDependencies", &mut out);
    push_keys(pkg, "dependencies", &mut out);
    assert(texts(out@) =~= packages_in(pkg@));
    out
}

/// The packages of the host that the text of a `package.json` names; none where
/// the text cannot be read.
pub fn packages_named(txt: &str) -> (r: Vec<String>)
    ensures
        texts(r@) == match json_parsed(txt@) {
            Ok(v) => packages_in(v),
            Err(_) => seq![],
        },
{
    match parse(txt) {
        Ok(v) => packages_of_value(&v),
        Err(_) => {
            let out: Vec<String> = Vec::new();
            assert(texts(out@) =~= seq![]);
            out
        },
    }
}

/// The packages of the host that a source imports.
pub fn packages_imported(txt: &str) -> (r: Vec<String>)
    ensures
        texts(r@) == modules(lines(txt@)).map_values(|g: (Seq<char>, Seq<Seq<char>>)| g.0),
{
    let g = imported_modules(txt);
    let ghost w = group_views(g@);
    let mut out: Vec<String> = Vec::new();
    let mut i: usize = 0;
    while i < g.len()
        invariant
            i <= g@.len(),
            w == group_views(g@),
            out@.len() == i,
            forall|j: int| 0 <= j < i ==> (#[trigger] out@[j])@ == w[j].0,
        decreases g@.len() - i,
    {
        out.push(g[i].key.clone());
        i += 1;
    }
    assert(texts(out@) =~= w.map_values(|g: (Seq<char>, Seq<Seq<char>>)| g.0));
    out
}

// ---------------------------------------------------------------- laws

/// A package that the host lacks, or that is too old, keeps the check from being
/// spotless.
pub proof fn missing_dependency_is_found(d: Deployment, pkg: JsonView, i: int)
    requires
        d.pkg matches FileState::Text(t) && json_parsed(t@) == Ok::<JsonView, Seq<char>>(pkg),
        pkg.at("peerDependencies"@) is Obj,
        0 <= i < pkg.at("peerDependencies"@).entries().len(),
        ({
            let e = pkg.at("peerDependencies"@).entries()[i];
            host_item(e.0, text_of(e.1), host_file(d.hosts@, e.0)).0 != Level::Pass
        }),
    ensures
        !spotless(deploy_items(d)),
{
    let e = pkg.at("peerDependencies"@).entries();
    let h = host_items(e, d.hosts@);
    host_items_by_index(e, d.hosts@);
    let s = structure_items(d);
    let lib: int = if d.has_lib {
        0
    } else {
        1
    };
    let p = package_items(pkg, d.hosts@);
    assert(p[1 + i] == h[i]);
    assert(s[lib + 1 + i] == h[i]);
    assert(deploy_items(d)[lib + 1 + i] == h[i]);
}

proof fn host_items_by_index(e: Seq<(Seq<char>, JsonView)>, hosts: Seq<HostPkg>)
    ensures
        host_items(e, hosts).len() == e.len(),
        forall|i: int|
            0 <= i < e.len() ==> #[trigger] host_items(e, hosts)[i] == host_item(
                e[i].0,
                text_of(e[i].1),
                host_file(hosts, e[i].0),
            ),
    decreases e.len(),
{
    if e.len() > 0 {
        host_items_by_index(e.drop_last(), hosts);
    }
}

/// Two bundles of a profile are in order exactly where nothing is found against them,
/// and an order in which the depending bundle comes first keeps the check from being
/// spotless.
pub proof fn wrong_order_is_found(d: Deployment, pkg: JsonView, a: nat, b: nat)
    requires
        d.profile matches Some(p) && p.text matches Some(t) && json_parsed(t@) == Ok::<
            JsonView,
            Seq<char>,
        >(pkg),
        position(profile_bundles(pkg), needed_bundle()) == Some(a),
        position(profile_bundles(pkg), needing_bundle()) == Some(b),
    ensures
        spotless(order_items(profile_bundles(pkg))) == (a < b),
        a >= b ==> !spotless(deploy_items(d)),
{
    let bundles = profile_bundles(pkg);
    assert(bundles.len() > 0);
    let o = order_items(bundles);
    assert(o.len() == 1);
    assert(o[0].0 == if a < b {
        Level::Pass
    } else {
        Level::Fail
    });
    let at = structure_items(d).len() + all_scans(sources(d), d.hosts@).len()
        + plugin_bundle_items(d).len();
    assert(deploy_items(d)[at as int] == o[0]);
}

proof fn either_holds(a: Seq<(Level, Seq<char>)>, b: Seq<(Level, Seq<char>)>, x: (Level, Seq<char>))
    ensures
        (a + b).contains(x) <==> a.contains(x) || b.contains(x),
{
    let s = a + b;
    if s.contains(x) {
        let k = choose|k: int| 0 <= k < s.len() && s[k] == x;
        if k < a.len() {
            assert(a[k] == x);
        } else {
            assert(b[k - a.len()] == x);
        }
    }
    if a.contains(x) {
        let k = choose|k: int| 0 <= k < a.len() && a[k] == x;
        assert(s[k] == x);
    }
    if b.contains(x) {
        let k = choose|k: int| 0 <= k < b.len() && b[k] == x;
        assert(s[a.len() + k] == x);
    }
}

proof fn bad_item_spoils(v: Seq<(Level, Seq<char>)>, x: (Level, Seq<char>))
    requires
        v.contains(x),
        x.0 != Level::Pass,
        x.0 != Level::Info,
    ensures
        !spotless(v),
{
    let k = choose|k: int| 0 <= k < v.len() && v[k] == x;
    assert(v[k].0 == x.0);
}

/// What each part of the check finds is among all that it finds.
proof fn part_is_found(d: Deployment, x: (Level, Seq<char>))
    ensures
        structure_items(d).contains(x) ==> deploy_items(d).contains(x),
        all_scans(sources(d), d.hosts@).contains(x) ==> deploy_items(d).contains(x),
        plugin_bundle_items(d).contains(x) ==> deploy_items(d).contains(x),
        d.profile matches Some(p) ==> profile_items(p).contains(x) ==> deploy_items(d).contains(x),
        syntax_items(sources(d)).contains(x) ==> deploy_items(d).contains(x),
{
    let a = structure_items(d);
    let b = all_scans(sources(d), d.hosts@);
    let c = plugin_bundle_items(d);
    let p = match d.profile {
        Some(p) => profile_items(p),
        None => seq![],
    };
    let y = syntax_items(sources(d));
    either_holds(a, b, x);
    either_holds(a + b, c, x);
    either_holds(a + b + c, p, x);
    either_holds(a + b + c + p, y, x);
}

proof fn named_host(hosts: Seq<HostPkg>, name: Seq<char>)
    ensures
        match host_named(hosts, name) {
            Some(h) => exists|j: int|
                0 <= j < hosts.len() && #[trigger] hosts[j] == h && h.name@ == name && (
                forall|k: int| 0 <= k < j ==> (#[trigger] hosts[k]).name@ != name),
            None => forall|k: int| 0 <= k < hosts.len() ==> (#[trigger] hosts[k]).name@ != name,
        },
    decreases hosts.len(),
{
    if hosts.len() > 0 {
        if hosts[0].name@ == name {
            assert(hosts[0] == host_named(hosts, name)->0);
        } else {
            let t = hosts.skip(1);
            named_host(t, name);
            match host_named(t, name) {
                Some(h) => {
                    let j = choose|j: int|
                        0 <= j < t.len() && #[trigger] t[j] == h && h.name@ == name && (forall|k: int|
                            0 <= k < j ==> (#[trigger] t[k]).name@ != name);
                    assert(hosts[j + 1] == h);
                    assert forall|k: int| 0 <= k < j + 1 implies (#[trigger] hosts[k]).name@
                        != name by {
                        if k > 0 {
                            assert(hosts[k] == t[k - 1]);
                        }
                    }
                },
                None => {
                    assert forall|k: int| 0 <= k < hosts.len() implies (#[trigger] hosts[k]).name@
                        != name by {
                        if k > 0 {
                            assert(hosts[k] == t[k - 1]);
                        }
                    }
                },
            }
        }
    }
}

proof fn host_at(hosts: Seq<HostPkg>, name: Seq<char>, j: int)
    requires
        0 <= j < hosts.len(),
        hosts[j].name@ == name,
        forall|k: int| 0 <= k < j ==> (#[trigger] hosts[k]).name@ != name,
    ensures
        host_named(hosts, name) == Some(hosts[j]),
{
    named_host(hosts, name);
    let h = host_named(hosts, name)->0;
    let i = choose|i: int|
        0 <= i < hosts.len() && #[trigger] hosts[i] == h && h.name@ == name && (forall|k: int|
            0 <= k < i ==> (#[trigger] hosts[k]).name@ != name);
    if i < j {
        assert(hosts[i].name@ != name);
    } else if j < i {
        assert(hosts[j].name@ != name);
    }
}

proof fn name_is_checked(
    fname: Seq<char>,
    m: Seq<char>,
    h: HostPkg,
    named: Seq<Seq<char>>,
    n: int,
)
    requires
        0 <= n < named.len(),
        named[n] != "default"@,
        !host_exports(h, named[n]),
    ensures
        drift_items(fname, m, h, named).contains(
            (
                Level::Fail,
                "["@ + fname + "] import { "@ + named[n] + " } from '"@ + m
                    + "' → API 漂移：宿主包未导出 "@ + named[n]
                    + "（cordis 4.x 已移除 definePlugin 等）"@,
            ),
        ),
    decreases named.len(),
{
    let x = (
        Level::Fail,
        "["@ + fname + "] import { "@ + named[n] + " } from '"@ + m
            + "' → API 漂移：宿主包未导出 "@ + named[n]
            + "（cordis 4.x 已移除 definePlugin 等）"@,
    );
    let all = drift_items(fname, m, h, named);
    let d = named.drop_last();
    let before_it = drift_items(fname, m, h, d);
    if n < d.len() {
        assert(d[n] == named[n]);
        name_is_checked(fname, m, h, d, n);
        let k = choose|k: int| 0 <= k < before_it.len() && before_it[k] == x;
        assert(all[k] == x);
    } else {
        assert(all[all.len() - 1] == x);
    }
}

proof fn module_is_scanned(
    fname: Seq<char>,
    g: Seq<(Seq<char>, Seq<Seq<char>>)>,
    hosts: Seq<HostPkg>,
    i: int,
    x: (Level, Seq<char>),
)
    requires
        0 <= i < g.len(),
        module_items(fname, g[i].0, g[i].1, hosts).contains(x),
    ensures
        scan_items(fname, g, hosts).contains(x),
    decreases g.len(),
{
    let d = g.drop_last();
    either_holds(
        scan_items(fname, d, hosts),
        module_items(fname, g.last().0, g.last().1, hosts),
        x,
    );
    if i < d.len() {
        assert(d[i] == g[i]);
        module_is_scanned(fname, d, hosts, i, x);
    }
}

proof fn file_is_scanned(js: Seq<JsFile>, hosts: Seq<HostPkg>, f: int, x: (Level, Seq<char>))
    requires
        0 <= f < js.len(),
        js[f].text matches Some(t) && scan_items(js[f].name@, modules(lines(t@)), hosts).contains(
            x,
        ),
    ensures
        all_scans(js, hosts).contains(x),
    decreases js.len(),
{
    let d = js.drop_last();
    let last = match js.last().text {
        Some(t) => scan_items(js.last().name@, modules(lines(t@)), hosts),
        None => seq![],
    };
    either_holds(all_scans(d, hosts), last, x);
    if f < d.len() {
        assert(d[f] == js[f]);
        file_is_scanned(d, hosts, f, x);
    }
}

/// A name that a source file imports, at whatever place of the list, and that the source of
/// the package of the host does not export, fails the check by a finding that names the
/// file, the package and the name.
pub proof fn drift_is_found(d: Deployment, f: int, g: int, n: int, j: int, source: Seq<char>)
    requires
        d.has_lib,
        0 <= f < d.js@.len(),
        d.js@[f].text is Some,
        ({
            let mods = modules(lines(d.js@[f].text->0@));
            &&& 0 <= g < mods.len()
            &&& 0 <= n < mods[g].1.len()
            &&& mods[g].1[n] != "default"@
            &&& 0 <= j < d.hosts@.len()
            &&& d.hosts@[j].name@ == mods[g].0
            &&& forall|k: int| 0 <= k < j ==> (#[trigger] d.hosts@[k]).name@ != mods[g].0
            &&& d.hosts@[j].file is Text
            &&& match d.hosts@[j].entry {
                Some(t) => t@ == source,
                None => d.hosts@[j].fallback matches Some(t) && t@ == source,
            }
            &&& !exports(source, mods[g].1[n])
        }),
    ensures
        ({
            let (m, names) = modules(lines(d.js@[f].text->0@))[g];
            deploy_items(d).contains(
                (
                    Level::Fail,
                    "["@ + d.js@[f].name@ + "] import { "@ + names[n] + " } from '"@ + m
                        + "' → API 漂移：宿主包未导出 "@ + names[n]
                        + "（cordis 4.x 已移除 definePlugin 等）"@,
                ),
            )
        }),
        !spotless(deploy_items(d)),
{
    let fname = d.js@[f].name@;
    let mods = modules(lines(d.js@[f].text->0@));
    let (m, names) = mods[g];
    let x = (
        Level::Fail,
        "["@ + fname + "] import { "@ + names[n] + " } from '"@ + m
            + "' → API 漂移：宿主包未导出 "@ + names[n]
            + "（cordis 4.x 已移除 definePlugin 等）"@,
    );
    host_at(d.hosts@, m, j);
    name_is_checked(fname, m, d.hosts@[j], names, n);
    module_is_scanned(fname, mods, d.hosts@, g, x);
    file_is_scanned(d.js@, d.hosts@, f, x);
    part_is_found(d, x);
    bad_item_spoils(deploy_items(d), x);
}

/// A module that a source file imports and that the host lacks fails the check by a finding
/// that names the file and the module.
pub proof fn unreachable_import_is_found(d: Deployment, f: int, g: int)
    requires
        d.has_lib,
        0 <= f < d.js@.len(),
        d.js@[f].text is Some,
        ({
            let mods = modules(lines(d.js@[f].text->0@));
            &&& 0 <= g < mods.len()
            &&& forall|k: int|
                0 <= k < d.hosts@.len() ==> (#[trigger] d.hosts@[k]).name@ != mods[g].0
                    || d.hosts@[k].file is Missing
        }),
    ensures
        deploy_items(d).contains(
            (
                Level::Fail,
                "["@ + d.js@[f].name@ + "] import '"@ + modules(lines(d.js@[f].text->0@))[g].0
                    + "' → 宿主无此包（解析链不可达）"@,
            ),
        ),
        !spotless(deploy_items(d)),
{
    let fname = d.js@[f].name@;
    let mods = modules(lines(d.js@[f].text->0@));
    let x = (
        Level::Fail,
        "["@ + fname + "] import '"@ + mods[g].0 + "' → 宿主无此包（解析链不可达）"@,
    );
    named_host(d.hosts@, mods[g].0);
    let all = module_items(fname, mods[g].0, mods[g].1, d.hosts@);
    assert(all[0] == x);
    module_is_scanned(fname, mods, d.hosts@, g, x);
    file_is_scanned(d.js@, d.hosts@, f, x);
    part_is_found(d, x);
    bad_item_spoils(deploy_items(d), x);
}

/// A dependency of either kind that the host lacks is a failure.
pub proof fn lacking_dependency_fails(d: Deployment, pkg: JsonView, key: Seq<char>, i: int)
    requires
        d.pkg matches FileState::Text(t) && json_parsed(t@) == Ok::<JsonView, Seq<char>>(pkg),
        key == "peerDependencies"@ || key == "dependencies"@,
        pkg.at(key) is Obj,
        0 <= i < pkg.at(key).entries().len(),
        forall|k: int|
            0 <= k < d.hosts@.len() ==> (#[trigger] d.hosts@[k]).name@ != pkg.at(
                key,
            ).entries()[i].0,
    ensures
        exists|m: Seq<char>| #[trigger] deploy_items(d).contains((Level::Fail, m)),
        !spotless(deploy_items(d)),
{
    let (name, v) = pkg.at(key).entries()[i];
    let e = pkg.at(key).entries();
    let h = host_items(e, d.hosts@);
    host_items_by_index(e, d.hosts@);
    named_host(d.hosts@, name);
    let x = host_item(name, text_of(v), host_file(d.hosts@, name));
    assert(h[i] == x);
    dependency_is_found(d, pkg, key, x);
    bad_item_spoils(deploy_items(d), x);
    assert(deploy_items(d).contains((Level::Fail, x.1)));
}

/// A dependency of either kind of which the host has a version that does not satisfy the
/// wanted one is warned of.
pub proof fn old_dependency_is_warned_of(
    d: Deployment,
    pkg: JsonView,
    key: Seq<char>,
    i: int,
    j: int,
    p: JsonView,
)
    requires
        d.pkg matches FileState::Text(t) && json_parsed(t@) == Ok::<JsonView, Seq<char>>(pkg),
        key == "peerDependencies"@ || key == "dependencies"@,
        pkg.at(key) is Obj,
        0 <= i < pkg.at(key).entries().len(),
        0 <= j < d.hosts@.len(),
        d.hosts@[j].name@ == pkg.at(key).entries()[i].0,
        forall|k: int| 0 <= k < j ==> (#[trigger] d.hosts@[k]).name@ != d.hosts@[j].name@,
        d.hosts@[j].file matches FileState::Text(t) && json_parsed(t@) == Ok::<JsonView, Seq<char>>(
            p,
        ),
        text_of(pkg.at(key).entries()[i].1).len() > 0,
        !satisfies(p.text_or("version"@, "?"@), text_of(pkg.at(key).entries()[i].1)),
    ensures
        exists|m: Seq<char>| #[trigger] deploy_items(d).contains((Level::Warn, m)),
        !spotless(deploy_items(d)),
{
    let (name, v) = pkg.at(key).entries()[i];
    let e = pkg.at(key).entries();
    let h = host_items(e, d.hosts@);
    host_items_by_index(e, d.hosts@);
    host_at(d.hosts@, name, j);
    let x = host_item(name, text_of(v), host_file(d.hosts@, name));
    assert(h[i] == x);
    dependency_is_found(d, pkg, key, x);
    bad_item_spoils(deploy_items(d), x);
    assert(deploy_items(d).contains((Level::Warn, x.1)));
}

proof fn dependency_is_found(d: Deployment, pkg: JsonView, key: Seq<char>, x: (Level, Seq<char>))
    requires
        d.pkg matches FileState::Text(t) && json_parsed(t@) == Ok::<JsonView, Seq<char>>(pkg),
        key == "peerDependencies"@ || key == "dependencies"@,
        pkg.at(key) is Obj,
        host_items(pkg.at(key).entries(), d.hosts@).contains(x),
    ensures
        deploy_items(d).contains(x),
{
    let name = (Level::Pass, "插件名: "@ + pkg.text_or("name"@, "?"@));
    let peers = match pkg.at("peerDependencies"@) {
        JsonView::Obj(e) => host_items(e, d.hosts@),
        _ => seq![],
    };
    let empty: Seq<(Level, Seq<char>)> = match pkg.at("dependencies"@) {
        JsonView::Obj(e) => if e.len() == 0 {
            seq![(Level::Pass, "dependencies 为空（全部走宿主 peer）"@)]
        } else {
            seq![]
        },
        _ => seq![],
    };
    let own: Seq<(Level, Seq<char>)> = match pkg.at("dependencies"@) {
        JsonView::Obj(e) => host_items(e, d.hosts@),
        _ => seq![],
    };
    let lib = if d.has_lib {
        seq![]
    } else {
        seq![(Level::Fail, "缺 lib/ 目录: "@ + d.dir@)]
    };
    assert(package_items(pkg, d.hosts@) =~= seq![name] + peers + (empty + own));
    either_holds(empty, own, x);
    either_holds(seq![name], peers, x);
    either_holds(seq![name] + peers, empty + own, x);
    either_holds(lib, package_items(pkg, d.hosts@), x);
    assert(structure_items(d) == lib + package_items(pkg, d.hosts@));
    part_is_found(d, x);
}

/// A source file with a syntax error, and a patch that is named but not there, fail the
/// check, and so does a plugin without its directory of sources or without `package.json`.
pub proof fn broken_files_are_found(d: Deployment, f: int)
    ensures
        d.has_lib && 0 <= f < d.js@.len() && d.js@[f].syntax is Bad ==> !spotless(deploy_items(d)),
        !d.has_lib ==> !spotless(deploy_items(d)),
        !(d.pkg is Text) ==> !spotless(deploy_items(d)),
        d.pkg matches FileState::Text(t) ==> (json_parsed(t@) matches Ok(v) ==> {
            v.at("dsh"@).at("bundle"@).text("patch"@) is Some && !d.patch_exists ==> !spotless(
                deploy_items(d),
            )
        }),
{
    let lib = if d.has_lib {
        seq![]
    } else {
        seq![(Level::Fail, "缺 lib/ 目录: "@ + d.dir@)]
    };
    let s = structure_items(d);
    if !d.has_lib {
        assert(s[0] == lib[0]);
        part_is_found(d, s[0]);
        assert(s.contains(s[0]));
        bad_item_spoils(deploy_items(d), s[0]);
    }
    if !(d.pkg is Text) {
        let x = s[s.len() - 1];
        assert(s.contains(x));
        part_is_found(d, x);
        bad_item_spoils(deploy_items(d), x);
    }
    if d.has_lib && 0 <= f < d.js@.len() && d.js@[f].syntax is Bad {
        bad_syntax_is_found(d.js@, f);
        let y = syntax_items(d.js@);
        let k = choose|k: int| 0 <= k < y.len() && (#[trigger] y[k]).0 == Level::Fail;
        assert(y.contains(y[k]));
        part_is_found(d, y[k]);
        bad_item_spoils(deploy_items(d), y[k]);
    }
    if let FileState::Text(t) = d.pkg {
        if let Ok(v) = json_parsed(t@) {
            if v.at("dsh"@).at("bundle"@).text("patch"@) is Some && !d.patch_exists {
                let b = plugin_bundle_items(d);
                let x = b[b.len() - 1];
                assert(b.contains(x));
                part_is_found(d, x);
                bad_item_spoils(deploy_items(d), x);
            }
        }
    }
}

proof fn bad_syntax_is_found(js: Seq<JsFile>, f: int)
    requires
        0 <= f < js.len(),
        js[f].syntax is Bad,
    ensures
        exists|k: int|
            0 <= k < syntax_items(js).len() && (#[trigger] syntax_items(js)[k]).0 == Level::Fail,
    decreases js.len(),
{
    let y = syntax_items(js);
    let d = js.drop_last();
    let z = syntax_items(d);
    if f < d.len() {
        assert(d[f] == js[f]);
        bad_syntax_is_found(d, f);
        let k = choose|k: int| 0 <= k < z.len() && (#[trigger] z[k]).0 == Level::Fail;
        assert(y[k] == z[k]);
    } else {
        assert(y[y.len() - 1].0 == Level::Fail);
    }
}

/// A module is among those found.
pub open spec fn finds_module(g: Seq<(Seq<char>, Seq<Seq<char>>)>, m: Seq<char>) -> bool {
    exists|i: int| 0 <= i < g.len() && (#[trigger] g[i]).0 == m
}

/// A name is among those that are imported from a module.
pub open spec fn finds_name(
    g: Seq<(Seq<char>, Seq<Seq<char>>)>,
    m: Seq<char>,
    n: Seq<char>,
) -> bool {
    exists|i: int| 0 <= i < g.len() && (#[trigger] g[i]).0 == m && g[i].1.contains(n)
}

proof fn both_hold(a: Seq<Seq<char>>, b: Seq<Seq<char>>, x: Seq<char>)
    ensures
        (a + b).contains(x) <==> a.contains(x) || b.contains(x),
{
    let s = a + b;
    if s.contains(x) {
        let k = choose|k: int| 0 <= k < s.len() && s[k] == x;
        if k < a.len() {
            assert(a[k] == x);
        } else {
            assert(b[k - a.len()] == x);
        }
    }
    if a.contains(x) {
        let k = choose|k: int| 0 <= k < a.len() && a[k] == x;
        assert(s[k] == x);
    }
    if b.contains(x) {
        let k = choose|k: int| 0 <= k < b.len() && b[k] == x;
        assert(s[a.len() + k] == x);
    }
}

proof fn grouped_finds(
    g: Seq<(Seq<char>, Seq<Seq<char>>)>,
    k: Seq<char>,
    add: Seq<Seq<char>>,
    m: Seq<char>,
    n: Seq<char>,
)
    ensures
        finds_module(grouped(g, k, add), m) <==> m == k || finds_module(g, m),
        finds_name(grouped(g, k, add), m, n) <==> (m == k && add.contains(n)) || finds_name(g, m, n),
    decreases g.len(),
{
    let r = grouped(g, k, add);
    if g.len() == 0 {
        assert(r[0] == (k, add));
    } else if g[0].0 == k {
        both_hold(g[0].1, add, n);
        assert(r[0] == (k, g[0].1 + add));
        assert(forall|i: int| 0 < i < g.len() ==> r[i] == g[i]);
        assert(r.len() == g.len());
        if finds_module(g, m) {
            let i = choose|i: int| 0 <= i < g.len() && (#[trigger] g[i]).0 == m;
            assert(r[i].0 == m);
        }
        if finds_name(g, m, n) {
            let i = choose|i: int| 0 <= i < g.len() && (#[trigger] g[i]).0 == m && g[i].1.contains(n);
            assert(r[i].0 == m && r[i].1.contains(n));
        }
    } else if text_lt(k, g[0].0) {
        assert(r[0] == (k, add));
        assert(forall|i: int| 0 <= i < g.len() ==> r[i + 1] == g[i]);
        assert(forall|i: int| 0 < i < r.len() ==> r[i] == g[i - 1]);
        if finds_module(g, m) {
            let i = choose|i: int| 0 <= i < g.len() && (#[trigger] g[i]).0 == m;
            assert(r[i + 1].0 == m);
        }
        if finds_name(g, m, n) {
            let i = choose|i: int| 0 <= i < g.len() && (#[trigger] g[i]).0 == m && g[i].1.contains(n);
            assert(r[i + 1].0 == m && r[i + 1].1.contains(n));
        }
    } else {
        let t = g.skip(1);
        let q = grouped(t, k, add);
        grouped_finds(t, k, add, m, n);
        finds_behind(g, m, n);
        finds_behind(r, m, n);
        assert(r.skip(1) =~= q);
        assert(r[0] == g[0]);
    }
}

proof fn finds_behind(g: Seq<(Seq<char>, Seq<Seq<char>>)>, m: Seq<char>, n: Seq<char>)
    requires
        g.len() > 0,
    ensures
        finds_module(g, m) <==> g[0].0 == m || finds_module(g.skip(1), m),
        finds_name(g, m, n) <==> (g[0].0 == m && g[0].1.contains(n)) || finds_name(
            g.skip(1),
            m,
            n,
        ),
{
    let t = g.skip(1);
    if finds_module(g, m) {
        let i = choose|i: int| 0 <= i < g.len() && (#[trigger] g[i]).0 == m;
        if i > 0 {
            assert(t[i - 1].0 == m);
        }
    }
    if finds_module(t, m) {
        let i = choose|i: int| 0 <= i < t.len() && (#[trigger] t[i]).0 == m;
        assert(g[i + 1].0 == m);
    }
    if finds_name(g, m, n) {
        let i = choose|i: int| 0 <= i < g.len() && (#[trigger] g[i]).0 == m && g[i].1.contains(n);
        if i > 0 {
            assert(t[i - 1].0 == m && t[i - 1].1.contains(n));
        }
    }
    if finds_name(t, m, n) {
        let i = choose|i: int| 0 <= i < t.len() && (#[trigger] t[i]).0 == m && t[i].1.contains(n);
        assert(g[i + 1].0 == m && g[i + 1].1.contains(n));
    }
}

/// One of the pieces names a module, up to the quote that ends it.
pub open spec fn piece_names(p: Seq<Seq<char>>, quote: Seq<char>, m: Seq<char>) -> bool {
    exists|i: int| 0 <= i < p.len() && before(#[trigger] p[i], quote) == m
}

proof fn required_finds(
    g: Seq<(Seq<char>, Seq<Seq<char>>)>,
    p: Seq<Seq<char>>,
    quote: Seq<char>,
    m: Seq<char>,
    n: Seq<char>,
)
    ensures
        finds_module(with_required(g, p, quote), m) <==> finds_module(g, m) || (foreign(m)
            && piece_names(p, quote, m)),
        finds_name(with_required(g, p, quote), m, n) <==> finds_name(g, m, n),
    decreases p.len(),
{
    if p.len() > 0 {
        let d = p.drop_last();
        let x = before(p.last(), quote);
        required_finds(g, d, quote, m, n);
        let a = with_required(g, d, quote);
        if foreign(x) {
            grouped_finds(a, x, seq![], m, n);
        }
        if piece_names(p, quote, m) {
            let i = choose|i: int| 0 <= i < p.len() && before(#[trigger] p[i], quote) == m;
            if i < d.len() {
                assert(before(d[i], quote) == m);
            }
        }
        if piece_names(d, quote, m) {
            let i = choose|i: int| 0 <= i < d.len() && before(#[trigger] d[i], quote) == m;
            assert(before(p[i], quote) == m);
        }
        if x == m {
            assert(before(p[p.len() - 1], quote) == m);
        }
    }
}

/// A statement imports a module, or requires it.
pub open spec fn statement_names(line: Seq<char>, m: Seq<char>) -> bool {
    let l = trim(line);
    ||| imported_module(l) == Some(m)
    ||| foreign(m) && piece_names(pieces_behind(l, "require('"@), "'"@, m)
    ||| foreign(m) && piece_names(pieces_behind(l, "require(\""@), "\""@, m)
}

/// The modules of some statements are those that one of them imports or requires, no more
/// and no less, and the names imported from a module are all those in the lists of the
/// statements that import it.
pub proof fn imports_are_gathered(ls: Seq<Seq<char>>, m: Seq<char>, n: Seq<char>)
    ensures
        finds_module(modules_in(ls), m) <==> exists|i: int|
            0 <= i < ls.len() && statement_names(#[trigger] ls[i], m),
        finds_name(modules_in(ls), m, n) <==> exists|i: int|
            0 <= i < ls.len() && imported_module(trim(#[trigger] ls[i])) == Some(m)
                && named_imports(trim(ls[i])).contains(n),
    decreases ls.len(),
{
    if ls.len() > 0 {
        let d = ls.drop_last();
        let last = ls.last();
        let l = trim(last);
        let g = modules_in(d);
        imports_are_gathered(d, m, n);
        let a = match imported_module(l) {
            Some(k) => grouped(g, k, named_imports(l)),
            None => g,
        };
        if let Some(k) = imported_module(l) {
            grouped_finds(g, k, named_imports(l), m, n);
        }
        let p = pieces_behind(l, "require('"@);
        let q = pieces_behind(l, "require(\""@);
        required_finds(a, p, "'"@, m, n);
        required_finds(with_required(a, p, "'"@), q, "\""@, m, n);
        assert(finds_module(modules_in(ls), m) <==> finds_module(g, m) || statement_names(last, m));
        if exists|i: int| 0 <= i < d.len() && statement_names(#[trigger] d[i], m) {
            let i = choose|i: int| 0 <= i < d.len() && statement_names(#[trigger] d[i], m);
            assert(statement_names(ls[i], m));
        }
        if statement_names(last, m) {
            assert(statement_names(ls[ls.len() - 1], m));
        }
        if exists|i: int| 0 <= i < ls.len() && statement_names(#[trigger] ls[i], m) {
            let i = choose|i: int| 0 <= i < ls.len() && statement_names(#[trigger] ls[i], m);
            if i < d.len() {
                assert(statement_names(d[i], m));
            }
        }
        if exists|i: int|
            0 <= i < d.len() && imported_module(trim(#[trigger] d[i])) == Some(m) && named_imports(
                trim(d[i]),
            ).contains(n) {
            let i = choose|i: int|
                0 <= i < d.len() && imported_module(trim(#[trigger] d[i])) == Some(m)
                    && named_imports(trim(d[i])).contains(n);
            assert(imported_module(trim(ls[i])) == Some(m));
        }
        if imported_module(l) == Some(m) && named_imports(l).contains(n) {
            assert(imported_module(trim(ls[ls.len() - 1])) == Some(m));
        }
        if exists|i: int|
            0 <= i < ls.len() && imported_module(trim(#[trigger] ls[i])) == Some(m)
                && named_imports(trim(ls[i])).contains(n) {
            let i = choose|i: int|
                0 <= i < ls.len() && imported_module(trim(#[trigger] ls[i])) == Some(m)
                    && named_imports(trim(ls[i])).contains(n);
            if i < d.len() {
                assert(imported_module(trim(d[i])) == Some(m));
            }
        }
    }
}

/// Every part of an import list gives its name, unless it is empty, and nothing else does.
pub proof fn every_part_gives_its_name(parts: Seq<Seq<char>>, n: Seq<char>)
    ensures
        import_names(parts).contains(n) <==> n.len() > 0 && exists|i: int|
            0 <= i < parts.len() && trim(before(trim(#[trigger] parts[i]), " as "@)) == n,
    decreases parts.len(),
{
    let r = import_names(parts);
    if parts.len() > 0 {
        let d = parts.drop_last();
        let q = import_names(d);
        every_part_gives_its_name(d, n);
        if q.contains(n) {
            let k = choose|k: int| 0 <= k < q.len() && q[k] == n;
            assert(r[k] == n);
            let i = choose|i: int|
                0 <= i < d.len() && trim(before(trim(#[trigger] d[i]), " as "@)) == n;
            assert(trim(before(trim(parts[i]), " as "@)) == n);
        }
        if r.contains(n) && !q.contains(n) {
            let k = choose|k: int| 0 <= k < r.len() && r[k] == n;
            if k < q.len() {
                assert(q[k] == n);
            }
            assert(trim(before(trim(parts[parts.len() - 1]), " as "@)) == n);
        }
        if n.len() > 0 && exists|i: int|
            0 <= i < parts.len() && trim(before(trim(#[trigger] parts[i]), " as "@)) == n {
            let i = choose|i: int|
                0 <= i < parts.len() && trim(before(trim(#[trigger] parts[i]), " as "@)) == n;
            if i < d.len() {
                assert(trim(before(trim(d[i]), " as "@)) == n);
            } else {
                assert(r[r.len() - 1] == n);
            }
        }
    }
}

/// A source exports what it declares so in any of the usual forms, wherever it does.
pub proof fn declared_names_are_exported(a: Seq<char>, name: Seq<char>, b: Seq<char>)
    ensures
        exports(a + ("export const "@ + name) + b, name),
        exports(a + ("export function "@ + name) + b, name),
        exports(a + ("export class "@ + name) + b, name),
        exports(a + ("export "@ + name + " ="@) + b, name),
        exports(a + ("exports."@ + name + " ="@) + b, name),
        exports(a + ("var "@ + name + " ="@) + b, name),
        exports(a + ("function "@ + name + "("@) + b, name),
        exports(a + ("const "@ + name + " ="@) + b, name),
{
    parts_are_seen(a, "export const "@ + name, b);
    parts_are_seen(a, "export function "@ + name, b);
    parts_are_seen(a, "export class "@ + name, b);
    parts_are_seen(a, "export "@ + name + " ="@, b);
    parts_are_seen(a, "exports."@ + name + " ="@, b);
    parts_are_seen(a, "var "@ + name + " ="@, b);
    parts_are_seen(a, "function "@ + name + "("@, b);
    parts_are_seen(a, "const "@ + name + " ="@, b);
}

/// A source exports every name of an export list, under the name that stands behind `as`
/// too.
pub proof fn listed_names_are_exported(
    a: Seq<char>,
    body: Seq<char>,
    tail: Seq<char>,
    i: int,
    name: Seq<char>,
)
    requires
        find(a + "export {"@ + (body + seq!['}'] + tail), "export {"@) == Some(a.len() as int),
        !body.contains('}'),
        0 <= i < split(body, ","@).len(),
        name.len() > 0,
        trim(split(body, ","@)[i]) == name || (split_once(trim(split(body, ","@)[i]), " as "@)
            matches Some((_, alias)) && trim(alias) == name),
    ensures
        exports(a + "export {"@ + (body + seq!['}'] + tail), name),
{
    reveal_strlit("export {");
    reveal_strlit("}");
    assert("}"@ =~= seq!['}']);
    let txt = a + "export {"@ + (body + seq!['}'] + tail);
    let n = a.len() as int;
    assert(txt.skip(n + 8) =~= body + seq!['}'] + tail);
    found_behind(body, '}', tail);
    let p = split(body, ","@)[i];
    assert(trim(p).len() > 0) by {
        if trim(p) != name {
            let q = trim(p);
            find_from_is_first(q, " as "@, 0);
            reveal_strlit(" as ");
        }
    }
    assert(part_exports(p, name));
    assert(list_exports(txt, name));
}

/// An import statement names the module between its quotes, where that is no part of the
/// project and none of Node, and it imports the names between its braces.
pub proof fn import_statements_are_read(body: Seq<char>, m: Seq<char>, rest: Seq<char>)
    requires
        !body.contains('}'),
        !body.contains('\''),
        !m.contains('\''),
        m.len() > 0,
        m[0] != '.',
        !starts(m, "node:"@),
    ensures
        ({
            let l = "import {"@ + (body + seq!['}'] + (" from '"@ + (m + seq!['\''] + rest)));
            &&& imported_module(l) == Some(m)
            &&& named_imports(l) == import_names(split(body, ","@))
        }),
{
    reveal_strlit("import {");
    reveal_strlit("import ");
    reveal_strlit("import '");
    reveal_strlit("import \"");
    reveal_strlit(" from '");
    reveal_strlit("from '");
    reveal_strlit("'");
    reveal_strlit("}");
    reveal_strlit(".");
    assert("}"@ =~= seq!['}']);
    assert("'"@ =~= seq!['\'']);
    let e = Seq::<char>::empty();
    let t = " from '"@ + (m + seq!['\''] + rest);
    let l = "import {"@ + (body + seq!['}'] + t);
    assert(l[7] == '{');
    assert(!starts(l, "import '"@)) by {
        if starts(l, "import '"@) {
            assert(l.subrange(0, 8)[7] == l[7]);
        }
    }
    assert(!starts(l, "import \""@)) by {
        if starts(l, "import \""@) {
            assert(l.subrange(0, 8)[7] == l[7]);
        }
    }
    assert(l.subrange(0, 7) =~= "import "@);
    assert(starts(l, "import "@));
    let p = "from '"@;
    let k = 8 + body.len() as int + 2;
    assert(l.subrange(k, k + 6) =~= p);
    assert(occurs_at(l, p, k));
    find_from_is_first(l, p, 0);
    let n = find(l, p)->0;
    if n < k {
        assert(l.subrange(n, n + 6)[5] == l[n + 5]);
        if n + 5 < 8 {
            assert(l[n + 5] == "import {"@[n + 5]);
        } else if n + 5 < 8 + body.len() {
            assert(l[n + 5] == body[n + 5 - 8]);
        } else if n + 5 == 8 + body.len() {
            assert(l[n + 5] == '}');
        } else {
            assert(l[n + 5] == " from '"@[n + 5 - 9 - body.len()]);
        }
        assert(false);
    }
    assert(l.skip(k + 6) =~= m + seq!['\''] + rest);
    assert(contains(l, p));
    crate::text::split_behind(m, '\'', rest);
    assert(!starts(m, "."@)) by {
        if starts(m, "."@) {
            assert(m.subrange(0, 1)[0] == m[0]);
        }
    }
    let q = "import {"@;
    assert(l.subrange(0, 8) =~= q);
    assert(occurs_at(l, q, 0));
    find_from_is_first(l, q, 0);
    assert(find(l, q) == Some(0int));
    assert(l.skip(8) =~= body + seq!['}'] + t);
    found_behind(body, '}', t);
}

/// The bundles have their places by the first of their names, from zero on.
pub proof fn first_place_counts(before: Seq<Seq<char>>, k: Seq<char>, behind: Seq<Seq<char>>)
    requires
        !before.contains(k),
    ensures
        position(before + seq![k] + behind, k) == Some(before.len()),
        position(before, k) is None,
    decreases before.len(),
{
    let w = before + seq![k] + behind;
    if before.len() == 0 {
        assert(w[0] == k);
    } else {
        assert(w[0] == before[0]);
        assert(before.contains(before[0]));
        assert(w.skip(1) =~= before.skip(1) + seq![k] + behind);
        assert(!before.skip(1).contains(k)) by {
            if before.skip(1).contains(k) {
                let i = choose|i: int| 0 <= i < before.len() - 1 && before.skip(1)[i] == k;
                assert(before[i + 1] == k);
            }
        }
        first_place_counts(before.skip(1), k, behind);
    }
}

/// The inbox has to come behind the bus it depends on: in a profile with both of them, each
/// once, the check fails exactly where it does not.
pub proof fn inbox_comes_behind_the_bus(
    a: Seq<Seq<char>>,
    b: Seq<Seq<char>>,
    c: Seq<Seq<char>>,
)
    requires
        !a.contains("dsh-plugin-agent-bus"@),
        !a.contains("dsh-plugin-central-inbox"@),
        !b.contains("dsh-plugin-agent-bus"@),
        !b.contains("dsh-plugin-central-inbox"@),
    ensures
        order_items(
            a + seq!["dsh-plugin-agent-bus"@] + (b + seq!["dsh-plugin-central-inbox"@] + c),
        )[0].0 == Level::Pass,
        order_items(
            a + seq!["dsh-plugin-central-inbox"@] + (b + seq!["dsh-plugin-agent-bus"@] + c),
        )[0].0 == Level::Fail,
{
    let (x, y) = ("dsh-plugin-agent-bus"@, "dsh-plugin-central-inbox"@);
    reveal_strlit("dsh-plugin-agent-bus");
    reveal_strlit("dsh-plugin-central-inbox");
    assert(x.len() == 20 && y.len() == 24);
    let p = a + seq![x] + (b + seq![y] + c);
    let q = a + seq![y] + (b + seq![x] + c);
    first_place_counts(a, x, b + seq![y] + c);
    first_place_counts(a, y, b + seq![x] + c);
    let ax = a + seq![x] + b;
    let ay = a + seq![y] + b;
    assert(p =~= ax + seq![y] + c);
    assert(q =~= ay + seq![x] + c);
    assert(!ax.contains(y)) by {
        if ax.contains(y) {
            let i = choose|i: int| 0 <= i < ax.len() && ax[i] == y;
            if i < a.len() {
                assert(a[i] == y);
            } else if i > a.len() {
                assert(b[i - a.len() - 1] == y);
            }
        }
    }
    assert(!ay.contains(x)) by {
        if ay.contains(x) {
            let i = choose|i: int| 0 <= i < ay.len() && ay[i] == x;
            if i < a.len() {
                assert(a[i] == x);
            } else if i > a.len() {
                assert(b[i - a.len() - 1] == x);
            }
        }
    }
    first_place_counts(ax, y, c);
    first_place_counts(ay, x, c);
}

/// A dependency that is named by a link, a file or a place on GitHub passes; one by a version
/// is warned of; one by a star is not spoken of.
pub proof fn references_are_judged(p: Seq<char>, v: Seq<char>)
    ensures
        reference_item(p, "link:"@ + v) matches Some(c) && c.0 == Level::Pass,
        reference_item(p, "file:"@ + v) matches Some(c) && c.0 == Level::Pass,
        reference_item(p, "github:"@ + v) matches Some(c) && c.0 == Level::Pass,
        v.len() > 0 && '0' <= v[0] <= '9' ==> (reference_item(p, v) matches Some(c) && c.0
            == Level::Warn),
        reference_item(p, "*"@) is None,
        reference_item(p, seq![]) is None,
{
    reveal_strlit("link:");
    reveal_strlit("file:");
    reveal_strlit("github:");
    reveal_strlit("*");
    parts_are_seen(seq![], "link:"@, v);
    parts_are_seen(seq![], "file:"@, v);
    parts_are_seen(seq![], "github:"@, v);
    if v.len() > 0 && '0' <= v[0] <= '9' {
        if starts(v, "link:"@) {
            assert(v.subrange(0, 5)[0] == v[0]);
        }
        if starts(v, "file:"@) {
            assert(v.subrange(0, 5)[0] == v[0]);
        }
        if starts(v, "github:"@) {
            assert(v.subrange(0, 7)[0] == v[0]);
        }
        assert("*"@[0] == '*');
    }
}

/// An import list that is opened on one line and closed on a later one is one statement, and
/// every other line is one of its own.
pub proof fn lists_go_over_lines(
    ls: Seq<Seq<char>>,
    open: Seq<char>,
    middle: Seq<char>,
    close: Seq<char>,
    other: Seq<char>,
)
    requires
        gathered(ls).1 is None,
        starts(trim(open), "import "@),
        contains(open, "{"@),
        !contains(open, "}"@),
        !contains(middle, "}"@),
        contains(close, "}"@),
        !opens_list(other),
    ensures
        statements(ls.push(open).push(close)) == statements(ls).push(open + " "@ + close),
        statements(ls.push(open).push(middle).push(close)) == statements(ls).push(
            open + " "@ + middle + " "@ + close,
        ),
        statements(ls.push(other)) == statements(ls).push(other),
{
    let a = ls.push(open);
    assert(a.drop_last() =~= ls);
    assert(a.push(close).drop_last() =~= a);
    assert(a.push(middle).drop_last() =~= a);
    assert(a.push(middle).push(close).drop_last() =~= a.push(middle));
    assert(ls.push(other).drop_last() =~= ls);
    assert(opens_list(open));
    assert(gathered(a) == (gathered(ls).0, Some(open)));
    assert(gathered(a.push(middle)) == (gathered(ls).0, Some(open + " "@ + middle)));
}

/// A module that begins with a dot is a part of the project, one that begins with `node:` is
/// one of Node, and neither is looked for in the host; any other is.
pub proof fn own_modules_are_not_foreign(m: Seq<char>)
    ensures
        !foreign("."@ + m),
        !foreign("node:"@ + m),
        !foreign(seq![]),
        m.len() > 0 && m[0] != '.' && m[0] != 'n' ==> foreign(m),
{
    reveal_strlit(".");
    reveal_strlit("node:");
    parts_are_seen(seq![], "."@, m);
    parts_are_seen(seq![], "node:"@, m);
    if starts(m, "."@) {
        assert(m.subrange(0, 1)[0] == m[0]);
    }
    if starts(m, "node:"@) {
        assert(m.subrange(0, 5)[0] == m[0]);
    }
}

/// The entry of a package is what it names as `main`, and `lib/index.js` where it names none.
pub proof fn entries_are_named(pkg: JsonView, main: Seq<char>)
    ensures
        pkg.at("main"@) == JsonView::Str(main) ==> entry_in(pkg) == main,
        pkg.at("main"@) is Null ==> entry_in(pkg) == "lib/index.js"@,
{
}

} // verus!
