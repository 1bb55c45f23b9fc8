//! The ledger of the tools: which version each repository stands at.
use vstd::prelude::*;
use crate::args::{last_value, names, options, plain_words, read_args};
use crate::json::{json_pretty, pretty, read_of_put, views, Json, JsonView};
use crate::num::{dec, decimal};
use crate::order::{
    arranged, by_text, by_text_ranks, order, order_by_text, order_is_sorted,
    order_keeps_positions, positions,
};
use crate::path::{file_name, name_of};
use crate::report::{say, Outcome};
use crate::text::{
    before, begins, cat, cat3, cat5, chars_of, head, maybe, split_behind, starts, string_of,
    text_lt, texts,
};

verus! {

// ---------------------------------------------------------------- repositories

/// The arguments of the ledger.
pub struct LedgerArgs {
    pub json: bool,
    pub repo: Option<String>,
}

/// Reads the arguments.
pub fn ledger_args(args: &[String]) -> (r: LedgerArgs)
    ensures
        maybe(r.repo) == last_value(options(texts(args@), seq!["--repo"@]), "--repo"@),
        r.json == plain_words(texts(args@), seq!["--repo"@]).contains("--json"@),
{
    let valued = ["--repo"];
    let a = read_args(args, &valued);
    assert(names(valued@) =~= seq!["--repo"@]);
    LedgerArgs { json: a.has("--json"), repo: a.value("--repo") }
}

/// Where the repositories may stand.
pub open spec fn repo_places(home: Seq<char>) -> Seq<Seq<char>> {
    seq![
        home + "/dsh-collab/rust-tools"@,
        home + "/dsh-collab/rust-bridge"@,
        home + "/dsh-collab/rust-blackboard"@,
        home + "/dsh-collab/rust-genebank"@,
        home + "/dsh-plugin-agent-bus"@,
        home + "/dsh-plugin-central-inbox"@,
        home + "/dsh-plugin-openchronicle"@,
    ]
}

/// Where the repositories may stand.
pub fn repo_candidates(home: &str) -> (r: Vec<String>)
    ensures
        texts(r@) == repo_places(home@),
{
    let mut v: Vec<String> = Vec::new();
    say(&mut v, cat(home, "/dsh-collab/rust-tools").as_str());
    say(&mut v, cat(home, "/dsh-collab/rust-bridge").as_str());
    say(&mut v, cat(home, "/dsh-collab/rust-blackboard").as_str());
    say(&mut v, cat(home, "/dsh-collab/rust-genebank").as_str());
    say(&mut v, cat(home, "/dsh-plugin-agent-bus").as_str());
    say(&mut v, cat(home, "/dsh-plugin-central-inbox").as_str());
    say(&mut v, cat(home, "/dsh-plugin-openchronicle").as_str());
    assert(texts(v@) =~= repo_places(home@));
    v
}

/// The places that are marked, in order; one without a mark counts as not marked.
pub open spec fn marked(places: Seq<Seq<char>>, marks: Seq<bool>) -> Seq<Seq<char>>
    decreases places.len(),
{
    if places.len() == 0 {
        seq![]
    } else {
        let i = places.len() - 1;
        let b = marked(places.drop_last(), marks);
        if i < marks.len() && marks[i] {
            b.push(places[i])
        } else {
            b
        }
    }
}

/// The repositories that stand where they may, given for each place whether one does.
pub fn known_repos(home: &str, present: &[bool]) -> (r: Vec<String>)
    ensures
        texts(r@) == marked(repo_places(home@), present@),
{
    let c = repo_candidates(home);
    let ghost t = texts(c@);
    let mut out: Vec<String> = Vec::new();
    let mut i: usize = 0;
    assert(t.take(0) =~= seq![]);
    assert(texts(out@) =~= seq![]);
    while i < c.len()
        invariant
            i <= c@.len(),
            t == texts(c@),
            texts(out@) == marked(t.take(i as int), present@),
        decreases c@.len() - i,
    {
        proof {
            assert(t.take(i + 1).drop_last() =~= t.take(i as int));
            assert(t.take(i + 1)[i as int] == c@[i as int]@);
        }
        if i < present.len() && present[i] {
            let ghost prev = texts(out@);
            out.push(c[i].clone());
            assert(texts(out@) =~= prev.push(c@[i as int]@));
        }
        i += 1;
    }
    assert(t.take(i as int) =~= t);
    out
}

/// The repository that an argument names: below the home directory where it is no
/// absolute path.
pub fn asked_repo(home: &str, repo: &str) -> (r: String)
    ensures
        r@ == if starts(repo@, "/"@) {
            repo@
        } else {
            home@ + "/"@ + repo@
        },
{
    if begins(repo, "/") {
        repo.to_owned()
    } else {
        cat3(home, "/", repo)
    }
}

// ---------------------------------------------------------------- entries

/// A repository in the ledger.
pub struct LedgerEntry {
    pub name: String,
    pub tag: String,
    pub commit: String,
    pub last: String,
}

/// A repository in the ledger, as texts.
#[verifier::ext_equal]
pub struct Standing {
    pub name: Seq<char>,
    pub tag: Seq<char>,
    pub commit: Seq<char>,
    pub last: Seq<char>,
}

impl LedgerEntry {
    /// The repository as texts.
    pub open spec fn model(&self) -> Standing {
        Standing { name: self.name@, tag: self.tag@, commit: self.commit@, last: self.last@ }
    }
}

/// Some repositories as texts.
pub open spec fn standings(v: Seq<LedgerEntry>) -> Seq<Standing> {
    v.map_values(|e: LedgerEntry| e.model())
}

/// A text, or `d`.
pub open spec fn text_else(o: Option<String>, d: Seq<char>) -> Seq<char> {
    match o {
        Some(s) => s@,
        None => d,
    }
}

fn or_else(o: &Option<String>, d: &str) -> (r: String)
    ensures
        r@ == text_else(*o, d@),
{
    match o {
        Some(s) => s.clone(),
        None => d.to_owned(),
    }
}

/// What is known of a repository, given what git printed of its tag, its commit and
/// its log.
pub fn scan_repo(
    dir: &str,
    tag: &Option<String>,
    commit: &Option<String>,
    last: &Option<String>,
) -> (r: LedgerEntry)
    ensures
        r.model() == (Standing {
            name: file_name(dir@),
            tag: text_else(*tag, "无tag"@),
            commit: text_else(*commit, "?"@),
            last: text_else(*last, seq![]),
        }),
{
    proof {
        reveal_strlit("");
        assert(""@ =~= seq![]);
    }
    LedgerEntry {
        name: name_of(dir),
        tag: or_else(tag, "无tag"),
        commit: or_else(commit, "?"),
        last: or_else(last, ""),
    }
}

/// The repositories in the order of their names.
pub open spec fn by_name(s: Seq<Standing>) -> Seq<Standing> {
    arranged(s, order(s.len(), by_text(s.map_values(|e: Standing| e.name), false)))
}

/// The ledger stands in the order of the names, and holds every repository as often as
/// it was scanned, and no other.
pub proof fn ledger_is_sorted(s: Seq<Standing>)
    ensures
        by_name(s).len() == s.len(),
        forall|i: int, j: int|
            0 <= i < j < s.len() ==> !text_lt(
                #[trigger] by_name(s)[j].name,
                #[trigger] by_name(s)[i].name,
            ),
        forall|e: Standing| by_name(s).contains(e) <==> s.contains(e),
{
    let keys = s.map_values(|e: Standing| e.name);
    let p = by_text(keys, false);
    let o = order(s.len(), p);
    order_keeps_positions(s.len(), p);
    by_text_ranks(keys, false);
    order_is_sorted(s.len(), p);
    assert forall|i: int, j: int| 0 <= i < j < s.len() implies !text_lt(
        #[trigger] by_name(s)[j].name,
        #[trigger] by_name(s)[i].name,
    ) by {
        assert(o.contains(o[i]) && o.contains(o[j]));
        assert(!p(o[j], o[i]));
    }
    assert forall|e: Standing| by_name(s).contains(e) <==> s.contains(e) by {
        if by_name(s).contains(e) {
            let i = choose|i: int| 0 <= i < by_name(s).len() && by_name(s)[i] == e;
            assert(o.contains(o[i]));
            assert(s[o[i]] == e);
        }
        if s.contains(e) {
            let k = choose|k: int| 0 <= k < s.len() && s[k] == e;
            assert(o.contains(k));
            let i = choose|i: int| 0 <= i < o.len() && o[i] == k;
            assert(by_name(s)[i] == e);
        }
    }
}

/// A repository as a value.
pub open spec fn standing_value(e: Standing) -> JsonView {
    JsonView::object().put("name"@, JsonView::Str(e.name)).put("tag"@, JsonView::Str(e.tag)).put(
        "commit"@,
        JsonView::Str(e.commit),
    ).put("last_commit"@, JsonView::Str(e.last)).put("git"@, JsonView::Bool(true))
}

/// The repositories in the order of their names.
pub fn sort_entries(v: &Vec<LedgerEntry>) -> (r: Vec<LedgerEntry>)
    ensures
        standings(r@) == by_name(standings(v@)),
{
    let ghost s = standings(v@);
    let mut keys: Vec<String> = Vec::new();
    let mut i: usize = 0;
    while i < v.len()
        invariant
            i <= v@.len(),
            s == standings(v@),
            keys@.len() == i,
            forall|j: int| 0 <= j < i ==> (#[trigger] keys@[j])@ == s[j].name,
        decreases v@.len() - i,
    {
        keys.push(v[i].name.clone());
        i += 1;
    }
    assert(texts(keys@) =~= s.map_values(|e: Standing| e.name));
    let o = order_by_text(&keys, false);
    let ghost w = by_name(s);
    let mut out: Vec<LedgerEntry> = Vec::new();
    let mut k: usize = 0;
    while k < o.len()
        invariant
            k <= o@.len() == w.len(),
            s == standings(v@),
            w == arranged(s, positions(o@)),
            forall|i: int| 0 <= i < o@.len() ==> (#[trigger] o@[i]) < v@.len(),
            out@.len() == k,
            forall|j: int| 0 <= j < k ==> (#[trigger] out@[j]).model() == w[j],
        decreases o@.len() - k,
    {
        let p: usize = o[k];
        assert(positions(o@)[k as int] == p);
        assert(w[k as int] == v@[p as int].model());
        let e = &v[p];
        out.push(
            LedgerEntry {
                name: e.name.clone(),
                tag: e.tag.clone(),
                commit: e.commit.clone(),
                last: e.last.clone(),
            },
        );
        k += 1;
    }
    assert(standings(out@) =~= w);
    out
}

// ---------------------------------------------------------------- the ledger

/// The ledger as a value.
pub open spec fn ledger_value(generated: Seq<char>, s: Seq<Standing>) -> JsonView {
    JsonView::object().put("generated"@, JsonView::Str(generated)).put(
        "repos"@,
        JsonView::Arr(by_name(s).map_values(|e: Standing| standing_value(e))),
    )
}

/// The ledger as a value.
pub fn ledger_json(generated: &str, v: &Vec<LedgerEntry>) -> (r: Json)
    ensures
        r@ == ledger_value(generated@, standings(v@)),
{
    let sorted = sort_entries(v);
    let ghost w = standings(sorted@);
    let mut out: Vec<Json> = Vec::new();
    let mut i: usize = 0;
    while i < sorted.len()
        invariant
            i <= sorted@.len(),
            w == standings(sorted@),
            out@.len() == i,
            forall|j: int| 0 <= j < i ==> (#[trigger] out@[j])@ == standing_value(w[j]),
        decreases sorted@.len() - i,
    {
        let e = &sorted[i];
        assert(w[i as int] == e.model());
        let x = Json::object().with("name", Json::text(e.name.as_str())).with(
            "tag",
            Json::text(e.tag.as_str()),
        ).with("commit", Json::text(e.commit.as_str())).with(
            "last_commit",
            Json::text(e.last.as_str()),
        ).with("git", Json::Bool(true));
        out.push(x);
        i += 1;
    }
    assert(views(out@) =~= w.map_values(|e: Standing| standing_value(e)));
    Json::object().with("generated", Json::text(generated)).with("repos", Json::array(out))
}

/// The text with spaces behind it, up to a width in characters.
pub open spec fn padded(s: Seq<char>, width: nat) -> Seq<char>
    decreases width - s.len(),
{
    if s.len() >= width {
        s
    } else {
        padded(s.push(' '), width)
    }
}

/// A text padded on its right keeps what it begins with, and is as long as the width
/// where it was shorter.
pub proof fn padding_keeps_text(s: Seq<char>, width: nat)
    ensures
        padded(s, width).len() == if s.len() >= width {
            s.len()
        } else {
            width
        },
        padded(s, width).take(s.len() as int) == s,
    decreases width - s.len(),
{
    if s.len() < width {
        padding_keeps_text(s.push(' '), width);
        assert(padded(s, width).take(s.len() as int) =~= padded(s, width).take(
            s.len() as int + 1,
        ).take(s.len() as int));
        assert(s.push(' ').take(s.len() as int) =~= s);
    } else {
        assert(s.take(s.len() as int) =~= s);
    }
}

fn pad(s: &str, width: usize) -> (r: String)
    ensures
        r@ == padded(s@, width as nat),
{
    let mut v = chars_of(s);
    while v.len() < width
        invariant
            padded(s@, width as nat) == padded(v@, width as nat),
        decreases width - v@.len(),
    {
        v.push(' ');
    }
    let n: usize = v.len();
    assert(v@.subrange(0, n as int) =~= v@);
    string_of(&v, 0, n)
}

/// A line of the table.
pub open spec fn table_line(a: Seq<char>, b: Seq<char>, c: Seq<char>) -> Seq<char> {
    "  "@ + padded(a, 28) + " "@ + padded(b, 12) + " "@ + c
}

fn line_of(a: &str, b: &str, c: &str) -> (r: String)
    ensures
        r@ == table_line(a@, b@, c@),
{
    let mut s = cat5("  ", pad(a, 28).as_str(), " ", pad(b, 12).as_str(), " ");
    s.append(c);
    s
}

/// What is printed of a repository: its name, its tag, and the day of its last commit.
pub open spec fn standing_line(e: Standing) -> Seq<char> {
    table_line(e.name, e.tag, before(e.last, " "@))
}

/// What is printed of the ledger.
pub open spec fn ledger_lines(generated: Seq<char>, s: Seq<Standing>) -> Seq<Seq<char>> {
    seq![
        "═══ dsh-tools ledger ═══"@,
        "  生成时间: "@ + generated,
        "  仓库数: "@ + dec(s.len()),
        ""@,
        table_line("仓库"@, "tag"@, "最近提交"@),
        "  ----------------------------------------------------------------------"@,
    ] + by_name(s).map_values(|e: Standing| standing_line(e)) + seq![
        ""@,
        "  💡 与 tools-registry.md 对比即可发现版本漂移（如 rust-blackboard 台账 v0.6.1 vs 实际 v0.6.2）"@,
        "  💡 完整 JSON: dsh-tools ledger --json"@,
    ]
}

/// What is printed of the ledger.
pub fn ledger_report(generated: &str, v: &Vec<LedgerEntry>) -> (l: Vec<String>)
    ensures
        texts(l@) == ledger_lines(generated@, standings(v@)),
{
    let sorted = sort_entries(v);
    let ghost w = standings(sorted@);
    let ghost want = w.map_values(|e: Standing| standing_line(e));
    let mut l: Vec<String> = Vec::new();
    say(&mut l, "═══ dsh-tools ledger ═══");
    say(&mut l, cat("  生成时间: ", generated).as_str());
    say(&mut l, cat("  仓库数: ", decimal(v.len() as u64).as_str()).as_str());
    say(&mut l, "");
    say(&mut l, line_of("仓库", "tag", "最近提交").as_str());
    say(&mut l, "  ----------------------------------------------------------------------");
    let ghost base = texts(l@);
    let mut i: usize = 0;
    assert(base + want.take(0) =~= base);
    while i < sorted.len()
        invariant
            i <= sorted@.len() == want.len(),
            w == standings(sorted@),
            want == w.map_values(|e: Standing| standing_line(e)),
            texts(l@) == base + want.take(i as int),
        decreases sorted@.len() - i,
    {
        let e = &sorted[i];
        assert(w[i as int] == e.model());
        let day = head(e.last.as_str(), " ");
        say(&mut l, line_of(e.name.as_str(), e.tag.as_str(), day.as_str()).as_str());
        assert(texts(l@) =~= base + want.take(i + 1));
        i += 1;
    }
    assert(want.take(i as int) =~= want);
    say(&mut l, "");
    say(
        &mut l,
        "  💡 与 tools-registry.md 对比即可发现版本漂移（如 rust-blackboard 台账 v0.6.1 vs 实际 v0.6.2）",
    );
    say(&mut l, "  💡 完整 JSON: dsh-tools ledger --json");
    assert(texts(l@) =~= ledger_lines(generated@, standings(v@)));
    l
}

/// What is printed of the ledger: a value, or lines.
pub fn run(generated: &str, v: &Vec<LedgerEntry>, json: bool) -> (r: Outcome)
    ensures
        r.code == 0,
        texts(r.lines@) == if json {
            seq![json_pretty(ledger_value(generated@, standings(v@)).canon())]
        } else {
            ledger_lines(generated@, standings(v@))
        },
{
    if json {
        let mut l: Vec<String> = Vec::new();
        say(&mut l, pretty(&ledger_json(generated, v)).as_str());
        assert(texts(l@) =~= seq![
            json_pretty(ledger_value(generated@, standings(v@)).canon()),
        ]);
        Outcome { lines: l, code: 0 }
    } else {
        Outcome { lines: ledger_report(generated, v), code: 0 }
    }
}

// ---------------------------------------------------------------- laws

/// A place is kept exactly where it is marked, in its order; one behind the marks is not.
pub proof fn marks_decide(places: Seq<Seq<char>>, marks: Seq<bool>, p: Seq<char>)
    ensures
        marked(places.push(p), marks) == if places.len() < marks.len() && marks[places.len() as int] {
            marked(places, marks).push(p)
        } else {
            marked(places, marks)
        },
        marked(seq![], marks).len() == 0,
{
    assert(places.push(p).drop_last() =~= places);
}

/// What is put behind a text to fill its width are spaces.
pub proof fn padding_is_blank(s: Seq<char>, width: nat, i: int)
    requires
        s.len() <= i < padded(s, width).len(),
    ensures
        padded(s, width)[i] == ' ',
    decreases width - s.len(),
{
    if s.len() < width {
        let t = s.push(' ');
        padding_keeps_text(t, width);
        if i == s.len() {
            assert(padded(t, width).take(t.len() as int)[i] == t[i]);
        } else {
            padding_is_blank(t, width, i);
        }
    }
}

/// The ledger as a value names every repository with its tag, its commit and its last
/// commit, in the order of the names.
pub proof fn ledger_is_told(generated: Seq<char>, s: Seq<Standing>)
    ensures
        ({
            let v = ledger_value(generated, s);
            &&& v.at("generated"@) == JsonView::Str(generated)
            &&& v.at("repos"@) matches JsonView::Arr(a) && a.len() == by_name(s).len() && forall|
                i: int,
            |
                0 <= i < a.len() ==> (#[trigger] a[i]).at("name"@) == JsonView::Str(
                    by_name(s)[i].name,
                ) && a[i].at("tag"@) == JsonView::Str(by_name(s)[i].tag) && a[i].at("commit"@)
                    == JsonView::Str(by_name(s)[i].commit) && a[i].at("last_commit"@)
                    == JsonView::Str(by_name(s)[i].last)
        }),
{
    broadcast use read_of_put;

    reveal_strlit("generated");
    reveal_strlit("repos");
    reveal_strlit("name");
    reveal_strlit("tag");
    reveal_strlit("commit");
    reveal_strlit("last_commit");
    reveal_strlit("git");
    assert("generated"@.len() == 9 && "repos"@.len() == 5 && "name"@.len() == 4 && "tag"@.len() == 3 && "commit"@.len() == 6 && "last_commit"@.len() == 11 && "git"@.len() == 3);
    assert("tag"@[0] != "git"@[0]);
}

/// Of the time of the last commit the table shows the day, what stands before the first
/// space.
pub proof fn days_are_shown(e: Standing, day: Seq<char>, rest: Seq<char>)
    requires
        !day.contains(' '),
        e.last == day + seq![' '] + rest,
    ensures
        standing_line(e) == table_line(e.name, e.tag, day),
{
    reveal_strlit(" ");
    assert(" "@ =~= seq![' ']);
    split_behind(day, ' ', rest);
}

} // verus!
