//! Handing a task to another node: the package, the card, the note and the record.
use vstd::prelude::*;
use crate::json::{read_of_put, Json, JsonView};
use crate::num::{dec, decimal};
use crate::text::{
    begins, cat, cat3, cat4, cat5, cat7, chars_of, first, not_found, replace, replaced,
    replaced_once, same, starts, string_of, texts, words, words_of,
};

verus! {

// ---------------------------------------------------------------- arguments

/// What is handed over.
pub struct Handoff {
    pub name: String,
    pub files: Vec<String>,
    pub to: String,
    pub kind: String,
    pub priority: String,
    pub desc: String,
}

/// What is handed over, as texts.
pub ghost struct HandoffView {
    pub name: Seq<char>,
    pub files: Seq<Seq<char>>,
    pub to: Seq<char>,
    pub kind: Seq<char>,
    pub priority: Seq<char>,
    pub desc: Seq<char>,
}

impl View for Handoff {
    type V = HandoffView;

    open spec fn view(&self) -> HandoffView {
        HandoffView {
            name: self.name@,
            files: texts(self.files@),
            to: self.to@,
            kind: self.kind@,
            priority: self.priority@,
            desc: self.desc@,
        }
    }
}

/// What is handed over where nothing is said.
pub open spec fn plain_handoff() -> HandoffView {
    HandoffView {
        name: seq![],
        files: seq![],
        to: "i9"@,
        kind: "general"@,
        priority: "P2"@,
        desc: seq![],
    }
}

/// How many arguments stand before the next option.
pub open spec fn run_len(args: Seq<Seq<char>>) -> nat
    decreases args.len(),
{
    if args.len() == 0 || starts(args[0], "--"@) {
        0
    } else {
        1 + run_len(args.skip(1))
    }
}

/// The words of some texts, one text after the other.
pub open spec fn all_words(s: Seq<Seq<char>>) -> Seq<Seq<char>>
    decreases s.len(),
{
    if s.len() == 0 {
        seq![]
    } else {
        all_words(s.drop_last()) + words(s.last())
    }
}

/// An option of one value, with its value.
pub open spec fn with_option(h: HandoffView, k: Seq<char>, v: Seq<char>) -> HandoffView {
    if k == "--name"@ {
        HandoffView { name: v, ..h }
    } else if k == "--to"@ {
        HandoffView { to: v, ..h }
    } else if k == "--type"@ {
        HandoffView { kind: v, ..h }
    } else if k == "--priority"@ {
        HandoffView { priority: v, ..h }
    } else {
        HandoffView { desc: v, ..h }
    }
}

/// An option that takes one value.
pub open spec fn single(k: Seq<char>) -> bool {
    k == "--name"@ || k == "--to"@ || k == "--type"@ || k == "--priority"@ || k == "--desc"@
}

/// What some arguments add: `--files` takes all that follows up to the next option,
/// each of them a list of files between spaces.
pub open spec fn filled_in(args: Seq<Seq<char>>, h: HandoffView) -> HandoffView
    decreases args.len(),
{
    if args.len() == 0 {
        h
    } else if args[0] == "--files"@ {
        let n = run_len(args.skip(1)) as int;
        if 0 <= n < args.len() {
            filled_in(
                args.skip(1 + n),
                HandoffView { files: h.files + all_words(args.subrange(1, 1 + n)), ..h },
            )
        } else {
            h
        }
    } else if single(args[0]) {
        if args.len() == 1 {
            h
        } else {
            filled_in(args.skip(2), with_option(h, args[0], args[1]))
        }
    } else {
        filled_in(args.skip(1), h)
    }
}

proof fn run_len_bound(args: Seq<Seq<char>>)
    ensures
        run_len(args) <= args.len(),
    decreases args.len(),
{
    if args.len() > 0 && !starts(args[0], "--"@) {
        run_len_bound(args.skip(1));
    }
}

fn take_files(args: &[String], from: usize, files: &mut Vec<String>) -> (r: usize)
    requires
        from <= args@.len(),
    ensures
        from <= r <= args@.len(),
        r - from == run_len(texts(args@).skip(from as int)),
        texts(final(files)@) == texts(old(files)@) + all_words(
            texts(args@).subrange(from as int, r as int),
        ),
{
    let ghost a = texts(args@);
    let ghost base = texts(files@);
    let mut i: usize = from;
    assert(a.subrange(from as int, from as int) =~= seq![]);
    assert(base + all_words(a.subrange(from as int, from as int)) =~= base);
    while i < args.len() && !begins(args[i].as_str(), "--")
        invariant
            from <= i <= args@.len(),
            a == texts(args@),
            run_len(a.skip(from as int)) == (i - from) + run_len(a.skip(i as int)),
            texts(files@) == base + all_words(a.subrange(from as int, i as int)),
        decreases args@.len() - i,
    {
        proof {
            assert(a.skip(i as int)[0] == args@[i as int]@);
            assert(a.skip(i as int).skip(1) =~= a.skip(i + 1));
            let s = a.subrange(from as int, i + 1);
            assert(s.drop_last() =~= a.subrange(from as int, i as int));
            assert(s.last() == args@[i as int]@);
        }
        let mut w = words_of(args[i].as_str());
        let ghost (x, y) = (files@, w@);
        files.append(&mut w);
        assert(texts(files@) =~= texts(x) + texts(y));
        assert(texts(files@) =~= base + all_words(a.subrange(from as int, i + 1)));
        i += 1;
    }
    proof {
        if i < args@.len() {
            assert(a.skip(i as int)[0] == args@[i as int]@);
        }
    }
    i
}

/// Reads the arguments.
pub fn handoff_args(args: &[String]) -> (r: Handoff)
    ensures
        r@ == filled_in(texts(args@), plain_handoff()),
{
    let mut h = Handoff {
        name: String::new(),
        files: Vec::new(),
        to: "i9".to_owned(),
        kind: "general".to_owned(),
        priority: "P2".to_owned(),
        desc: String::new(),
    };
    let ghost a = texts(args@);
    let n: usize = args.len();
    assert(texts(h.files@) =~= seq![]);
    assert(a.skip(0) =~= a);
    let mut i: usize = 0;
    while i < n
        invariant
            i <= n == args@.len(),
            a == texts(args@),
            filled_in(a, plain_handoff()) == filled_in(a.skip(i as int), h@),
        decreases n - i,
    {
        let ghost rest = a.skip(i as int);
        let k = args[i].as_str();
        assert(rest[0] == k@);
        if same(k, "--files") {
            proof {
                run_len_bound(rest.skip(1));
                assert(rest.skip(1) =~= a.skip(i + 1));
            }
            let ghost h0 = h@;
            let j: usize = take_files(args, i + 1, &mut h.files);
            proof {
                let m = j - i - 1;
                assert(rest.subrange(1, 1 + m) =~= a.subrange(i + 1, j as int));
                assert(rest.skip(1 + m) =~= a.skip(j as int));
                assert(h@ == (HandoffView {
                    files: h0.files + all_words(rest.subrange(1, 1 + m)),
                    ..h0
                }));
            }
            i = j;
        } else if same(k, "--name") || same(k, "--to") || same(k, "--type") || same(
            k,
            "--priority",
        ) || same(k, "--desc") {
            if n - i == 1 {
                return h;
            }
            assert(rest[1] == args@[i + 1]@);
            assert(rest.skip(2) =~= a.skip(i + 2));
            let v = args[i + 1].clone();
            if same(k, "--name") {
                h.name = v;
            } else if same(k, "--to") {
                h.to = v;
            } else if same(k, "--type") {
                h.kind = v;
            } else if same(k, "--priority") {
                h.priority = v;
            } else {
                h.desc = v;
            }
            i += 2;
        } else {
            assert(rest.skip(1) =~= a.skip(i + 1));
            i += 1;
        }
    }
    h
}

// ---------------------------------------------------------------- names

/// A character that a name may keep in a key.
pub open spec fn key_char(c: char) -> bool {
    'a' <= c <= 'z' || 'A' <= c <= 'Z' || '0' <= c <= '9' || c == '-' || c == '_'
}

/// The characters of a name that a key may hold.
pub open spec fn key_chars(s: Seq<char>) -> Seq<char>
    decreases s.len(),
{
    if s.len() == 0 {
        seq![]
    } else if key_char(s.last()) {
        key_chars(s.drop_last()).push(s.last())
    } else {
        key_chars(s.drop_last())
    }
}

/// The key of a task: the first twenty characters of its name that a key may hold.
pub open spec fn task_key(name: Seq<char>) -> Seq<char> {
    if key_chars(name).len() == 0 {
        "task"@
    } else {
        first(key_chars(name), 20)
    }
}

/// The key of a task.
pub fn handoff_key(name: &str) -> (r: String)
    ensures
        r@ == task_key(name@),
{
    let v = chars_of(name);
    let mut out: Vec<char> = Vec::new();
    let mut i: usize = 0;
    assert(v@.take(0) =~= seq![]);
    while i < v.len()
        invariant
            i <= v@.len(),
            out@ == key_chars(v@.take(i as int)),
        decreases v@.len() - i,
    {
        proof {
            assert(v@.take(i + 1).drop_last() =~= v@.take(i as int));
            assert(v@.take(i + 1).last() == v@[i as int]);
        }
        let c: char = v[i];
        if ('a' <= c && c <= 'z') || ('A' <= c && c <= 'Z') || ('0' <= c && c <= '9') || c == '-'
            || c == '_' {
            out.push(c);
        }
        i += 1;
    }
    assert(v@.take(i as int) =~= v@);
    if out.len() == 0 {
        return "task".to_owned();
    }
    let n: usize = if out.len() > 20 {
        20
    } else {
        out.len()
    };
    assert(out@.subrange(0, n as int) =~= first(out@, 20));
    string_of(&out, 0, n)
}

/// The name of the package.
pub open spec fn package_file(name: Seq<char>, ts: Seq<char>) -> Seq<char> {
    replace(name, " "@, "_"@) + "-"@ + ts + ".tar.gz"@
}

/// The name of the package.
pub fn package_name(name: &str, ts: &str) -> (r: String)
    ensures
        r@ == package_file(name@, ts@),
{
    cat4(replaced(name, " ", "_").as_str(), "-", ts, ".tar.gz")
}

/// Where the package can be fetched.
pub open spec fn package_link(name: Seq<char>, ts: Seq<char>) -> Seq<char> {
    "http://100.120.203.20:8801/shared/"@ + package_file(name, ts)
}

/// Where the package can be fetched.
pub fn package_url(name: &str, ts: &str) -> (r: String)
    ensures
        r@ == package_link(name@, ts@),
{
    cat("http://100.120.203.20:8801/shared/", package_name(name, ts).as_str())
}

// ---------------------------------------------------------------- what is put on the board

/// The lines of the task card.
pub open spec fn card_content(h: HandoffView, url: Seq<char>) -> Seq<Seq<char>> {
    seq![
        "【任务】"@ + h.desc,
        if url.len() == 0 {
            "【数据】无"@
        } else {
            "【数据】"@ + url
        },
        "【排期】"@ + h.priority + " 后台。"@,
        "【回报】完成后写黑板 notes/mac-mini/ + 结果放 genebank /shared/。"@,
    ]
}

/// The lines of the task card as a value.
pub open spec fn content_value(h: HandoffView, url: Seq<char>) -> JsonView {
    JsonView::Arr(card_content(h, url).map_values(|s: Seq<char>| JsonView::Str(s)))
}

/// The task card.
pub open spec fn card(h: HandoffView, ts: Seq<char>, now: Seq<char>, url: Seq<char>) -> JsonView {
    JsonView::object().put(
        "task_id"@,
        JsonView::Str("t-"@ + task_key(h.name) + "-"@ + ts),
    ).put("from"@, JsonView::Str("coordinator"@)).put("to"@, JsonView::Str(h.to)).put(
        "type"@,
        JsonView::Str(h.kind),
    ).put("priority"@, JsonView::Str(h.priority)).put(
        "subject"@,
        JsonView::Str(h.name + "（"@ + h.priority + "/"@ + h.kind + "）"@),
    ).put("content"@, content_value(h, url)).put("ts"@, JsonView::Str(now))
}

/// Where the task card goes.
pub open spec fn card_path(h: HandoffView, ts: Seq<char>) -> Seq<char> {
    "tasks/"@ + h.to + "/queue/"@ + ts + "-"@ + task_key(h.name)
}

/// The note to the node.
pub open spec fn notice(h: HandoffView, now: Seq<char>, url: Seq<char>) -> JsonView {
    JsonView::object().put("from"@, JsonView::Str("coordinator"@)).put(
        "to"@,
        JsonView::Str(h.to),
    ).put("ts"@, JsonView::Str(now)).put(
        "subject"@,
        JsonView::Str("📋 任务："@ + h.name + "（"@ + h.priority + "/"@ + h.kind + "）按你排期"@),
    ).put("content"@, content_value(h, url)).put("type"@, JsonView::Str("task"@))
}

/// Where the note goes.
pub open spec fn notice_path(h: HandoffView) -> Seq<char> {
    "notes/"@ + h.to + "/coordinator-task-"@ + task_key(h.name)
}

/// The record of the handover.
pub open spec fn record(h: HandoffView, ts: Seq<char>, now: Seq<char>, url: Seq<char>) -> JsonView {
    JsonView::object().put("from"@, JsonView::Str("coordinator"@)).put(
        "ts"@,
        JsonView::Str(now),
    ).put("name"@, JsonView::Str(h.name)).put("to"@, JsonView::Str(h.to)).put(
        "task_type"@,
        JsonView::Str(h.kind),
    ).put("priority"@, JsonView::Str(h.priority)).put("desc"@, JsonView::Str(h.desc)).put(
        "package_url"@,
        JsonView::Str(url),
    ).put("task_queue"@, JsonView::Str(card_path(h, ts))).put(
        "note_key"@,
        JsonView::Str(notice_path(h)),
    ).put("status"@, JsonView::Str("dispatched"@))
}

/// Where the record goes.
pub open spec fn record_path(h: HandoffView, ts: Seq<char>) -> Seq<char> {
    "data/handoffs/"@ + ts + "-"@ + task_key(h.name)
}

/// A value that is put on the board.
pub struct Posting {
    pub path: String,
    pub value: Json,
}

/// What is put on the board for a handover, in order: the card, the note and the
/// record.
pub struct Postings {
    pub card: Posting,
    pub notice: Posting,
    pub record: Posting,
}

fn content_of(h: &Handoff, url: &str) -> (r: Json)
    ensures
        r@ == content_value(h@, url@),
{
    let mut v: Vec<String> = Vec::new();
    v.push(cat("【任务】", h.desc.as_str()));
    if url.is_empty() {
        v.push("【数据】无".to_owned());
    } else {
        v.push(cat("【数据】", url));
    }
    v.push(cat3("【排期】", h.priority.as_str(), " 后台。"));
    v.push("【回报】完成后写黑板 notes/mac-mini/ + 结果放 genebank /shared/。".to_owned());
    assert(texts(v@) =~= card_content(h@, url@));
    assert(v@.map_values(|s: String| JsonView::Str(s@)) =~= card_content(h@, url@).map_values(
        |s: Seq<char>| JsonView::Str(s),
    ));
    Json::text_array(&v)
}

/// What is put on the board for a handover. The address of the package is empty
/// where there is none.
pub fn postings(h: &Handoff, ts: &str, now: &str, url: &str) -> (r: Postings)
    ensures
        r.card.path@ == card_path(h@, ts@),
        r.card.value@ == card(h@, ts@, now@, url@),
        r.notice.path@ == notice_path(h@),
        r.notice.value@ == notice(h@, now@, url@),
        r.record.path@ == record_path(h@, ts@),
        r.record.value@ == record(h@, ts@, now@, url@),
{
    let key = handoff_key(h.name.as_str());
    let (name, to) = (h.name.as_str(), h.to.as_str());
    let (kind, pri) = (h.kind.as_str(), h.priority.as_str());
    let mut q_path = cat5("tasks/", to, "/queue/", ts, "-");
    q_path.append(key.as_str());
    let n_path = cat4("notes/", to, "/coordinator-task-", key.as_str());
    let h_path = cat4("data/handoffs/", ts, "-", key.as_str());
    let id = cat4("t-", key.as_str(), "-", ts);
    let mut subject = cat5(name, "（", pri, "/", kind);
    subject.append("）");
    let card = Json::object().with("task_id", Json::text(id.as_str())).with(
        "from",
        Json::text("coordinator"),
    ).with("to", Json::text(to)).with("type", Json::text(kind)).with(
        "priority",
        Json::text(pri),
    ).with("subject", Json::text(subject.as_str())).with("content", content_of(h, url)).with(
        "ts",
        Json::text(now),
    );
    let mut about = cat5("📋 任务：", name, "（", pri, "/");
    about.append(kind);
    about.append("）按你排期");
    let notice = Json::object().with("from", Json::text("coordinator")).with(
        "to",
        Json::text(to),
    ).with("ts", Json::text(now)).with("subject", Json::text(about.as_str())).with(
        "content",
        content_of(h, url),
    ).with("type", Json::text("task"));
    let record = Json::object().with("from", Json::text("coordinator")).with(
        "ts",
        Json::text(now),
    ).with("name", Json::text(name)).with("to", Json::text(to)).with(
        "task_type",
        Json::text(kind),
    ).with("priority", Json::text(pri)).with("desc", Json::text(h.desc.as_str())).with(
        "package_url",
        Json::text(url),
    ).with("task_queue", Json::text(q_path.as_str())).with(
        "note_key",
        Json::text(n_path.as_str()),
    ).with("status", Json::text("dispatched"));
    Postings {
        card: Posting { path: q_path, value: card },
        notice: Posting { path: n_path, value: notice },
        record: Posting { path: h_path, value: record },
    }
}

// ---------------------------------------------------------------- printing

/// What is printed of putting something on the board: the code of the answer, or why
/// there is none.
pub open spec fn posting_line(
    step: Seq<char>,
    path: Seq<char>,
    answer: Result<u16, String>,
) -> Seq<char> {
    match answer {
        Ok(code) => "  "@ + step + ": /"@ + path + " -> "@ + dec(code as nat),
        Err(e) => "  "@ + step + "失败: "@ + e@,
    }
}

/// What is printed of putting something on the board.
pub fn posting_text(step: &str, path: &str, answer: &Result<u16, String>) -> (r: String)
    ensures
        r@ == posting_line(step@, path@, *answer),
{
    match answer {
        Ok(code) => {
            let mut s = cat5("  ", step, ": /", path, " -> ");
            s.append(decimal(*code as u64).as_str());
            s
        },
        Err(e) => cat4("  ", step, "失败: ", e.as_str()),
    }
}

/// The first line that is printed.
pub fn opening_line(h: &Handoff, now: &str) -> (r: String)
    ensures
        r@ == "[handoff] "@ + now@ + " 移交任务: "@ + h@.name + " → "@ + h@.to + " ("@ + h@.priority
            + "/"@ + h@.kind + ")"@,
{
    let mut s = cat7(
        "[handoff] ",
        now,
        " 移交任务: ",
        h.name.as_str(),
        " → ",
        h.to.as_str(),
        " (",
    );
    s.append(h.priority.as_str());
    s.append("/");
    s.append(h.kind.as_str());
    s.append(")");
    s
}

/// The last line that is printed.
pub fn closing_line(h: &Handoff, ts: &str) -> (r: String)
    ensures
        r@ == "[handoff] ✅ 完成: "@ + h@.name + " → "@ + h@.to + " (task_id: t-"@ + task_key(h@.name)
            + "-"@ + ts@ + ")"@,
{
    let key = handoff_key(h.name.as_str());
    let mut s = cat7(
        "[handoff] ✅ 完成: ",
        h.name.as_str(),
        " → ",
        h.to.as_str(),
        " (task_id: t-",
        key.as_str(),
        "-",
    );
    s.append(ts);
    s.append(")");
    s
}

// ---------------------------------------------------------------- laws

/// A key holds only letters, digits, hyphens and underscores, at most twenty of
/// them, and at least one.
pub proof fn keys_are_plain(name: Seq<char>)
    ensures
        1 <= task_key(name).len() <= 20,
        forall|i: int| 0 <= i < task_key(name).len() ==> key_char(#[trigger] task_key(name)[i]),
{
    reveal_strlit("task");
    kept_are_plain(name);
    let k = key_chars(name);
    if k.len() > 0 {
        assert forall|i: int| 0 <= i < task_key(name).len() implies key_char(
            #[trigger] task_key(name)[i],
        ) by {
            assert(task_key(name)[i] == k[i]);
        }
    }
}

proof fn kept_are_plain(s: Seq<char>)
    ensures
        forall|i: int| 0 <= i < key_chars(s).len() ==> key_char(#[trigger] key_chars(s)[i]),
    decreases s.len(),
{
    if s.len() > 0 {
        let d = key_chars(s.drop_last());
        kept_are_plain(s.drop_last());
        assert forall|i: int| 0 <= i < key_chars(s).len() implies key_char(
            #[trigger] key_chars(s)[i],
        ) by {
            if i < d.len() {
                assert(key_chars(s)[i] == d[i]);
            }
        }
    }
}

// ---------------------------------------------------------------- the command

/// What is printed where the task has no name; nothing where it has one.
pub fn handoff_refusal(h: &Handoff) -> (r: Option<String>)
    ensures
        match r {
            Some(m) => h@.name.len() == 0 && m@
                == "用法: dsh-tools handoff --name X --files 'a b c' --to i9 --type ocr --priority P2 --desc '...'"@,
            None => h@.name.len() > 0,
        },
{
    if h.name.as_str().is_empty() {
        Some(
            "用法: dsh-tools handoff --name X --files 'a b c' --to i9 --type ocr --priority P2 --desc '...'".to_owned(),
        )
    } else {
        None
    }
}

/// What came of packing the files: the address of the package, empty where there is
/// none, and what is printed.
pub open spec fn packed_as(
    h: HandoffView,
    ts: Seq<char>,
    path: Seq<char>,
    packed: bool,
) -> (Seq<char>, Seq<char>) {
    if h.files.len() == 0 {
        (seq![], "  ① 无文件打包"@)
    } else if packed {
        (
            package_link(h.name, ts),
            "  ① 打包: "@ + path + " (URL: "@ + package_link(h.name, ts) + ")"@,
        )
    } else {
        (seq![], "  ① 打包失败（文件不存在？）"@)
    }
}

/// What came of packing the files into `path`; `packed` tells whether it worked.
pub fn pack_report(h: &Handoff, ts: &str, path: &str, packed: bool) -> (r: (String, String))
    ensures
        (r.0@, r.1@) == packed_as(h@, ts@, path@, packed),
{
    assert(texts(h.files@).len() == h.files@.len());
    if h.files.len() == 0 {
        (String::new(), "  ① 无文件打包".to_owned())
    } else if packed {
        let url = package_url(h.name.as_str(), ts);
        let line = cat5("  ① 打包: ", path, " (URL: ", url.as_str(), ")");
        (url, line)
    } else {
        (String::new(), "  ① 打包失败（文件不存在？）".to_owned())
    }
}

// ---------------------------------------------------------------- laws

/// Each option takes the argument behind it for what it names, and leaves the rest as it
/// was.
pub proof fn options_fill_in(h: HandoffView, v: Seq<char>)
    ensures
        filled_in(seq!["--name"@, v], h) == (HandoffView { name: v, ..h }),
        filled_in(seq!["--to"@, v], h) == (HandoffView { to: v, ..h }),
        filled_in(seq!["--type"@, v], h) == (HandoffView { kind: v, ..h }),
        filled_in(seq!["--priority"@, v], h) == (HandoffView { priority: v, ..h }),
        filled_in(seq!["--desc"@, v], h) == (HandoffView { desc: v, ..h }),
        filled_in(seq![], h) == h,
{
    reveal_strlit("--name");
    reveal_strlit("--to");
    reveal_strlit("--type");
    reveal_strlit("--priority");
    reveal_strlit("--desc");
    reveal_strlit("--files");
    assert("--name"@.len() == 6 && "--to"@.len() == 4 && "--type"@.len() == 6 && "--priority"@.len()
        == 10 && "--desc"@.len() == 6 && "--files"@.len() == 7);
    assert("--name"@[2] == 'n' && "--type"@[2] == 't' && "--desc"@[2] == 'd');
    reveal_with_fuel(filled_in, 2);
    assert(seq!["--name"@, v].skip(2) =~= seq![]);
    assert(seq!["--to"@, v].skip(2) =~= seq![]);
    assert(seq!["--type"@, v].skip(2) =~= seq![]);
    assert(seq!["--priority"@, v].skip(2) =~= seq![]);
    assert(seq!["--desc"@, v].skip(2) =~= seq![]);
}

/// All that follows `--files` up to the next option are files, and one argument may name
/// several of them.
pub proof fn files_are_gathered(h: HandoffView, f: Seq<char>, g: Seq<char>)
    requires
        !starts(f, "--"@),
        !starts(g, "--"@),
    ensures
        filled_in(seq!["--files"@, f, g], h) == (HandoffView {
            files: h.files + words(f) + words(g),
            ..h
        }),
{
    let a = seq!["--files"@, f, g];
    let r = a.skip(1);
    assert(r =~= seq![f, g]);
    assert(r.skip(1) =~= seq![g]);
    assert(r.skip(1).skip(1) =~= seq![]);
    reveal_with_fuel(run_len, 3);
    assert(run_len(r) == 2);
    assert(a.skip(3) =~= seq![]);
    reveal_with_fuel(filled_in, 2);
    let s = a.subrange(1, 3);
    assert(s =~= seq![f, g]);
    assert(s.drop_last() =~= seq![f]);
    assert(s.drop_last().drop_last() =~= seq![]);
    reveal_with_fuel(all_words, 3);
    assert(all_words(s) =~= words(f) + words(g));
    assert(h.files + all_words(s) =~= h.files + words(f) + words(g));
}

/// A key keeps the letters, digits, hyphens and underscores of a name in their order and
/// drops the rest.
pub proof fn keys_keep_their_characters(s: Seq<char>, c: char)
    ensures
        key_chars(s.push(c)) == if 'a' <= c <= 'z' || 'A' <= c <= 'Z' || '0' <= c <= '9' || c == '-'
            || c == '_' {
            key_chars(s).push(c)
        } else {
            key_chars(s)
        },
        key_chars(seq![]).len() == 0,
{
    assert(s.push(c).drop_last() =~= s);
}

/// A space in the name of a package becomes an underscore; a name without one stays.
pub proof fn package_names_hold_no_space(a: Seq<char>, b: Seq<char>, ts: Seq<char>)
    requires
        !a.contains(' '),
        !b.contains(' '),
    ensures
        package_file(a + seq![' '] + b, ts) == a + "_"@ + b + "-"@ + ts + ".tar.gz"@,
        package_file(a, ts) == a + "-"@ + ts + ".tar.gz"@,
{
    reveal_strlit(" ");
    assert(" "@ =~= seq![' ']);
    replaced_once(a, ' ', b, "_"@);
    not_found(a, ' ');
}

/// A handover puts three things on the board for its receiver: the card in its queue, the
/// note to it and the record. All tell the name, the receiver and the package, and the
/// record where the other two stand.
pub proof fn handovers_are_told(h: HandoffView, ts: Seq<char>, now: Seq<char>, url: Seq<char>)
    ensures
        ({
            let c = card(h, ts, now, url);
            let n = notice(h, now, url);
            let r = record(h, ts, now, url);
            &&& c.at("to"@) == JsonView::Str(h.to)
            &&& c.at("type"@) == JsonView::Str(h.kind)
            &&& c.at("priority"@) == JsonView::Str(h.priority)
            &&& c.at("ts"@) == JsonView::Str(now)
            &&& n.at("to"@) == JsonView::Str(h.to)
            &&& n.at("ts"@) == JsonView::Str(now)
            &&& c.at("content"@) == n.at("content"@)
            &&& r.at("name"@) == JsonView::Str(h.name)
            &&& r.at("to"@) == JsonView::Str(h.to)
            &&& r.at("task_type"@) == JsonView::Str(h.kind)
            &&& r.at("priority"@) == JsonView::Str(h.priority)
            &&& r.at("desc"@) == JsonView::Str(h.desc)
            &&& r.at("package_url"@) == JsonView::Str(url)
            &&& r.at("task_queue"@) == JsonView::Str(card_path(h, ts))
            &&& r.at("note_key"@) == JsonView::Str(notice_path(h))
            &&& r.at("status"@) == JsonView::Str("dispatched"@)
            &&& r.at("ts"@) == JsonView::Str(now)
        }),
{
    broadcast use read_of_put;

    reveal_strlit("task_id");
    reveal_strlit("from");
    reveal_strlit("to");
    reveal_strlit("type");
    reveal_strlit("priority");
    reveal_strlit("subject");
    reveal_strlit("content");
    reveal_strlit("ts");
    reveal_strlit("name");
    reveal_strlit("task_type");
    reveal_strlit("desc");
    reveal_strlit("package_url");
    reveal_strlit("task_queue");
    reveal_strlit("note_key");
    reveal_strlit("status");
    assert("task_id"@.len() == 7 && "from"@.len() == 4 && "to"@.len() == 2 && "type"@.len() == 4 && "priority"@.len() == 8 && "subject"@.len() == 7 && "content"@.len() == 7 && "ts"@.len() == 2 && "name"@.len() == 4 && "task_type"@.len() == 9 && "desc"@.len() == 4 && "package_url"@.len() == 11 && "task_queue"@.len() == 10 && "note_key"@.len() == 8 && "status"@.len() == 6);
    assert("task_id"@[0] != "subject"@[0]);
    assert("task_id"@[0] != "content"@[0]);
    assert("from"@[0] != "type"@[0]);
    assert("from"@[0] != "name"@[0]);
    assert("from"@[0] != "desc"@[0]);
    assert("to"@[1] != "ts"@[1]);
    assert("type"@[0] != "name"@[0]);
    assert("type"@[0] != "desc"@[0]);
    assert("priority"@[0] != "note_key"@[0]);
    assert("subject"@[0] != "content"@[0]);
    assert("name"@[0] != "desc"@[0]);
}

/// Without files nothing is packed and there is no address; with files there is one exactly
/// where packing went well.
pub proof fn packing_gives_an_address(h: HandoffView, ts: Seq<char>, path: Seq<char>, packed: bool)
    ensures
        packed_as(h, ts, path, packed).0.len() > 0 <==> h.files.len() > 0 && packed,
        h.files.len() > 0 && packed ==> packed_as(h, ts, path, packed).0
            == "http://100.120.203.20:8801/shared/"@ + package_file(h.name, ts),
{
    reveal_strlit("http://100.120.203.20:8801/shared/");
}

/// A key is all that a name has for it, up to twenty characters, and `task` where it has
/// nothing.
pub proof fn keys_are_cut_at_twenty(name: Seq<char>)
    ensures
        0 < key_chars(name).len() <= 20 ==> task_key(name) == key_chars(name),
        key_chars(name).len() > 20 ==> task_key(name) == key_chars(name).take(20),
        key_chars(name).len() == 0 ==> task_key(name) == "task"@,
{
}

/// A task goes into the queue of its receiver, the note to its receiver, and the record to
/// the records, all under the key of its name.
pub proof fn handovers_go_to_the_receiver(h: HandoffView, ts: Seq<char>)
    ensures
        card_path(h, ts) == "tasks/"@ + h.to + "/queue/"@ + ts + "-"@ + task_key(h.name),
        notice_path(h) == "notes/"@ + h.to + "/coordinator-task-"@ + task_key(h.name),
        record_path(h, ts) == "data/handoffs/"@ + ts + "-"@ + task_key(h.name),
{
}

} // verus!
