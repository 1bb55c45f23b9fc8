//! The board: reading it, summing it up, and following it.
use vstd::prelude::*;
use crate::args::{last_value, names, options, plain_words, read_args, value_or};
use crate::json::{
    compact, json_parsed, json_text, parse, put_keeps_orderly, text_of, value_text, views, Json,
    JsonView,
};
use crate::num::{dec, dec_round_trip, read_uint, uint_of};
use crate::order::{
    arranged, at_most, by_text, by_text_ranks, order, order_by_text, order_is_sorted,
    order_is_stable, order_keeps_positions, positions,
};
use crate::text::{
    begins, cat, cat3, cat5, finishes, first, first_chars, join, joined, lines, lines_of, maybe,
    parts_are_seen, starts, text_lt, texts, trim, trimmed,
};

verus! {

// ---------------------------------------------------------------- texts of values

/// The texts of some values in a row; a value that is no text counts as empty.
pub open spec fn joined_texts(a: Seq<JsonView>) -> Seq<char> {
    join(a.map_values(|v: JsonView| text_of(v)), " "@)
}

/// The text that a value holds: itself, or its elements in a row, cut at 500
/// characters.
pub open spec fn text_held(v: JsonView) -> Option<Seq<char>> {
    match v {
        JsonView::Arr(a) => Some(first(joined_texts(a), 500)),
        JsonView::Str(s) => Some(first(s, 500)),
        _ => None,
    }
}

/// The text under a key.
pub open spec fn text_under(v: JsonView, k: Seq<char>) -> Option<Seq<char>> {
    match v.get(k) {
        Some(x) => text_held(x),
        None => None,
    }
}

/// The text to be summed up of a value: that of its content, its subject, its
/// summary or its note, whichever comes first; else the value as it is written.
pub open spec fn extracted(v: JsonView) -> Seq<char> {
    match v {
        JsonView::Null => seq![],
        JsonView::Str(_) => text_held(v)->0,
        JsonView::Arr(_) => text_held(v)->0,
        JsonView::Obj(_) => match text_under(v, "content"@) {
            Some(t) => t,
            None => match text_under(v, "subject"@) {
                Some(t) => t,
                None => match text_under(v, "summary"@) {
                    Some(t) => t,
                    None => match text_under(v, "note"@) {
                        Some(t) => t,
                        None => first(json_text(v.canon()), 500),
                    },
                },
            },
        },
        _ => first(json_text(v.canon()), 500),
    }
}

fn texts_joined(a: &Vec<Json>) -> (r: String)
    ensures
        r@ == joined_texts(views(a@)),
{
    let mut out: Vec<String> = Vec::new();
    let mut i: usize = 0;
    while i < a.len()
        invariant
            i <= a@.len(),
            out@.len() == i,
            forall|j: int| 0 <= j < i ==> (#[trigger] out@[j])@ == text_of(a@[j]@),
        decreases a@.len() - i,
    {
        out.push(value_text(&a[i]));
        i += 1;
    }
    assert(texts(out@) =~= views(a@).map_values(|v: JsonView| text_of(v)));
    joined(&out, " ")
}

fn held(v: &Json) -> (r: Option<String>)
    ensures
        maybe(r) == text_held(v@),
{
    match v {
        Json::Arr(a) => {
            assert(v@->Arr_0 =~= views(a@));
            Some(first_chars(texts_joined(a).as_str(), 500))
        },
        Json::Str(s) => Some(first_chars(s.as_str(), 500)),
        _ => None,
    }
}

fn held_under(v: &Json, k: &str) -> (r: Option<String>)
    ensures
        maybe(r) == text_under(v@, k@),
{
    match v.get(k) {
        Some(x) => held(x),
        None => None,
    }
}

/// The text to be summed up of a value.
pub fn extract_text(v: &Json) -> (r: String)
    ensures
        r@ == extracted(v@),
{
    match v {
        Json::Null => String::new(),
        Json::Obj(_) => {
            if let Some(t) = held_under(v, "content") {
                return t;
            }
            if let Some(t) = held_under(v, "subject") {
                return t;
            }
            if let Some(t) = held_under(v, "summary") {
                return t;
            }
            if let Some(t) = held_under(v, "note") {
                return t;
            }
            first_chars(compact(v).as_str(), 500)
        },
        _ => match held(v) {
            Some(t) => t,
            None => first_chars(compact(v).as_str(), 500),
        },
    }
}

// ---------------------------------------------------------------- summaries

/// What the model is asked.
pub open spec fn summary_prompt(text: Seq<char>) -> Seq<char> {
    "这是黑板消息内容："@ + first(text, 500) + "。请用一行中文摘要（≤30字），只输出摘要本身。"@
}

/// The request that asks the model for a summary.
pub open spec fn summary_request(text: Seq<char>) -> JsonView {
    JsonView::object().put("model"@, JsonView::Str("qwen2.5:3b"@)).put(
        "prompt"@,
        JsonView::Str(summary_prompt(text)),
    ).put("stream"@, JsonView::Bool(false))
}

/// The body of the request that asks the model for a summary.
pub fn summary_body(text: &str) -> (r: String)
    ensures
        r@ == json_text(summary_request(text@)),
{
    broadcast use put_keeps_orderly;

    let p = cat3(
        "这是黑板消息内容：",
        first_chars(text, 500).as_str(),
        "。请用一行中文摘要（≤30字），只输出摘要本身。",
    );
    let v = Json::object().with("model", Json::text("qwen2.5:3b")).with(
        "prompt",
        Json::text(p.as_str()),
    ).with("stream", Json::Bool(false));
    compact(&v)
}

/// The summary in the value that the model answered.
pub open spec fn summary_in(v: JsonView) -> Seq<char> {
    first(trim(v.text_or("response"@, seq![])), 60)
}

/// The summary that came of asking the model.
pub open spec fn summary_of(answer: Result<(u16, String), String>) -> Seq<char> {
    match answer {
        Err(e) => "[本地模型不可用: "@ + first(e@, 40) + "]"@,
        Ok((code, body)) => if code == 200 {
            match json_parsed(body@) {
                Ok(v) => summary_in(v),
                Err(_) => "[摘要失败]"@,
            }
        } else {
            "[摘要失败]"@
        },
    }
}

/// The summary in the value that the model answered.
pub fn summary_value(v: &Json) -> (r: String)
    ensures
        r@ == summary_in(v@),
{
    proof {
        reveal_strlit("");
        assert(""@ =~= seq![]);
    }
    first_chars(trimmed(v.text_or("response", "").as_str()).as_str(), 60)
}

/// The summary that came of asking the model.
pub fn summarize(answer: &Result<(u16, String), String>) -> (r: String)
    ensures
        r@ == summary_of(*answer),
{
    match answer {
        Err(e) => cat3("[本地模型不可用: ", first_chars(e.as_str(), 40).as_str(), "]"),
        Ok((code, body)) => {
            if *code == 200 {
                if let Ok(v) = parse(body.as_str()) {
                    return summary_value(&v);
                }
            }
            "[摘要失败]".to_owned()
        },
    }
}

// ---------------------------------------------------------------- arguments

/// The arguments for reading the board.
pub struct ReadArgs {
    pub key: Option<String>,
    pub prefix: Option<String>,
    pub last: usize,
    pub full: bool,
    pub scan: Option<String>,
    pub bb: String,
}

/// The options for reading the board that take a value.
pub open spec fn read_valued() -> Seq<Seq<char>> {
    seq!["--prefix"@, "--last"@, "--scan"@, "--bb"@, "--"@]
}

/// A key of the board.
pub open spec fn board_key(s: Seq<char>) -> bool {
    starts(s, "notes/"@) || starts(s, "data/"@) || starts(s, "tasks/"@)
}

/// The first key of the board among some words.
pub open spec fn first_key(w: Seq<Seq<char>>) -> Option<Seq<char>>
    decreases w.len(),
{
    if w.len() == 0 {
        None
    } else if board_key(w[0]) {
        Some(w[0])
    } else {
        first_key(w.skip(1))
    }
}

/// The number of entries to be shown.
pub open spec fn last_count(o: Seq<(Seq<char>, Seq<char>)>) -> nat {
    match last_value(o, "--last"@) {
        Some(s) => match uint_of(s, false, usize::MAX as nat) {
            Some(n) => n,
            None => 5,
        },
        None => 5,
    }
}

fn find_key(w: &Vec<String>) -> (r: Option<String>)
    ensures
        maybe(r) == first_key(texts(w@)),
{
    let ghost t = texts(w@);
    let mut i: usize = 0;
    assert(t.skip(0) =~= t);
    while i < w.len()
        invariant
            i <= w@.len(),
            t == texts(w@),
            first_key(t) == first_key(t.skip(i as int)),
        decreases w@.len() - i,
    {
        let s = w[i].as_str();
        assert(t.skip(i as int)[0] == w@[i as int]@);
        if begins(s, "notes/") || begins(s, "data/") || begins(s, "tasks/") {
            return Some(w[i].clone());
        }
        assert(t.skip(i as int).skip(1) =~= t.skip(i + 1));
        i += 1;
    }
    None
}

/// Reads the arguments: a key after `--` counts before a bare one.
pub fn bb_read_args(args: &[String]) -> (r: ReadArgs)
    ensures
        ({
            let o = options(texts(args@), read_valued());
            let w = plain_words(texts(args@), read_valued());
            &&& maybe(r.key) == match last_value(o, "--"@) {
                Some(k) => Some(k),
                None => first_key(w),
            }
            &&& maybe(r.prefix) == last_value(o, "--prefix"@)
            &&& r.last == last_count(o)
            &&& r.full == w.contains("--full"@)
            &&& maybe(r.scan) == last_value(o, "--scan"@)
            &&& r.bb@ == value_or(o, "--bb"@, "http://127.0.0.1:8792"@)
        }),
{
    let valued = ["--prefix", "--last", "--scan", "--bb", "--"];
    let a = read_args(args, &valued);
    assert(names(valued@) =~= read_valued());
    let key = match a.value("--") {
        Some(k) => Some(k),
        None => find_key(&a.words),
    };
    let last: usize = match a.value("--last") {
        Some(s) => match read_uint(s.as_str(), false, usize::MAX as u64) {
            Some(n) => n as usize,
            None => 5,
        },
        None => 5,
    };
    ReadArgs {
        key,
        prefix: a.value("--prefix"),
        last,
        full: a.has("--full"),
        scan: a.value("--scan"),
        bb: a.value_or("--bb", "http://127.0.0.1:8792"),
    }
}

// ---------------------------------------------------------------- entries

/// An entry of the board: its key, its time and its value.
pub struct BoardItem {
    pub key: String,
    pub ts: String,
    pub value: Json,
}

/// The entries by their keys, times and values.
pub open spec fn item_views(v: Seq<BoardItem>) -> Seq<(Seq<char>, Seq<char>, JsonView)> {
    v.map_values(|b: BoardItem| (b.key@, b.ts@, b.value@))
}

/// The entry that a value is.
pub open spec fn item_of(v: JsonView, no_key: Seq<char>) -> (Seq<char>, Seq<char>, JsonView) {
    (v.text_or("key"@, no_key), v.text_or("ts"@, seq![]), v.at("value"@))
}

fn read_item(v: &Json, no_key: &str) -> (r: BoardItem)
    ensures
        (r.key@, r.ts@, r.value@) == item_of(v@, no_key@),
{
    proof {
        reveal_strlit("");
        assert(""@ =~= seq![]);
    }
    BoardItem { key: v.text_or("key", no_key), ts: v.text_or("ts", ""), value: v.at("value") }
}

/// The lines that are not blank.
pub open spec fn nonblank(ls: Seq<Seq<char>>) -> Seq<Seq<char>>
    decreases ls.len(),
{
    if ls.len() == 0 {
        seq![]
    } else if trim(ls.last()).len() > 0 {
        nonblank(ls.drop_last()).push(ls.last())
    } else {
        nonblank(ls.drop_last())
    }
}

/// The last `n` of a sequence, or all of it.
pub open spec fn tail<A>(s: Seq<A>, n: nat) -> Seq<A> {
    if n < s.len() {
        s.skip(s.len() - n)
    } else {
        s
    }
}

/// The values that some lines hold; a line that holds none is passed over.
pub open spec fn values_in(ls: Seq<Seq<char>>) -> Seq<JsonView>
    decreases ls.len(),
{
    if ls.len() == 0 {
        seq![]
    } else {
        match json_parsed(ls.last()) {
            Ok(v) => values_in(ls.drop_last()).push(v),
            Err(_) => values_in(ls.drop_last()),
        }
    }
}

/// The entries that some values are.
pub open spec fn items_of(vs: Seq<JsonView>, no_key: Seq<char>) -> Seq<
    (Seq<char>, Seq<char>, JsonView),
> {
    vs.map_values(|v: JsonView| item_of(v, no_key))
}

/// The lines of a text that are not blank.
pub fn nonblank_lines(content: &str) -> (r: Vec<String>)
    ensures
        texts(r@) == nonblank(lines(content@)),
{
    let ls = lines_of(content);
    let ghost t = texts(ls@);
    let mut out: Vec<String> = Vec::new();
    let mut i: usize = 0;
    assert(t.take(0) =~= seq![]);
    assert(texts(out@) =~= seq![]);
    while i < ls.len()
        invariant
            i <= ls@.len(),
            t == texts(ls@),
            texts(out@) == nonblank(t.take(i as int)),
        decreases ls@.len() - i,
    {
        proof {
            assert(t.take(i + 1).drop_last() =~= t.take(i as int));
            assert(t.take(i + 1).last() == ls@[i as int]@);
        }
        if !trimmed(ls[i].as_str()).as_str().is_empty() {
            let ghost prev = out@;
            out.push(ls[i].clone());
            assert(texts(out@) =~= texts(prev).push(ls@[i as int]@));
        }
        i += 1;
    }
    assert(t.take(i as int) =~= t);
    out
}

/// The values that some lines hold, from one of them on.
pub fn read_values(ls: &Vec<String>, from: usize) -> (r: Vec<Json>)
    requires
        from <= ls@.len(),
    ensures
        views(r@) == values_in(texts(ls@).skip(from as int)),
        forall|i: int| 0 <= i < r@.len() ==> (#[trigger] r@[i])@.orderly(),
{
    let ghost t = texts(ls@).skip(from as int);
    let mut out: Vec<Json> = Vec::new();
    let mut i: usize = from;
    assert(t.take(0) =~= seq![]);
    assert(views(out@) =~= seq![]);
    while i < ls.len()
        invariant
            from <= i <= ls@.len(),
            t == texts(ls@).skip(from as int),
            views(out@) == values_in(t.take(i - from)),
            forall|j: int| 0 <= j < out@.len() ==> (#[trigger] out@[j])@.orderly(),
        decreases ls@.len() - i,
    {
        proof {
            assert(t.take(i - from + 1).drop_last() =~= t.take(i - from));
            assert(t.take(i - from + 1).last() == ls@[i as int]@);
        }
        if let Ok(v) = parse(ls[i].as_str()) {
            let ghost prev = views(out@);
            let ghost vv = v@;
            out.push(v);
            assert(views(out@) =~= prev.push(vv));
        }
        i += 1;
    }
    assert(t.take(i - from) =~= t);
    out
}

/// The entries that some values are; one without a key goes by `no_key`.
pub fn items_from(vs: &Vec<Json>, no_key: &str) -> (r: Vec<BoardItem>)
    ensures
        item_views(r@) == items_of(views(vs@), no_key@),
{
    let mut out: Vec<BoardItem> = Vec::new();
    let mut i: usize = 0;
    while i < vs.len()
        invariant
            i <= vs@.len(),
            out@.len() == i,
            forall|j: int|
                0 <= j < i ==> ((#[trigger] out@[j]).key@, out@[j].ts@, out@[j].value@) == item_of(
                    vs@[j]@,
                    no_key@,
                ),
        decreases vs@.len() - i,
    {
        out.push(read_item(&vs[i], no_key));
        i += 1;
    }
    assert(item_views(out@) =~= items_of(views(vs@), no_key@));
    out
}

/// The entries of the last lines of a file that are not blank.
pub fn scan_file(content: &str, last: usize) -> (r: Vec<BoardItem>)
    ensures
        item_views(r@) == items_of(
            values_in(tail(nonblank(lines(content@)), last as nat)),
            "inbox"@,
        ),
{
    let ls = nonblank_lines(content);
    let ghost t = texts(ls@);
    let from: usize = if last < ls.len() {
        ls.len() - last
    } else {
        0
    };
    assert(t.skip(from as int) =~= tail(t, last as nat));
    let vs = read_values(&ls, from);
    items_from(&vs, "inbox")
}

// ---------------------------------------------------------------- the inbox

/// A file of the inbox.
pub open spec fn inbox_name(n: Seq<char>) -> bool {
    crate::text::ends(n, ".jsonl"@)
}

/// Whether a file is one of the inbox.
pub fn is_inbox_file(n: &str) -> (r: bool)
    ensures
        r == inbox_name(n@),
{
    finishes(n, ".jsonl")
}

/// The entries whose key begins with `p`.
pub open spec fn with_prefix(
    s: Seq<(Seq<char>, Seq<char>, JsonView)>,
    p: Seq<char>,
) -> Seq<(Seq<char>, Seq<char>, JsonView)>
    decreases s.len(),
{
    if s.len() == 0 {
        seq![]
    } else if starts(s.last().0, p) {
        with_prefix(s.drop_last(), p).push(s.last())
    } else {
        with_prefix(s.drop_last(), p)
    }
}

/// The entries of the files of the inbox, one file after the other.
pub open spec fn inbox_entries(contents: Seq<Seq<char>>) -> Seq<(Seq<char>, Seq<char>, JsonView)>
    decreases contents.len(),
{
    if contents.len() == 0 {
        seq![]
    } else {
        inbox_entries(contents.drop_last()) + items_of(
            values_in(nonblank(lines(contents.last()))),
            seq![],
        )
    }
}

/// The entries, the latest first; of those of one time the earlier entry comes
/// first.
pub open spec fn newest_first(s: Seq<(Seq<char>, Seq<char>, JsonView)>) -> Seq<
    (Seq<char>, Seq<char>, JsonView),
> {
    let ts = s.map_values(|b: (Seq<char>, Seq<char>, JsonView)| b.1);
    arranged(s, order(s.len(), by_text(ts, true)))
}

/// The newest entries under a prefix.
pub open spec fn newest(
    s: Seq<(Seq<char>, Seq<char>, JsonView)>,
    p: Seq<char>,
    last: nat,
) -> Seq<(Seq<char>, Seq<char>, JsonView)> {
    at_most(newest_first(with_prefix(s, p)), last)
}

/// All entries of the files of the inbox.
pub fn read_inbox(contents: &Vec<String>) -> (r: Vec<BoardItem>)
    ensures
        item_views(r@) == inbox_entries(texts(contents@)),
{
    proof {
        reveal_strlit("");
        assert(""@ =~= seq![]);
    }
    let ghost t = texts(contents@);
    let mut out: Vec<BoardItem> = Vec::new();
    let mut i: usize = 0;
    assert(t.take(0) =~= seq![]);
    assert(item_views(out@) =~= seq![]);
    while i < contents.len()
        invariant
            i <= contents@.len(),
            t == texts(contents@),
            ""@ == Seq::<char>::empty(),
            item_views(out@) == inbox_entries(t.take(i as int)),
        decreases contents@.len() - i,
    {
        proof {
            assert(t.take(i + 1).drop_last() =~= t.take(i as int));
            assert(t.take(i + 1).last() == contents@[i as int]@);
        }
        let ls = nonblank_lines(contents[i].as_str());
        assert(texts(ls@).skip(0) =~= texts(ls@));
        let vs = read_values(&ls, 0);
        let mut more = items_from(&vs, "");
        let ghost (a, b) = (out@, more@);
        out.append(&mut more);
        assert(item_views(out@) =~= item_views(a) + item_views(b));
        i += 1;
    }
    assert(t.take(i as int) =~= t);
    out
}

fn copy_item(b: &BoardItem) -> (r: BoardItem)
    ensures
        r.key@ == b.key@,
        r.ts@ == b.ts@,
        r.value@ == b.value@,
{
    BoardItem { key: b.key.clone(), ts: b.ts.clone(), value: b.value.copy() }
}

/// The newest entries under a prefix.
pub fn newest_items(all: &Vec<BoardItem>, prefix: &str, last: usize) -> (r: Vec<BoardItem>)
    ensures
        item_views(r@) == newest(item_views(all@), prefix@, last as nat),
{
    let ghost w = item_views(all@);
    let mut f: Vec<BoardItem> = Vec::new();
    let mut ts: Vec<String> = Vec::new();
    let mut i: usize = 0;
    assert(w.take(0) =~= seq![]);
    assert(item_views(f@) =~= seq![]);
    while i < all.len()
        invariant
            i <= all@.len(),
            w == item_views(all@),
            item_views(f@) == with_prefix(w.take(i as int), prefix@),
            ts@.len() == f@.len(),
            forall|j: int| 0 <= j < f@.len() ==> (#[trigger] ts@[j])@ == f@[j].ts@,
        decreases all@.len() - i,
    {
        proof {
            assert(w.take(i + 1).drop_last() =~= w.take(i as int));
            assert(w.take(i + 1).last() == w[i as int]);
        }
        if begins(all[i].key.as_str(), prefix) {
            let ghost prev = item_views(f@);
            f.push(copy_item(&all[i]));
            ts.push(all[i].ts.clone());
            assert(item_views(f@) =~= prev.push(w[i as int]));
        }
        i += 1;
    }
    assert(w.take(i as int) =~= w);
    let ghost fw = item_views(f@);
    assert(texts(ts@) =~= fw.map_values(|b: (Seq<char>, Seq<char>, JsonView)| b.1));
    let o = order_by_text(&ts, true);
    let ghost full = arranged(fw, positions(o@));
    let n: usize = if last < o.len() {
        last
    } else {
        o.len()
    };
    let mut out: Vec<BoardItem> = Vec::new();
    let mut k: usize = 0;
    while k < n
        invariant
            k <= n <= o@.len() == full.len(),
            fw == item_views(f@),
            full == arranged(fw, positions(o@)),
            o@.len() == ts@.len() == f@.len(),
            forall|i: int| 0 <= i < o@.len() ==> (#[trigger] o@[i]) < ts@.len(),
            out@.len() == k,
            forall|j: int|
                0 <= j < k ==> ((#[trigger] out@[j]).key@, out@[j].ts@, out@[j].value@) == full[j],
        decreases n - k,
    {
        assert(positions(o@)[k as int] == o@[k as int]);
        out.push(copy_item(&f[o[k]]));
        k += 1;
    }
    assert(item_views(out@) =~= at_most(full, last as nat));
    out
}

// ---------------------------------------------------------------- showing

/// How the board is read.
#[derive(Clone, Copy, PartialEq, Eq, Structural, Debug)]
pub enum Mode {
    Scan,
    Prefix,
    Single,
}

/// What is shown of an entry.
pub enum Shown {
    Nothing,
    Lines(Vec<String>),
    /// A line that begins with `head` and goes on with the summary of `text`.
    Summary { head: String, text: String },
}

/// How the line of an entry begins.
pub open spec fn item_head(key: Seq<char>, ts: Seq<char>) -> Seq<char> {
    "· "@ + key + " ["@ + first(ts, 19) + "]: "@
}

/// An entry in full.
pub open spec fn full_lines(key: Seq<char>, ts: Seq<char>, v: JsonView) -> Seq<Seq<char>> {
    seq![
        "=== "@ + key + " ["@ + first(ts, 19) + "] ==="@,
        first(json_text(v.canon()), 800),
    ]
}

/// What is shown of an entry.
pub open spec fn shown_is(s: Shown, m: Mode, full: bool, key: Seq<char>, ts: Seq<char>, v: JsonView) -> bool {
    let text = extracted(v);
    if full && m == Mode::Single {
        s matches Shown::Lines(l) && texts(l@) == full_lines(key, ts, v)
    } else if text.len() == 0 {
        if m == Mode::Prefix {
            s is Nothing
        } else {
            s matches Shown::Lines(l) && texts(l@) == seq![item_head(key, ts) + "(空)"@]
        }
    } else if full && m == Mode::Prefix {
        s matches Shown::Lines(l) && texts(l@) == full_lines(key, ts, v).push(seq![])
    } else {
        s matches Shown::Summary { head, text: t } && head@ == item_head(key, ts) && t@ == text
    }
}

fn full_text(key: &str, ts: &str, v: &Json) -> (r: Vec<String>)
    ensures
        texts(r@) == full_lines(key@, ts@, v@),
{
    let mut l: Vec<String> = Vec::new();
    let t = first_chars(ts, 19);
    l.push(cat5("=== ", key, " [", t.as_str(), "] ==="));
    l.push(first_chars(compact(v).as_str(), 800));
    assert(texts(l@) =~= full_lines(key@, ts@, v@));
    l
}

/// Decides what is shown of an entry.
pub fn show_item(m: Mode, full: bool, b: &BoardItem) -> (r: Shown)
    ensures
        shown_is(r, m, full, b.key@, b.ts@, b.value@),
{
    let key = b.key.as_str();
    let ts = b.ts.as_str();
    if full && m == Mode::Single {
        return Shown::Lines(full_text(key, ts, &b.value));
    }
    let text = extract_text(&b.value);
    let t = first_chars(ts, 19);
    let head = cat5("· ", key, " [", t.as_str(), "]: ");
    if text.as_str().is_empty() {
        if m == Mode::Prefix {
            return Shown::Nothing;
        }
        let mut l: Vec<String> = Vec::new();
        l.push(cat(head.as_str(), "(空)"));
        assert(texts(l@) =~= seq![item_head(b.key@, b.ts@) + "(空)"@]);
        return Shown::Lines(l);
    }
    if full && m == Mode::Prefix {
        let mut l = full_text(key, ts, &b.value);
        let ghost prev = texts(l@);
        l.push(String::new());
        assert(texts(l@) =~= prev.push(seq![]));
        return Shown::Lines(l);
    }
    Shown::Summary { head, text }
}

/// The entry that the board gave for a key.
pub fn single_item(key: &str, d: &Json) -> (r: BoardItem)
    ensures
        (r.key@, r.ts@, r.value@) == (key@, d@.text_or("ts"@, seq![]), d@.at("value"@)),
{
    proof {
        reveal_strlit("");
        assert(""@ =~= seq![]);
    }
    BoardItem { key: key.to_owned(), ts: d.text_or("ts", ""), value: d.at("value") }
}

/// What is said where the inbox holds nothing under a prefix.
pub fn nothing_under(prefix: &str) -> (r: String)
    ensures
        r@ == "（本地订阅无 "@ + prefix@ + " 前缀事件——检查 bb-sub-daemon 是否运行）"@,
{
    cat3("（本地订阅无 ", prefix, " 前缀事件——检查 bb-sub-daemon 是否运行）")
}

// ---------------------------------------------------------------- the command

/// What is read.
pub enum ReadPlan {
    /// The last lines of a file.
    Scan { file: String },
    /// The newest entries of the inbox under a prefix.
    Prefix { prefix: String },
    /// One entry of the board.
    Single { key: String },
    /// Nothing; what is printed instead.
    Usage { line: String },
}

/// Decides what is read: a file before a prefix, and a prefix before a key.
pub fn read_plan(a: &ReadArgs) -> (r: ReadPlan)
    ensures
        match r {
            ReadPlan::Scan { file } => maybe(a.scan) == Some(file@),
            ReadPlan::Prefix { prefix } => a.scan is None && maybe(a.prefix) == Some(prefix@),
            ReadPlan::Single { key } => a.scan is None && a.prefix is None && maybe(a.key) == Some(
                key@,
            ),
            ReadPlan::Usage { line } => a.scan is None && a.prefix is None && a.key is None && line@
                == "用法: dsh-tools bb-read <key> [--full] | --prefix P --last N | --scan FILE"@,
        },
{
    if let Some(f) = &a.scan {
        return ReadPlan::Scan { file: f.clone() };
    }
    if let Some(p) = &a.prefix {
        return ReadPlan::Prefix { prefix: p.clone() };
    }
    if let Some(k) = &a.key {
        return ReadPlan::Single { key: k.clone() };
    }
    ReadPlan::Usage {
        line: "用法: dsh-tools bb-read <key> [--full] | --prefix P --last N | --scan FILE".to_owned(),
    }
}

/// The newest entries of the files of the inbox under a prefix, or what is printed where
/// there are none.
pub fn prefix_items(contents: &Vec<String>, prefix: &str, last: usize) -> (r: Result<
    Vec<BoardItem>,
    String,
>)
    ensures
        ({
            let n = newest(inbox_entries(texts(contents@)), prefix@, last as nat);
            match r {
                Ok(v) => n.len() > 0 && item_views(v@) == n,
                Err(m) => n.len() == 0 && m@ == "（本地订阅无 "@ + prefix@
                    + " 前缀事件——检查 bb-sub-daemon 是否运行）"@,
            }
        }),
{
    let v = newest_items(&read_inbox(contents), prefix, last);
    assert(item_views(v@).len() == v@.len());
    if v.len() == 0 {
        Err(nothing_under(prefix))
    } else {
        Ok(v)
    }
}

/// The entry that the board answered with, or what is printed where it did not.
pub fn single_entry(key: &str, answer: &Result<Json, String>) -> (r: Result<BoardItem, String>)
    ensures
        match answer {
            Ok(d) => r matches Ok(b) && b.key@ == key@ && b.ts@ == d@.text_or("ts"@, seq![])
                && b.value@ == d@.at("value"@),
            Err(e) => r matches Err(m) && m@ == "黑板错误: "@ + e@,
        },
{
    match answer {
        Ok(d) => Ok(single_item(key, d)),
        Err(e) => Err(cat("黑板错误: ", e.as_str())),
    }
}

// ---------------------------------------------------------------- laws

/// What is taken of a value is what stands under `content`, where that is a text; else under
/// `subject`, then `summary`, then `note`; never more than 500 characters of it.
pub proof fn content_comes_first(v: JsonView, t: Seq<char>)
    requires
        v is Obj,
    ensures
        v.get("content"@) == Some(JsonView::Str(t)) ==> extracted(v) == first(t, 500),
        v.get("content"@) is None && v.get("subject"@) == Some(JsonView::Str(t)) ==> extracted(v)
            == first(t, 500),
        v.get("content"@) is None && v.get("subject"@) is None && v.get("summary"@) == Some(
            JsonView::Str(t),
        ) ==> extracted(v) == first(t, 500),
        v.get("content"@) is None && v.get("subject"@) is None && v.get("summary"@) is None
            && v.get("note"@) == Some(JsonView::Str(t)) ==> extracted(v) == first(t, 500),
{
}

/// A text alone is taken as it is, up to 500 characters; nothing is taken of nothing.
pub proof fn texts_are_taken(t: Seq<char>)
    ensures
        t.len() <= 500 ==> extracted(JsonView::Str(t)) == t,
        extracted(JsonView::Str(t)).len() <= 500,
        extracted(JsonView::Null).len() == 0,
{
}

/// The last ones of a sequence: as many as are asked for, as far as there are, and they are
/// those it ends with.
pub proof fn last_ones<A>(s: Seq<A>, n: nat)
    ensures
        tail(s, n).len() == n || tail(s, n) == s,
        tail(s, n).len() <= n,
        forall|i: int|
            0 <= i < tail(s, n).len() ==> #[trigger] tail(s, n)[i] == s[s.len() - tail(s, n).len()
                + i],
{
}

/// A line is kept exactly where it holds more than blanks, and the lines stay in their
/// order.
pub proof fn blank_lines_are_left(a: Seq<Seq<char>>, l: Seq<char>)
    ensures
        nonblank(a.push(l)) == if trim(l).len() > 0 {
            nonblank(a).push(l)
        } else {
            nonblank(a)
        },
        nonblank(seq![]).len() == 0,
{
    assert(a.push(l).drop_last() =~= a);
}

/// An entry under a prefix is kept wherever it stands, and no other is.
pub proof fn prefix_decides(
    a: Seq<(Seq<char>, Seq<char>, JsonView)>,
    p: Seq<char>,
    rest: Seq<char>,
    ts: Seq<char>,
    v: JsonView,
    other: Seq<char>,
)
    ensures
        with_prefix(a.push((p + rest, ts, v)), p) == with_prefix(a, p).push((p + rest, ts, v)),
        !starts(other, p) ==> with_prefix(a.push((other, ts, v)), p) == with_prefix(a, p),
{
    assert(a.push((p + rest, ts, v)).drop_last() =~= a);
    assert(a.push((other, ts, v)).drop_last() =~= a);
    parts_are_seen(seq![], p, rest);
}

/// The newest entries are given: each is one of the entries under the prefix, none of them
/// is earlier than one that follows it, and there are no more than are asked for.
pub proof fn newest_ones_are_given(
    s: Seq<(Seq<char>, Seq<char>, JsonView)>,
    p: Seq<char>,
    last: nat,
)
    ensures
        ({
            let n = newest(s, p, last);
            let w = with_prefix(s, p);
            &&& n.len() <= last
            &&& n.len() == last || n.len() == w.len()
            &&& forall|i: int| 0 <= i < n.len() ==> w.contains(#[trigger] n[i])
            &&& forall|i: int, j: int|
                0 <= i < j < n.len() ==> !text_lt((#[trigger] n[i]).1, (#[trigger] n[j]).1)
        }),
{
    let n = newest(s, p, last);
    let w = with_prefix(s, p);
    let ts = w.map_values(|b: (Seq<char>, Seq<char>, JsonView)| b.1);
    let r = by_text(ts, true);
    let o = order(w.len(), r);
    order_keeps_positions(w.len(), r);
    by_text_ranks(ts, true);
    order_is_sorted(w.len(), r);
    assert forall|i: int| 0 <= i < n.len() implies w.contains(#[trigger] n[i]) by {
        assert(o.contains(o[i]));
        assert(n[i] == w[o[i]]);
    }
    assert forall|i: int, j: int| 0 <= i < j < n.len() implies !text_lt(
        (#[trigger] n[i]).1,
        (#[trigger] n[j]).1,
    ) by {
        assert(o.contains(o[i]));
        assert(o.contains(o[j]));
        assert(!r(o[j], o[i]));
        assert(n[i] == w[o[i]] && n[j] == w[o[j]]);
        assert(ts[o[i]] == n[i].1 && ts[o[j]] == n[j].1);
    }
}

/// What the tool calls a key of the board begins with `notes/`, `data/` or `tasks/`; the
/// first such word is taken.
pub proof fn first_key_is_taken(before: Seq<Seq<char>>, rest: Seq<char>, behind: Seq<Seq<char>>)
    requires
        forall|i: int| 0 <= i < before.len() ==> !board_key(#[trigger] before[i]),
    ensures
        first_key(before + seq!["notes/"@ + rest] + behind) == Some("notes/"@ + rest),
        first_key(before + seq!["data/"@ + rest] + behind) == Some("data/"@ + rest),
        first_key(before + seq!["tasks/"@ + rest] + behind) == Some("tasks/"@ + rest),
        first_key(before) is None,
    decreases before.len(),
{
    let (x, y, z) = ("notes/"@ + rest, "data/"@ + rest, "tasks/"@ + rest);
    parts_are_seen(seq![], "notes/"@, rest);
    parts_are_seen(seq![], "data/"@, rest);
    parts_are_seen(seq![], "tasks/"@, rest);
    let (a, b, c) = (before + seq![x] + behind, before + seq![y] + behind, before + seq![z] + behind);
    if before.len() == 0 {
        assert(a[0] == x && b[0] == y && c[0] == z);
    } else {
        assert(a[0] == before[0] && b[0] == before[0] && c[0] == before[0]);
        assert(!board_key(before[0]));
        assert(a.skip(1) =~= before.skip(1) + seq![x] + behind);
        assert(b.skip(1) =~= before.skip(1) + seq![y] + behind);
        assert(c.skip(1) =~= before.skip(1) + seq![z] + behind);
        first_key_is_taken(before.skip(1), rest, behind);
    }
}

/// The entries of the inbox are those of its files, one file behind the other.
pub proof fn files_are_read_in_a_row(a: Seq<Seq<char>>, text: Seq<char>)
    ensures
        inbox_entries(a.push(text)).len() >= inbox_entries(a).len(),
        inbox_entries(a.push(text)).take(inbox_entries(a).len() as int) == inbox_entries(a),
        inbox_entries(seq![]).len() == 0,
{
    let s = a.push(text);
    assert(s.drop_last() =~= a);
    assert(inbox_entries(s).take(inbox_entries(a).len() as int) =~= inbox_entries(a));
}

/// A line that holds a value gives it, behind those of the lines before; any other line is
/// passed over.
pub proof fn values_are_read(a: Seq<Seq<char>>, l: Seq<char>)
    ensures
        json_parsed(l) matches Ok(v) ==> values_in(a.push(l)) == values_in(a).push(v),
        json_parsed(l) is Err ==> values_in(a.push(l)) == values_in(a),
        values_in(seq![]).len() == 0,
{
    assert(a.push(l).drop_last() =~= a);
}

/// The answer of the model is used where it came with the code 200 and can be read: at most
/// 60 characters of it, without the blanks around it.
pub proof fn answers_are_used(v: JsonView, t: Seq<char>, code: u16, body: String)
    requires
        json_parsed(body@) == Ok::<JsonView, Seq<char>>(v),
        v.at("response"@) == JsonView::Str(t),
    ensures
        summary_of(Ok((200, body))) == first(trim(t), 60),
        code != 200 ==> summary_of(Ok((code, body))) == "[摘要失败]"@,
{
}

/// Of two entries of one time the earlier one comes first.
pub proof fn earlier_entries_come_first(
    s: Seq<(Seq<char>, Seq<char>, JsonView)>,
    i: int,
    j: int,
)
    requires
        0 <= i < j < newest_first(s).len(),
        newest_first(s)[i].1 == newest_first(s)[j].1,
    ensures
        exists|a: int, b: int|
            0 <= a < b < s.len() && #[trigger] s[a] == newest_first(s)[i] && #[trigger] s[b]
                == newest_first(s)[j],
{
    let ts = s.map_values(|b: (Seq<char>, Seq<char>, JsonView)| b.1);
    let p = by_text(ts, true);
    let o = order(s.len(), p);
    order_keeps_positions(s.len(), p);
    order_is_stable(s.len(), p, i, j);
    assert(o.contains(o[i]) && o.contains(o[j]));
    assert(newest_first(s)[i] == s[o[i]] && newest_first(s)[j] == s[o[j]]);
    assert(ts[o[i]] == ts[o[j]]);
    crate::text::text_lt_irreflexive(ts[o[i]]);
    assert(o[i] < o[j]);
}

/// As many entries are shown as were asked for last, and five where nothing was said.
pub proof fn counts_are_read(o: Seq<(Seq<char>, Seq<char>)>, n: nat)
    requires
        n <= usize::MAX,
    ensures
        last_count(o.push(("--last"@, dec(n)))) == n,
        last_count(seq![]) == 5,
{
    dec_round_trip(n, usize::MAX as nat);
}

} // verus!
