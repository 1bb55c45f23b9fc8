//! The bus between devices: a queue of tasks, each a file, behind a small HTTP
//! service.
//!
//! A task is queued, then processed, then done or failed. The functions decide what
//! becomes of it: they take what the files hold and give what is to be written.
use vstd::prelude::*;
use crate::args::{last_value, option_views};
use crate::clock::{
    date_text, four, four_reads_back, iso_text, late_years, now_iso, now_ms, time_text, two,
    two_reads_back, utc_millis, utc_millis_of, valid_date, valid_moment, valid_time, Moment,
};
use crate::json::{
    json_parsed, max_depth, parse, put_keeps_orderly, put_keeps_simple, put_then_get, read_of_put,
    reads_as, views, Json, JsonView,
};
use crate::num::{digit_char, hex, hexadecimal, int_of, read_i64, value};
use crate::order::{
    arranged, by_text, by_text_ranks, order, order_by_text, order_is_sorted,
    order_keeps_positions, positions,
};
use crate::path::{path_under, under};
use crate::text::{
    among, before, cat, cat3, cat4, contains, cut, ends, finishes, found_behind, head, maybe,
    not_found, pieces, replace, replaced, replaced_once, same, split, split_behind, split_once,
    strip_suffixes, texts, two_words, without_suffixes, words, words_of,
};

verus! {

// ---------------------------------------------------------------- configuration

/// How the bus is set up. An empty list of senders or actions allows all of them, an
/// empty token asks for none.
pub struct Config {
    pub port: u16,
    pub host: String,
    pub token: String,
    pub queue_dir: String,
    pub allowed_from: Vec<String>,
    pub allowed_actions: Vec<String>,
}

/// The directory of the tasks.
pub open spec fn tasks_place(queue: Seq<char>) -> Seq<char> {
    under(queue, "tasks"@)
}

/// The directory of the replies.
pub open spec fn outbox_place(queue: Seq<char>) -> Seq<char> {
    under(queue, "outbox"@)
}

/// The file of a task.
pub open spec fn task_file(queue: Seq<char>, id: Seq<char>) -> Seq<char> {
    under(tasks_place(queue), id + ".json"@)
}

/// The file of a reply.
pub open spec fn outbox_file(queue: Seq<char>, id: Seq<char>) -> Seq<char> {
    under(outbox_place(queue), id + ".json"@)
}

/// The directory of the tasks.
pub fn tasks_dir(cfg: &Config) -> (r: String)
    ensures
        r@ == tasks_place(cfg.queue_dir@),
{
    path_under(cfg.queue_dir.as_str(), "tasks")
}

/// The directory of the replies.
pub fn outbox_dir(cfg: &Config) -> (r: String)
    ensures
        r@ == outbox_place(cfg.queue_dir@),
{
    path_under(cfg.queue_dir.as_str(), "outbox")
}

/// The file of a task.
pub fn task_path(cfg: &Config, task_id: &str) -> (r: String)
    ensures
        r@ == task_file(cfg.queue_dir@, task_id@),
{
    path_under(tasks_dir(cfg).as_str(), cat(task_id, ".json").as_str())
}

/// The file of a reply.
pub fn outbox_path(cfg: &Config, task_id: &str) -> (r: String)
    ensures
        r@ == outbox_file(cfg.queue_dir@, task_id@),
{
    path_under(outbox_dir(cfg).as_str(), cat(task_id, ".json").as_str())
}

// ---------------------------------------------------------------- names

/// The name of a task that a process made at a time.
pub open spec fn task_id(ms: nat, pid: nat) -> Seq<char> {
    "task-"@ + hex(ms) + "-"@ + hex(pid)
}

/// The name of a task that a process made at a time.
pub fn gen_task_id(ms: u64, pid: u32) -> (r: String)
    ensures
        r@ == task_id(ms as nat, pid as nat),
{
    cat4("task-", hexadecimal(ms).as_str(), "-", hexadecimal(pid as u64).as_str())
}

proof fn hex_reads_back(n: nat)
    ensures
        value(hex(n), true) == n,
        !hex(n).contains('-'),
    decreases n,
{
    if n < 16 {
        let s = seq![digit_char(n)];
        assert(s.drop_last() =~= seq![]);
        assert(value(s.drop_last(), true) == 0);
        assert(hex(n) == s);
    } else {
        hex_reads_back(n / 16);
        let s = hex(n);
        assert(s.drop_last() =~= hex(n / 16));
        assert forall|i: int| 0 <= i < s.len() implies s[i] != '-' by {
            if i < s.len() - 1 {
                assert(s[i] == hex(n / 16)[i]);
            }
        }
    }
}

/// Tasks that were made at different times, or by different processes, have
/// different names.
pub proof fn task_ids_differ(ms: nat, pid: nat, ms2: nat, pid2: nat)
    requires
        ms != ms2 || pid != pid2,
    ensures
        task_id(ms, pid) != task_id(ms2, pid2),
{
    reveal_strlit("task-");
    reveal_strlit("-");
    if task_id(ms, pid) == task_id(ms2, pid2) {
        hex_reads_back(ms);
        hex_reads_back(pid);
        hex_reads_back(ms2);
        hex_reads_back(pid2);
        let a = task_id(ms, pid).skip(5);
        let b = task_id(ms2, pid2).skip(5);
        assert("-"@ =~= seq!['-']);
        assert(a =~= hex(ms) + seq!['-'] + hex(pid));
        assert(b =~= hex(ms2) + seq!['-'] + hex(pid2));
        found_behind(hex(ms), '-', hex(pid));
        found_behind(hex(ms2), '-', hex(pid2));
    }
}

/// The names that end in `.json`.
pub open spec fn json_names(n: Seq<Seq<char>>) -> Seq<Seq<char>>
    decreases n.len(),
{
    if n.len() == 0 {
        seq![]
    } else if crate::text::ends(n.last(), ".json"@) {
        json_names(n.drop_last()).push(n.last())
    } else {
        json_names(n.drop_last())
    }
}

/// The names that end in `.json`, in order.
pub open spec fn listed(n: Seq<Seq<char>>) -> Seq<Seq<char>> {
    let f = json_names(n);
    arranged(f, order(f.len(), by_text(f, false)))
}

/// The tasks, or replies, that some files are named for.
pub open spec fn ids(n: Seq<Seq<char>>) -> Seq<Seq<char>> {
    listed(n).map_values(|f: Seq<char>| strip_suffixes(f, ".json"@))
}

/// The names of files that end in `.json`, in order.
pub fn list_files(names: &Vec<String>) -> (r: Vec<String>)
    ensures
        texts(r@) == listed(texts(names@)),
{
    let mut f: Vec<String> = Vec::new();
    let ghost t = texts(names@);
    let mut i: usize = 0;
    assert(t.take(0) =~= seq![]);
    assert(texts(f@) =~= seq![]);
    while i < names.len()
        invariant
            i <= names@.len(),
            t == texts(names@),
            texts(f@) == json_names(t.take(i as int)),
        decreases names@.len() - i,
    {
        proof {
            assert(t.take(i + 1).drop_last() =~= t.take(i as int));
            assert(t.take(i + 1).last() == names@[i as int]@);
        }
        if finishes(names[i].as_str(), ".json") {
            let ghost prev = f@;
            f.push(names[i].clone());
            assert(texts(f@) =~= texts(prev).push(names@[i as int]@));
        }
        i += 1;
    }
    assert(t.take(i as int) =~= t);
    let o = order_by_text(&f, false);
    let ghost ft = texts(f@);
    let ghost w = arranged(ft, positions(o@));
    let mut out: Vec<String> = Vec::new();
    let mut k: usize = 0;
    while k < o.len()
        invariant
            k <= o@.len() == w.len(),
            ft == texts(f@),
            w == arranged(ft, positions(o@)),
            forall|i: int| 0 <= i < o@.len() ==> (#[trigger] o@[i]) < f@.len(),
            out@.len() == k,
            forall|j: int| 0 <= j < k ==> (#[trigger] out@[j])@ == w[j],
        decreases o@.len() - k,
    {
        assert(positions(o@)[k as int] == o@[k as int]);
        out.push(f[o[k]].clone());
        k += 1;
    }
    assert(texts(out@) =~= w);
    out
}

/// The tasks, or replies, that some files are named for.
pub fn list_ids(names: &Vec<String>) -> (r: Vec<String>)
    ensures
        texts(r@) == ids(texts(names@)),
{
    let f = list_files(names);
    let ghost t = texts(f@);
    let mut out: Vec<String> = Vec::new();
    let mut i: usize = 0;
    while i < f.len()
        invariant
            i <= f@.len(),
            t == texts(f@),
            out@.len() == i,
            forall|j: int|
                0 <= j < i ==> (#[trigger] out@[j])@ == strip_suffixes(t[j], ".json"@),
        decreases f@.len() - i,
    {
        out.push(without_suffixes(f[i].as_str(), ".json"));
        i += 1;
    }
    assert(texts(out@) =~= t.map_values(|f: Seq<char>| strip_suffixes(f, ".json"@)));
    out
}

// ---------------------------------------------------------------- times

/// The six numbers of a time, as the machine's date functions take them: the year
/// in 32 bits with a sign, the others in 32 bits without.
pub open spec fn date_millis(y: int, mo: int, d: int, h: int, mi: int, s: int) -> Result<
    u64,
    Seq<char>,
> {
    let (y, mo, d) = (y as i32 as int, mo as u32 as int, d as u32 as int);
    let (h, mi, s) = (h as u32 as int, mi as u32 as int, s as u32 as int);
    if valid_date(y, mo, d) && valid_time(h, mi, s) {
        Ok(utc_millis(y, mo, d, h, mi, s) as u64)
    } else {
        Err("bad date"@)
    }
}

/// The milliseconds since the start of 1970 at which a time stands that is written
/// as a date and a time of the day, whatever follows the seconds.
pub open spec fn iso_millis(s: Seq<char>) -> Result<u64, Seq<char>> {
    let parts = words(before(replace(replace(s, "T"@, " "@), "Z"@, ""@), "."@));
    if parts.len() < 2 {
        Err("bad date"@)
    } else {
        let d = split(parts[0], "-"@);
        let t = split(parts[1], ":"@);
        if d.len() < 3 || t.len() < 3 {
            Err("bad date"@)
        } else {
            match int_of(d[0]) {
                None => Err("year"@),
                Some(y) => match int_of(d[1]) {
                    None => Err("month"@),
                    Some(mo) => match int_of(d[2]) {
                        None => Err("day"@),
                        Some(day) => match int_of(t[0]) {
                            None => Err("hour"@),
                            Some(h) => match int_of(t[1]) {
                                None => Err("min"@),
                                Some(mi) => match int_of(t[2]) {
                                    None => Err("sec"@),
                                    Some(se) => date_millis(y, mo, day, h, mi, se),
                                },
                            },
                        },
                    },
                },
            }
        }
    }
}

/// The milliseconds since the start of 1970 at which a written time stands.
pub fn parse_iso_ms(s: &str) -> (r: Result<u64, String>)
    ensures
        match r {
            Ok(n) => iso_millis(s@) == Ok::<u64, Seq<char>>(n),
            Err(e) => iso_millis(s@) == Err::<u64, Seq<char>>(e@),
        },
{
    let a = replaced(replaced(s, "T", " ").as_str(), "Z", "");
    let parts = words_of(head(a.as_str(), ".").as_str());
    let ghost pt = texts(parts@);
    assert(pt.len() == parts@.len());
    if parts.len() < 2 {
        return Err("bad date".to_owned());
    }
    assert(pt[0] == parts@[0]@ && pt[1] == parts@[1]@);
    let d = pieces(parts[0].as_str(), "-");
    let t = pieces(parts[1].as_str(), ":");
    let ghost dt = texts(d@);
    let ghost tt = texts(t@);
    assert(dt.len() == d@.len() && tt.len() == t@.len());
    if d.len() < 3 || t.len() < 3 {
        return Err("bad date".to_owned());
    }
    assert(dt[0] == d@[0]@ && dt[1] == d@[1]@ && dt[2] == d@[2]@);
    assert(tt[0] == t@[0]@ && tt[1] == t@[1]@ && tt[2] == t@[2]@);
    let y: i64 = match read_i64(d[0].as_str()) {
        Some(n) => n,
        None => return Err("year".to_owned()),
    };
    let mo: i64 = match read_i64(d[1].as_str()) {
        Some(n) => n,
        None => return Err("month".to_owned()),
    };
    let day: i64 = match read_i64(d[2].as_str()) {
        Some(n) => n,
        None => return Err("day".to_owned()),
    };
    let h: i64 = match read_i64(t[0].as_str()) {
        Some(n) => n,
        None => return Err("hour".to_owned()),
    };
    let mi: i64 = match read_i64(t[1].as_str()) {
        Some(n) => n,
        None => return Err("min".to_owned()),
    };
    let se: i64 = match read_i64(t[2].as_str()) {
        Some(n) => n,
        None => return Err("sec".to_owned()),
    };
    match utc_millis_of(y as i32, mo as u32, day as u32, h as u32, mi as u32, se as u32) {
        Some(n) => Ok(n as u64),
        None => Err("bad date".to_owned()),
    }
}

// ---------------------------------------------------------------- files

/// A file of the queue: the name it goes by, and its text if it could be read.
pub struct QueueFile {
    pub id: String,
    pub text: Option<String>,
}

/// A file of the queue by what it holds; nothing where it holds no value.
pub struct Entry {
    pub id: String,
    pub value: Option<Json>,
}

/// A file to be written.
pub struct Write {
    pub path: String,
    pub value: Json,
}

/// What a text holds, if there is one and it holds a value.
pub open spec fn value_read(t: Option<Seq<char>>) -> Option<JsonView> {
    match t {
        Some(t) => match json_parsed(t) {
            Ok(v) => Some(v),
            Err(_) => None,
        },
        None => None,
    }
}

/// What an optional value holds.
pub open spec fn maybe_value(o: Option<Json>) -> Option<JsonView> {
    match o {
        Some(j) => Some(j@),
        None => None,
    }
}

/// The entries by their names and values.
pub open spec fn entries(v: Seq<Entry>) -> Seq<(Seq<char>, Option<JsonView>)> {
    v.map_values(|e: Entry| (e.id@, maybe_value(e.value)))
}

/// The files to be written by their paths and values.
pub open spec fn writes(v: Seq<Write>) -> Seq<(Seq<char>, JsonView)> {
    v.map_values(|w: Write| (w.path@, w.value@))
}

/// What a text holds, if there is one and it holds a value.
pub fn read_json(text: &Option<String>) -> (r: Option<Json>)
    ensures
        maybe_value(r) == value_read(maybe(*text)),
        r matches Some(j) ==> j@.orderly(),
{
    match text {
        Some(t) => match parse(t.as_str()) {
            Ok(v) => Some(v),
            Err(_) => None,
        },
        None => None,
    }
}

/// The files of the queue by what they hold.
pub fn read_entries(files: &Vec<QueueFile>) -> (r: Vec<Entry>)
    ensures
        entries(r@) == files@.map_values(|f: QueueFile| (f.id@, value_read(maybe(f.text)))),
{
    let mut out: Vec<Entry> = Vec::new();
    let mut i: usize = 0;
    while i < files.len()
        invariant
            i <= files@.len(),
            out@.len() == i,
            forall|j: int|
                0 <= j < i ==> (#[trigger] out@[j]).id@ == files@[j].id@ && maybe_value(
                    out@[j].value,
                ) == value_read(maybe(files@[j].text)),
        decreases files@.len() - i,
    {
        out.push(Entry { id: files[i].id.clone(), value: read_json(&files[i].text) });
        i += 1;
    }
    assert(entries(out@) =~= files@.map_values(
        |f: QueueFile| (f.id@, value_read(maybe(f.text))),
    ));
    out
}

// ---------------------------------------------------------------- tasks

/// The state of a task.
pub open spec fn status(task: JsonView) -> Seq<char> {
    task.text_or("status"@, seq![])
}

/// How many seconds a task may wait, where it does not say.
pub open spec fn default_ttl() -> int {
    3600
}

/// How many seconds a task may wait.
pub open spec fn ttl(v: JsonView) -> int {
    match v.uint("ttl_sec"@) {
        Some(n) => n,
        None => default_ttl(),
    }
}

/// A task that has waited too long: it is queued, and now is later than its time to
/// live after it was made.
pub open spec fn expired(task: JsonView, now: int) -> bool {
    status(task) == "queued"@ && match iso_millis(task.text_or("created_at"@, seq![])) {
        Ok(made) => now > made + ttl(task) * 1000,
        Err(_) => false,
    }
}

/// A task that failed because it waited too long.
pub open spec fn failed_late(task: JsonView, now: Seq<char>) -> JsonView {
    task.put("status"@, JsonView::Str("failed"@)).put(
        "error"@,
        JsonView::Str("TTL expired"@),
    ).put("finished_at"@, JsonView::Str(now))
}

/// The reply to a task that waited too long.
pub open spec fn late_reply(id: Seq<char>, task: JsonView, now: Seq<char>) -> JsonView {
    JsonView::object().put("task_id"@, JsonView::Str(id)).put("from"@, task.at("from"@)).put(
        "to"@,
        task.at("target"@),
    ).put("ok"@, JsonView::Bool(false)).put("result"@, JsonView::Null).put(
        "error"@,
        JsonView::Str("TTL expired"@),
    ).put("finished_at"@, JsonView::Str(now))
}

/// What is written of the tasks that waited too long.
pub open spec fn sweep(
    queue: Seq<char>,
    e: Seq<(Seq<char>, Option<JsonView>)>,
    now_ms: int,
    now: Seq<char>,
) -> Seq<(Seq<char>, JsonView)>
    decreases e.len(),
{
    if e.len() == 0 {
        seq![]
    } else {
        let before = sweep(queue, e.drop_last(), now_ms, now);
        let (id, v) = e.last();
        match v {
            Some(task) if expired(task, now_ms) => before.push(
                (task_file(queue, id), failed_late(task, now)),
            ).push((outbox_file(queue, id), late_reply(id, task, now))),
            _ => before,
        }
    }
}

/// An entry once the tasks that waited too long are closed.
pub open spec fn closed_late(
    e: (Seq<char>, Option<JsonView>),
    now_ms: int,
    now: Seq<char>,
) -> (Seq<char>, Option<JsonView>) {
    match e.1 {
        Some(task) if expired(task, now_ms) => (e.0, Some(failed_late(task, now))),
        _ => e,
    }
}

/// The entries once the tasks that waited too long are closed.
pub open spec fn swept(
    e: Seq<(Seq<char>, Option<JsonView>)>,
    now_ms: int,
    now: Seq<char>,
) -> Seq<(Seq<char>, Option<JsonView>)> {
    e.map_values(|x: (Seq<char>, Option<JsonView>)| closed_late(x, now_ms, now))
}

fn is_expired(task: &Json, now: u64) -> (r: bool)
    ensures
        r == expired(task@, now as int),
{
    proof {
        reveal_strlit("");
        assert(""@ =~= seq![]);
    }
    if !same(task.text_or("status", "").as_str(), "queued") {
        return false;
    }
    let wait: u64 = match task.uint_at("ttl_sec") {
        Some(n) => n,
        None => 3600,
    };
    match parse_iso_ms(task.text_or("created_at", "").as_str()) {
        Ok(made) => now as u128 > made as u128 + wait as u128 * 1000,
        Err(_) => false,
    }
}

fn close_late(task: &Json, now: &str) -> (r: Json)
    ensures
        r@ == failed_late(task@, now@),
{
    task.copy().with("status", Json::text("failed")).with("error", Json::text("TTL expired")).with(
        "finished_at",
        Json::text(now),
    )
}

/// What is to be written of the tasks that waited too long.
pub fn sweep_expired(cfg: &Config, e: &Vec<Entry>, now_ms: u64, now: &str) -> (r: Vec<Write>)
    ensures
        writes(r@) == sweep(cfg.queue_dir@, entries(e@), now_ms as int, now@),
{
    let mut out: Vec<Write> = Vec::new();
    let ghost t = entries(e@);
    let ghost q = cfg.queue_dir@;
    let mut i: usize = 0;
    assert(t.take(0) =~= seq![]);
    assert(writes(out@) =~= seq![]);
    while i < e.len()
        invariant
            i <= e@.len(),
            t == entries(e@),
            q == cfg.queue_dir@,
            writes(out@) == sweep(q, t.take(i as int), now_ms as int, now@),
        decreases e@.len() - i,
    {
        proof {
            assert(t.take(i + 1).drop_last() =~= t.take(i as int));
            assert(t.take(i + 1).last() == (e@[i as int].id@, maybe_value(e@[i as int].value)));
        }
        let ghost prev = writes(out@);
        if let Some(task) = &e[i].value {
            if is_expired(task, now_ms) {
                let id = e[i].id.as_str();
                let a = close_late(task, now);
                let b = Json::object().with("task_id", Json::text(id)).with(
                    "from",
                    task.at("from"),
                ).with("to", task.at("target")).with("ok", Json::Bool(false)).with(
                    "result",
                    Json::Null,
                ).with("error", Json::text("TTL expired")).with("finished_at", Json::text(now));
                out.push(Write { path: task_path(cfg, id), value: a });
                out.push(Write { path: outbox_path(cfg, id), value: b });
                assert(writes(out@) =~= prev.push(
                    (task_file(q, id@), failed_late(task@, now@)),
                ).push((outbox_file(q, id@), late_reply(id@, task@, now@))));
            }
        }
        assert(writes(out@) =~= sweep(q, t.take(i + 1), now_ms as int, now@));
        i += 1;
    }
    assert(t.take(i as int) =~= t);
    out
}

/// The entries once the tasks that waited too long are closed.
pub fn swept_entries(e: &Vec<Entry>, now_ms: u64, now: &str) -> (r: Vec<Entry>)
    ensures
        entries(r@) == swept(entries(e@), now_ms as int, now@),
{
    let mut out: Vec<Entry> = Vec::new();
    let ghost t = entries(e@);
    let mut i: usize = 0;
    while i < e.len()
        invariant
            i <= e@.len(),
            out@.len() == i,
            t == entries(e@),
            forall|j: int|
                0 <= j < i ==> ((#[trigger] out@[j]).id@, maybe_value(out@[j].value))
                    == closed_late(t[j], now_ms as int, now@),
        decreases e@.len() - i,
    {
        assert(t[i as int] == (e@[i as int].id@, maybe_value(e@[i as int].value)));
        let value = match &e[i].value {
            Some(task) => if is_expired(task, now_ms) {
                Some(close_late(task, now))
            } else {
                Some(task.copy())
            },
            None => None,
        };
        out.push(Entry { id: e[i].id.clone(), value });
        i += 1;
    }
    assert(entries(out@) =~= swept(t, now_ms as int, now@));
    out
}

// ---------------------------------------------------------------- sending

/// An answer that refuses.
pub open spec fn refusal(m: Seq<char>) -> JsonView {
    JsonView::object().put("ok"@, JsonView::Bool(false)).put("errmsg"@, JsonView::Str(m))
}

fn refuse(m: &str) -> (r: Json)
    ensures
        r@ == refusal(m@),
{
    Json::object().with("ok", Json::Bool(false)).with("errmsg", Json::text(m))
}

/// Why a task is not taken: it names no sender or no action, or one that is not
/// allowed.
pub open spec fn send_refusal(
    from_list: Seq<Seq<char>>,
    action_list: Seq<Seq<char>>,
    body: JsonView,
) -> Option<Seq<char>> {
    let from = body.text_or("from"@, seq![]);
    let action = body.text_or("action"@, seq![]);
    if from.len() == 0 || action.len() == 0 {
        Some("from 与 action 必填"@)
    } else if from_list.len() > 0 && !from_list.contains(from) {
        Some("来源 "@ + from + " 不在白名单"@)
    } else if action_list.len() > 0 && !action_list.contains(action) {
        Some("动作 "@ + action + " 不在白名单"@)
    } else {
        None
    }
}

/// The task that a request makes.
pub open spec fn new_task(body: JsonView, id: Seq<char>, now: Seq<char>) -> JsonView {
    JsonView::object().put("task_id"@, JsonView::Str(id)).put(
        "from"@,
        JsonView::Str(body.text_or("from"@, seq![])),
    ).put("target"@, JsonView::Str(body.text_or("target"@, "any"@))).put(
        "action"@,
        JsonView::Str(body.text_or("action"@, seq![])),
    ).put("payload"@, body.at("payload"@)).put("ttl_sec"@, JsonView::Int(ttl(body))).put(
        "status"@,
        JsonView::Str("queued"@),
    ).put("created_at"@, JsonView::Str(now)).put("started_at"@, JsonView::Null).put(
        "finished_at"@,
        JsonView::Null,
    ).put("reply"@, JsonView::Null)
}

/// The answer to a request whose task was taken.
pub open spec fn taken_answer(id: Seq<char>) -> JsonView {
    JsonView::object().put("ok"@, JsonView::Bool(true)).put("task_id"@, JsonView::Str(id)).put(
        "status"@,
        JsonView::Str("queued"@),
    )
}

/// An answer, and the files to be written for it.
pub struct Answer {
    pub reply: Json,
    pub files: Vec<Write>,
}

/// The answer to a request whose task was taken under a name and a time, with the
/// file of the task.
pub open spec fn sent_as(
    a: Answer,
    queue: Seq<char>,
    body: JsonView,
    id: Seq<char>,
    now: Seq<char>,
) -> bool {
    a.reply@ == taken_answer(id) && writes(a.files@) == seq![
        (task_file(queue, id), new_task(body, id, now)),
    ]
}

/// Takes a task under a name and a time, or refuses it.
pub fn send_task(cfg: &Config, body: &Json, id: &str, now: &str) -> (r: Answer)
    ensures
        match send_refusal(texts(cfg.allowed_from@), texts(cfg.allowed_actions@), body@) {
            Some(m) => r.reply@ == refusal(m) && writes(r.files@) == Seq::<
                (Seq<char>, JsonView),
            >::empty(),
            None => sent_as(r, cfg.queue_dir@, body@, id@, now@),
        },
{
    proof {
        reveal_strlit("");
        assert(""@ =~= seq![]);
    }
    let mut files: Vec<Write> = Vec::new();
    assert(writes(files@) =~= seq![]);
    let from = body.text_or("from", "");
    let action = body.text_or("action", "");
    if from.as_str().is_empty() || action.as_str().is_empty() {
        return Answer { reply: refuse("from 与 action 必填"), files };
    }
    assert(texts(cfg.allowed_from@).len() == cfg.allowed_from@.len());
    assert(texts(cfg.allowed_actions@).len() == cfg.allowed_actions@.len());
    if cfg.allowed_from.len() > 0 && !among(from.as_str(), &cfg.allowed_from) {
        return Answer {
            reply: refuse(cat3("来源 ", from.as_str(), " 不在白名单").as_str()),
            files,
        };
    }
    if cfg.allowed_actions.len() > 0 && !among(action.as_str(), &cfg.allowed_actions) {
        return Answer {
            reply: refuse(cat3("动作 ", action.as_str(), " 不在白名单").as_str()),
            files,
        };
    }
    let wait: u64 = match body.uint_at("ttl_sec") {
        Some(n) => n,
        None => 3600,
    };
    let task = Json::object().with("task_id", Json::text(id)).with(
        "from",
        Json::text(from.as_str()),
    ).with("target", Json::text(body.text_or("target", "any").as_str())).with(
        "action",
        Json::text(action.as_str()),
    ).with("payload", body.at("payload")).with("ttl_sec", Json::Uint(wait)).with(
        "status",
        Json::text("queued"),
    ).with("created_at", Json::text(now)).with("started_at", Json::Null).with(
        "finished_at",
        Json::Null,
    ).with("reply", Json::Null);
    files.push(Write { path: task_path(cfg, id), value: task });
    assert(writes(files@) =~= seq![
        (task_file(cfg.queue_dir@, id@), new_task(body@, id@, now@)),
    ]);
    Answer {
        reply: Json::object().with("ok", Json::Bool(true)).with("task_id", Json::text(id)).with(
            "status",
            Json::text("queued"),
        ),
        files,
    }
}

/// Takes a task under a name made of the time and the process, or refuses it.
pub fn bus_send(cfg: &Config, body: &Json, pid: u32) -> (r: Answer)
    ensures
        match send_refusal(texts(cfg.allowed_from@), texts(cfg.allowed_actions@), body@) {
            Some(m) => r.reply@ == refusal(m) && writes(r.files@) == Seq::<
                (Seq<char>, JsonView),
            >::empty(),
            None => exists|ms: u64, t: Moment|
                valid_moment(t) && #[trigger] sent_as(
                    r,
                    cfg.queue_dir@,
                    body@,
                    task_id(ms as nat, pid as nat),
                    iso_text(t),
                ),
        },
{
    let ms: u64 = now_ms();
    let id = gen_task_id(ms, pid);
    let now = now_iso();
    send_task(cfg, body, id.as_str(), now.as_str())
}

// ---------------------------------------------------------------- receiving

/// A task that waits for `target`: it is queued for it, or for any one. An empty
/// target takes them all.
pub open spec fn waits_for(task: JsonView, target: Seq<char>) -> bool {
    let t = task.text_or("target"@, "any"@);
    status(task) == "queued"@ && (target.len() == 0 || t == target || t == "any"@)
}

/// An entry holds a task that waits for `target`.
pub open spec fn waiting(e: (Seq<char>, Option<JsonView>), target: Seq<char>) -> bool {
    match e.1 {
        Some(task) => waits_for(task, target),
        None => false,
    }
}

/// The first task that waits for `target`.
pub open spec fn first_waiting(
    e: Seq<(Seq<char>, Option<JsonView>)>,
    target: Seq<char>,
) -> Option<(Seq<char>, JsonView)>
    decreases e.len(),
{
    if e.len() == 0 {
        None
    } else if waiting(e[0], target) {
        Some((e[0].0, e[0].1->0))
    } else {
        first_waiting(e.skip(1), target)
    }
}

/// A task that is being processed since `now`.
pub open spec fn processing(task: JsonView, now: Seq<char>) -> JsonView {
    task.put("status"@, JsonView::Str("processing"@)).put("started_at"@, JsonView::Str(now))
}

/// The answer that hands out a task.
pub open spec fn hand_out(id: Seq<char>, task: JsonView) -> JsonView {
    JsonView::object().put("ok"@, JsonView::Bool(true)).put(
        "task"@,
        JsonView::object().put("task_id"@, JsonView::Str(id)).put("from"@, task.at("from"@)).put(
            "target"@,
            task.at("target"@),
        ).put("action"@, task.at("action"@)).put("payload"@, task.at("payload"@)).put(
            "created_at"@,
            task.at("created_at"@),
        ),
    )
}

/// The answer where no task waits.
pub open spec fn nothing_waits() -> JsonView {
    JsonView::object().put("ok"@, JsonView::Bool(true)).put("task"@, JsonView::Null)
}

/// The tasks that waited too long are closed, and the answer hands out the first of the
/// others that waits for `target`, and has it written as being processed.
pub open spec fn received_at(
    a: Answer,
    queue: Seq<char>,
    e: Seq<(Seq<char>, Option<JsonView>)>,
    target: Seq<char>,
    now_ms: int,
    now: Seq<char>,
) -> bool {
    let late = sweep(queue, e, now_ms, now);
    match first_waiting(swept(e, now_ms, now), target) {
        Some((id, task)) => a.reply@ == hand_out(id, processing(task, now)) && writes(a.files@)
            == late.push((task_file(queue, id), processing(task, now))),
        None => a.reply@ == nothing_waits() && writes(a.files@) == late,
    }
}

fn does_wait(task: &Json, target: &str) -> (r: bool)
    ensures
        r == waits_for(task@, target@),
{
    proof {
        reveal_strlit("");
        assert(""@ =~= seq![]);
    }
    let t = task.text_or("target", "any");
    same(task.text_or("status", "").as_str(), "queued") && (target.is_empty() || same(
        t.as_str(),
        target,
    ) || same(t.as_str(), "any"))
}

/// Closes the tasks that waited too long, and hands out the first of the others that waits
/// for `target`.
pub fn receive_task(cfg: &Config, e: &Vec<Entry>, target: &str, now_ms: u64, now: &str) -> (r:
    Answer)
    ensures
        received_at(r, cfg.queue_dir@, entries(e@), target@, now_ms as int, now@),
{
    let mut files = sweep_expired(cfg, e, now_ms, now);
    let live = swept_entries(e, now_ms, now);
    let ghost late = writes(files@);
    let ghost t = entries(live@);
    let mut i: usize = 0;
    assert(t.skip(0) =~= t);
    while i < live.len()
        invariant
            i <= live@.len(),
            t == entries(live@),
            t == swept(entries(e@), now_ms as int, now@),
            late == sweep(cfg.queue_dir@, entries(e@), now_ms as int, now@),
            writes(files@) == late,
            first_waiting(t, target@) == first_waiting(t.skip(i as int), target@),
        decreases live@.len() - i,
    {
        assert(t.skip(i as int)[0] == (live@[i as int].id@, maybe_value(live@[i as int].value)));
        assert(t.skip(i as int).skip(1) =~= t.skip(i + 1));
        if let Some(task) = &live[i].value {
            if does_wait(task, target) {
                let id = live[i].id.as_str();
                let p = task.copy().with("status", Json::text("processing")).with(
                    "started_at",
                    Json::text(now),
                );
                let inner = Json::object().with("task_id", Json::text(id)).with(
                    "from",
                    p.at("from"),
                ).with("target", p.at("target")).with("action", p.at("action")).with(
                    "payload",
                    p.at("payload"),
                ).with("created_at", p.at("created_at"));
                let ghost pv = p@;
                files.push(Write { path: task_path(cfg, id), value: p });
                assert(writes(files@) =~= late.push((task_file(cfg.queue_dir@, id@), pv)));
                return Answer {
                    reply: Json::object().with("ok", Json::Bool(true)).with("task", inner),
                    files,
                };
            }
        }
        i += 1;
    }
    Answer {
        reply: Json::object().with("ok", Json::Bool(true)).with("task", Json::Null),
        files,
    }
}

/// Closes the tasks that waited too long, and hands out the first of the others that waits
/// for `target`, as of now. At which moment it ran is left open.
pub fn bus_receive(cfg: &Config, e: &Vec<Entry>, target: &str) -> (r: Answer)
    ensures
        exists|ms: u64, t: Moment|
            valid_moment(t) && #[trigger] received_at(
                r,
                cfg.queue_dir@,
                entries(e@),
                target@,
                ms as int,
                iso_text(t),
            ),
{
    let ms: u64 = now_ms();
    let now = now_iso();
    receive_task(cfg, e, target, ms, now.as_str())
}

// ---------------------------------------------------------------- replying

/// A task that is answered can be answered no more.
pub open spec fn open_for_reply(task: JsonView) -> bool {
    status(task) == "processing"@ || status(task) == "queued"@
}

/// The state of a task after a reply.
pub open spec fn end_status(ok: bool) -> Seq<char> {
    if ok {
        "done"@
    } else {
        "failed"@
    }
}

/// A task after a reply.
pub open spec fn answered(task: JsonView, body: JsonView, now: Seq<char>) -> JsonView {
    let ok = body.flag("ok"@);
    task.put("status"@, JsonView::Str(end_status(ok))).put(
        "finished_at"@,
        JsonView::Str(now),
    ).put(
        "reply"@,
        JsonView::object().put("ok"@, JsonView::Bool(ok)).put("result"@, body.at("result"@)).put(
            "error"@,
            body.at("error"@),
        ),
    )
}

/// A reply as it is handed to the sender of the task.
pub open spec fn reply_out(
    id: Seq<char>,
    task: JsonView,
    body: JsonView,
    now: Seq<char>,
) -> JsonView {
    let done = answered(task, body, now);
    JsonView::object().put("task_id"@, JsonView::Str(id)).put("from"@, done.at("target"@)).put(
        "to"@,
        done.at("from"@),
    ).put("ok"@, JsonView::Bool(body.flag("ok"@))).put("result"@, body.at("result"@)).put(
        "error"@,
        body.at("error"@),
    ).put("finished_at"@, JsonView::Str(now))
}

/// Why a reply is not taken: it names no task, or one that is not there, or one that
/// is answered already.
pub open spec fn reply_refusal(body: JsonView, task: Option<JsonView>) -> Option<Seq<char>> {
    let id = body.text_or("task_id"@, seq![]);
    if id.len() == 0 {
        Some("task_id 必填"@)
    } else {
        match task {
            None => Some("任务 "@ + id + " 不存在"@),
            Some(t) => if open_for_reply(t) {
                None
            } else {
                Some("任务状态 "@ + status(t) + " 不可回复"@)
            },
        }
    }
}

/// The answer to a reply at a time, with the files of the task and of the reply; or
/// why it is not taken.
pub open spec fn replied_at(
    a: Answer,
    queue: Seq<char>,
    body: JsonView,
    task: Option<JsonView>,
    now: Seq<char>,
) -> bool {
    let id = body.text_or("task_id"@, seq![]);
    match reply_refusal(body, task) {
        Some(m) => a.reply@ == refusal(m) && writes(a.files@) == Seq::<
            (Seq<char>, JsonView),
        >::empty(),
        None => a.reply@ == JsonView::object().put("ok"@, JsonView::Bool(true)).put(
            "task_id"@,
            JsonView::Str(id),
        ).put("status"@, answered(task->0, body, now).at("status"@)) && writes(a.files@) == seq![
            (task_file(queue, id), answered(task->0, body, now)),
            (outbox_file(queue, id), reply_out(id, task->0, body, now)),
        ],
    }
}

/// The task that a reply is for.
pub fn reply_task(body: &Json) -> (r: String)
    ensures
        r@ == body@.text_or("task_id"@, seq![]),
{
    proof {
        reveal_strlit("");
        assert(""@ =~= seq![]);
    }
    body.text_or("task_id", "")
}

/// Takes a reply at a time to a task, given what the file of the task holds.
pub fn reply_to(cfg: &Config, body: &Json, task: &Option<Json>, now: &str) -> (r: Answer)
    ensures
        replied_at(r, cfg.queue_dir@, body@, maybe_value(*task), now@),
{
    proof {
        reveal_strlit("");
        assert(""@ =~= seq![]);
    }
    let mut files: Vec<Write> = Vec::new();
    assert(writes(files@) =~= seq![]);
    let id = reply_task(body);
    if id.as_str().is_empty() {
        return Answer { reply: refuse("task_id 必填"), files };
    }
    let t = match task {
        Some(t) => t,
        None => return Answer {
            reply: refuse(cat3("任务 ", id.as_str(), " 不存在").as_str()),
            files,
        },
    };
    let st = t.text_or("status", "");
    if !same(st.as_str(), "processing") && !same(st.as_str(), "queued") {
        return Answer {
            reply: refuse(cat3("任务状态 ", st.as_str(), " 不可回复").as_str()),
            files,
        };
    }
    let ok = body.flag_at("ok");
    let end = if ok {
        "done"
    } else {
        "failed"
    };
    let inner = Json::object().with("ok", Json::Bool(ok)).with("result", body.at("result")).with(
        "error",
        body.at("error"),
    );
    let done = t.copy().with("status", Json::text(end)).with("finished_at", Json::text(now)).with(
        "reply",
        inner,
    );
    assert(done@ == answered(t@, body@, now@));
    let out = Json::object().with("task_id", Json::text(id.as_str())).with(
        "from",
        done.at("target"),
    ).with("to", done.at("from")).with("ok", Json::Bool(ok)).with(
        "result",
        body.at("result"),
    ).with("error", body.at("error")).with("finished_at", Json::text(now));
    assert(out@ == reply_out(id@, t@, body@, now@));
    let reply = Json::object().with("ok", Json::Bool(true)).with(
        "task_id",
        Json::text(id.as_str()),
    ).with("status", done.at("status"));
    let ghost (dv, ov) = (done@, out@);
    files.push(Write { path: task_path(cfg, id.as_str()), value: done });
    files.push(Write { path: outbox_path(cfg, id.as_str()), value: out });
    assert(writes(files@) =~= seq![
        (task_file(cfg.queue_dir@, id@), dv),
        (outbox_file(cfg.queue_dir@, id@), ov),
    ]);
    Answer { reply, files }
}

/// Takes a reply to a task as of now.
pub fn bus_reply(cfg: &Config, body: &Json, task: &Option<Json>) -> (r: Answer)
    ensures
        exists|t: Moment| #[trigger]
            valid_moment(t) && replied_at(
                r,
                cfg.queue_dir@,
                body@,
                maybe_value(*task),
                iso_text(t),
            ),
{
    let now = now_iso();
    reply_to(cfg, body, task, now.as_str())
}

// ---------------------------------------------------------------- queries

/// The pairs of a query: the parts between ampersands that hold an equals sign.
pub open spec fn query_pairs(parts: Seq<Seq<char>>) -> Seq<(Seq<char>, Seq<char>)>
    decreases parts.len(),
{
    if parts.len() == 0 {
        seq![]
    } else {
        match split_once(parts.last(), "="@) {
            Some(p) => query_pairs(parts.drop_last()).push(p),
            None => query_pairs(parts.drop_last()),
        }
    }
}

/// What a query asks; of two pairs with one key the later counts.
pub struct Query {
    pub pairs: Vec<(String, String)>,
}

impl Query {
    /// The pairs as texts.
    pub open spec fn texts(&self) -> Seq<(Seq<char>, Seq<char>)> {
        option_views(self.pairs@)
    }

    /// The value of a key.
    pub fn get(&self, k: &str) -> (r: Option<String>)
        ensures
            maybe(r) == last_value(self.texts(), k@),
    {
        let mut i: usize = self.pairs.len();
        let ghost o = self.texts();
        assert(o.take(i as int) =~= o);
        while i > 0
            invariant
                i <= self.pairs@.len(),
                o == self.texts(),
                crate::args::last_of(o, k@, k@) == crate::args::last_of(o.take(i as int), k@, k@),
            decreases i,
        {
            proof {
                assert(o.take(i as int).last() == o[i - 1]);
                assert(o.take(i as int).drop_last() =~= o.take(i - 1));
            }
            if same(self.pairs[i - 1].0.as_str(), k) {
                return Some(self.pairs[i - 1].1.clone());
            }
            i -= 1;
        }
        None
    }

    /// The value of a key, or the empty text.
    pub fn get_or_empty(&self, k: &str) -> (r: String)
        ensures
            r@ == asked(self.texts(), k@),
    {
        match self.get(k) {
            Some(v) => v,
            None => String::new(),
        }
    }
}

/// The value of a key, or the empty text.
pub open spec fn asked(q: Seq<(Seq<char>, Seq<char>)>, k: Seq<char>) -> Seq<char> {
    match last_value(q, k) {
        Some(v) => v,
        None => seq![],
    }
}

/// A key is asked for: its value is `1` or `true`.
pub open spec fn asks(q: Seq<(Seq<char>, Seq<char>)>, k: Seq<char>) -> bool {
    asked(q, k) == "1"@ || asked(q, k) == "true"@
}

fn does_ask(q: &Query, k: &str) -> (r: bool)
    ensures
        r == asks(q.texts(), k@),
{
    let v = q.get_or_empty(k);
    same(v.as_str(), "1") || same(v.as_str(), "true")
}

/// Reads a query.
pub fn read_query(s: &str) -> (r: Query)
    ensures
        r.texts() == query_pairs(split(s@, "&"@)),
{
    let parts = pieces(s, "&");
    let ghost t = texts(parts@);
    let mut pairs: Vec<(String, String)> = Vec::new();
    let mut i: usize = 0;
    assert(t.take(0) =~= seq![]);
    assert(option_views(pairs@) =~= seq![]);
    while i < parts.len()
        invariant
            i <= parts@.len(),
            t == texts(parts@),
            option_views(pairs@) == query_pairs(t.take(i as int)),
        decreases parts@.len() - i,
    {
        proof {
            assert(t.take(i + 1).drop_last() =~= t.take(i as int));
            assert(t.take(i + 1).last() == parts@[i as int]@);
        }
        if let Some((k, v)) = cut(parts[i].as_str(), "=") {
            let ghost prev = pairs@;
            let ghost (kv, vv) = (k@, v@);
            pairs.push((k, v));
            assert(option_views(pairs@) =~= option_views(prev).push((kv, vv)));
        }
        i += 1;
    }
    assert(t.take(i as int) =~= t);
    Query { pairs }
}

// ---------------------------------------------------------------- the outbox

/// A reply that came no earlier than the query asks for, as far as both times can be
/// read.
pub open spec fn late_enough(since: Seq<char>, finished: Seq<char>) -> bool {
    since.len() == 0 || finished.len() == 0 || match (iso_millis(since), iso_millis(finished)) {
        (Ok(s), Ok(f)) => f >= s,
        _ => true,
    }
}

/// A reply that a query asks for: by the task, by the one it is for, by its time. An
/// empty value asks for all.
pub open spec fn wanted(
    e: (Seq<char>, Option<JsonView>),
    q: Seq<(Seq<char>, Seq<char>)>,
) -> bool {
    let (id, v) = e;
    (asked(q, "task_id"@).len() == 0 || asked(q, "task_id"@) == id) && match v {
        Some(r) => (asked(q, "from"@).len() == 0 || asked(q, "from"@) == r.text_or(
            "to"@,
            seq![],
        )) && late_enough(asked(q, "since"@), r.text_or("finished_at"@, seq![])),
        None => false,
    }
}

/// The replies that a query asks for.
pub open spec fn wanted_replies(
    e: Seq<(Seq<char>, Option<JsonView>)>,
    q: Seq<(Seq<char>, Seq<char>)>,
) -> Seq<JsonView>
    decreases e.len(),
{
    if e.len() == 0 {
        seq![]
    } else if wanted(e.last(), q) {
        wanted_replies(e.drop_last(), q).push(e.last().1->0)
    } else {
        wanted_replies(e.drop_last(), q)
    }
}

/// The files of the replies that a query asks for.
pub open spec fn wanted_files(
    queue: Seq<char>,
    e: Seq<(Seq<char>, Option<JsonView>)>,
    q: Seq<(Seq<char>, Seq<char>)>,
) -> Seq<Seq<char>>
    decreases e.len(),
{
    if e.len() == 0 {
        seq![]
    } else if wanted(e.last(), q) {
        wanted_files(queue, e.drop_last(), q).push(outbox_file(queue, e.last().0))
    } else {
        wanted_files(queue, e.drop_last(), q)
    }
}

/// The files that are removed: those of the replies that a query consumes.
pub open spec fn consumed_files(
    queue: Seq<char>,
    e: Seq<(Seq<char>, Option<JsonView>)>,
    q: Seq<(Seq<char>, Seq<char>)>,
) -> Seq<Seq<char>> {
    if asks(q, "consume"@) {
        wanted_files(queue, e, q)
    } else {
        seq![]
    }
}

fn is_late_enough(since: &str, finished: &str) -> (r: bool)
    ensures
        r == late_enough(since@, finished@),
{
    if since.is_empty() || finished.is_empty() {
        return true;
    }
    match (parse_iso_ms(since), parse_iso_ms(finished)) {
        (Ok(s), Ok(f)) => f >= s,
        _ => true,
    }
}

/// The replies that a query asks for, and the files to be removed where it consumes
/// them.
pub fn bus_outbox(cfg: &Config, e: &Vec<Entry>, q: &Query) -> (r: (Json, Vec<String>))
    ensures
        texts(r.1@) == consumed_files(cfg.queue_dir@, entries(e@), q.texts()),
        r.0@ == JsonView::object().put("ok"@, JsonView::Bool(true)).put(
            "results"@,
            JsonView::Arr(wanted_replies(entries(e@), q.texts())),
        ).put(
            "consumed"@,
            JsonView::Int(
                consumed_files(cfg.queue_dir@, entries(e@), q.texts()).len() as int,
            ),
        ),
{
    proof {
        reveal_strlit("");
        assert(""@ =~= seq![]);
    }
    let by_id = q.get_or_empty("task_id");
    let from = q.get_or_empty("from");
    let since = q.get_or_empty("since");
    let consume = does_ask(q, "consume");
    let ghost t = entries(e@);
    let ghost qt = q.texts();
    let ghost queue = cfg.queue_dir@;
    let mut found: Vec<Json> = Vec::new();
    let mut gone: Vec<String> = Vec::new();
    let mut i: usize = 0;
    assert(t.take(0) =~= seq![]);
    assert(views(found@) =~= seq![]);
    assert(texts(gone@) =~= seq![]);
    while i < e.len()
        invariant
            i <= e@.len(),
            t == entries(e@),
            qt == q.texts(),
            queue == cfg.queue_dir@,
            ""@ == Seq::<char>::empty(),
            by_id@ == asked(qt, "task_id"@),
            from@ == asked(qt, "from"@),
            since@ == asked(qt, "since"@),
            consume == asks(qt, "consume"@),
            views(found@) == wanted_replies(t.take(i as int), qt),
            texts(gone@) == if consume {
                wanted_files(queue, t.take(i as int), qt)
            } else {
                seq![]
            },
        decreases e@.len() - i,
    {
        let id = e[i].id.as_str();
        proof {
            assert(t.take(i + 1).drop_last() =~= t.take(i as int));
            assert(t.take(i + 1).last() == (e@[i as int].id@, maybe_value(e@[i as int].value)));
        }
        if let Some(v) = &e[i].value {
            let to = v.text_or("to", "");
            let fin = v.text_or("finished_at", "");
            if (by_id.as_str().is_empty() || same(by_id.as_str(), id)) && (from.as_str().is_empty()
                || same(from.as_str(), to.as_str())) && is_late_enough(
                since.as_str(),
                fin.as_str(),
            ) {
                let ghost f0 = views(found@);
                let ghost g0 = texts(gone@);
                found.push(v.copy());
                assert(views(found@) =~= f0.push(v@));
                if consume {
                    gone.push(outbox_path(cfg, id));
                    assert(texts(gone@) =~= g0.push(outbox_file(queue, id@)));
                }
            }
        }
        i += 1;
    }
    assert(t.take(i as int) =~= t);
    assert(texts(gone@).len() == gone@.len());
    let n: usize = gone.len();
    let reply = Json::object().with("ok", Json::Bool(true)).with("results", Json::array(found)).with(
        "consumed",
        Json::Uint(n as u64),
    );
    (reply, gone)
}

// ---------------------------------------------------------------- the status

/// The last ten, the latest first.
pub open spec fn latest(e: Seq<(Seq<char>, Option<JsonView>)>) -> Seq<
    (Seq<char>, Option<JsonView>),
> {
    let n = if e.len() < 10 {
        e.len()
    } else {
        10
    };
    Seq::new(n, |i: int| e[e.len() - 1 - i])
}

/// The last ten, the latest first.
pub fn latest_entries(e: &Vec<Entry>) -> (r: Vec<Entry>)
    ensures
        entries(r@) == latest(entries(e@)),
{
    let ghost t = entries(e@);
    let n: usize = if e.len() < 10 {
        e.len()
    } else {
        10
    };
    let mut out: Vec<Entry> = Vec::new();
    let mut i: usize = 0;
    while i < n
        invariant
            i <= n <= e@.len(),
            t == entries(e@),
            out@.len() == i,
            forall|j: int|
                0 <= j < i ==> ((#[trigger] out@[j]).id@, maybe_value(out@[j].value)) == t[t.len()
                    - 1 - j],
        decreases n - i,
    {
        let k: usize = e.len() - 1 - i;
        assert(t[k as int] == (e@[k as int].id@, maybe_value(e@[k as int].value)));
        let value = match &e[k].value {
            Some(task) => Some(task.copy()),
            None => None,
        };
        out.push(Entry { id: e[k].id.clone(), value });
        i += 1;
    }
    assert(entries(out@) =~= latest(t));
    out
}

/// The names of the replies, once there is one for each task that waited too long.
pub open spec fn replies_after(
    outbox: Seq<Seq<char>>,
    e: Seq<(Seq<char>, Option<JsonView>)>,
    now_ms: int,
) -> Seq<Seq<char>>
    decreases e.len(),
{
    if e.len() == 0 {
        outbox
    } else {
        let before = replies_after(outbox, e.drop_last(), now_ms);
        let name = e.last().0 + ".json"@;
        match e.last().1 {
            Some(task) if expired(task, now_ms) && !before.contains(name) => before.push(name),
            _ => before,
        }
    }
}

/// The names of the replies, once there is one for each task that waited too long.
pub fn replies_with_late(outbox: &Vec<String>, e: &Vec<Entry>, now_ms: u64) -> (r: Vec<String>)
    ensures
        texts(r@) == replies_after(texts(outbox@), entries(e@), now_ms as int),
{
    let mut out: Vec<String> = outbox.clone();
    let ghost o = texts(outbox@);
    let ghost t = entries(e@);
    let mut i: usize = 0;
    assert(t.take(0) =~= seq![]);
    assert(texts(out@) =~= o);
    while i < e.len()
        invariant
            i <= e@.len(),
            o == texts(outbox@),
            t == entries(e@),
            texts(out@) == replies_after(o, t.take(i as int), now_ms as int),
        decreases e@.len() - i,
    {
        proof {
            assert(t.take(i + 1).drop_last() =~= t.take(i as int));
            assert(t.take(i + 1).last() == (e@[i as int].id@, maybe_value(e@[i as int].value)));
        }
        if let Some(task) = &e[i].value {
            let ghost prev = texts(out@);
            let name = cat(e[i].id.as_str(), ".json");
            let there = among(name.as_str(), &out);
            if is_expired(task, now_ms) && !there {
                let ghost n = name@;
                out.push(name);
                assert(texts(out@) =~= prev.push(n));
            }
        }
        i += 1;
    }
    assert(t.take(i as int) =~= t);
    out
}

/// How many tasks are in a state.
pub open spec fn count_status(e: Seq<(Seq<char>, Option<JsonView>)>, st: Seq<char>) -> nat
    decreases e.len(),
{
    if e.len() == 0 {
        0
    } else {
        count_status(e.drop_last(), st) + match e.last().1 {
            Some(task) if status(task) == st => 1nat,
            _ => 0nat,
        }
    }
}

/// A task as the status shows it.
pub open spec fn shown(id: Seq<char>, task: JsonView) -> JsonView {
    JsonView::object().put("task_id"@, JsonView::Str(id)).put("from"@, task.at("from"@)).put(
        "target"@,
        task.at("target"@),
    ).put("action"@, task.at("action"@)).put("status"@, JsonView::Str(status(task))).put(
        "created_at"@,
        task.at("created_at"@),
    )
}

/// The tasks as the status shows them.
pub open spec fn shown_all(e: Seq<(Seq<char>, Option<JsonView>)>) -> Seq<JsonView>
    decreases e.len(),
{
    if e.len() == 0 {
        seq![]
    } else {
        match e.last().1 {
            Some(task) => shown_all(e.drop_last()).push(shown(e.last().0, task)),
            None => shown_all(e.drop_last()),
        }
    }
}

/// The status of the bus.
pub open spec fn bus_state(e: Seq<(Seq<char>, Option<JsonView>)>, outbox: nat) -> JsonView {
    let stats = JsonView::object().put(
        "queued"@,
        JsonView::Int(count_status(e, "queued"@) as int),
    ).put("processing"@, JsonView::Int(count_status(e, "processing"@) as int)).put(
        "done"@,
        JsonView::Int(count_status(e, "done"@) as int),
    ).put("failed"@, JsonView::Int(count_status(e, "failed"@) as int));
    JsonView::object().put("ok"@, JsonView::Bool(true)).put("stats"@, stats).put(
        "outbox_count"@,
        JsonView::Int(outbox as int),
    ).put("recent"@, JsonView::Arr(shown_all(e)))
}

fn count_in(e: &Vec<Entry>, st: &str) -> (r: u64)
    ensures
        r == count_status(entries(e@), st@),
{
    proof {
        reveal_strlit("");
        assert(""@ =~= seq![]);
    }
    let ghost t = entries(e@);
    let mut n: u64 = 0;
    let mut i: usize = 0;
    assert(t.take(0) =~= seq![]);
    while i < e.len()
        invariant
            i <= e@.len(),
            t == entries(e@),
            ""@ == Seq::<char>::empty(),
            n == count_status(t.take(i as int), st@),
            n <= i,
        decreases e@.len() - i,
    {
        proof {
            assert(t.take(i + 1).drop_last() =~= t.take(i as int));
            assert(t.take(i + 1).last() == (e@[i as int].id@, maybe_value(e@[i as int].value)));
        }
        if let Some(task) = &e[i].value {
            if same(task.text_or("status", "").as_str(), st) {
                n += 1;
            }
        }
        i += 1;
    }
    assert(t.take(i as int) =~= t);
    n
}

/// The tasks that waited too long are closed, and the answer shows the latest tasks, with
/// how many replies there are then.
pub open spec fn shown_at(
    a: Answer,
    queue: Seq<char>,
    e: Seq<(Seq<char>, Option<JsonView>)>,
    outbox: Seq<Seq<char>>,
    now_ms: int,
    now: Seq<char>,
) -> bool {
    a.reply@ == bus_state(
        latest(swept(e, now_ms, now)),
        replies_after(outbox, e, now_ms).len(),
    ) && writes(a.files@) == sweep(queue, e, now_ms, now)
}

/// Closes the tasks that waited too long, and shows the latest tasks of all of them.
pub fn status_task(
    cfg: &Config,
    e: &Vec<Entry>,
    outbox: &Vec<String>,
    now_ms: u64,
    now: &str,
) -> (r: Answer)
    ensures
        shown_at(r, cfg.queue_dir@, entries(e@), texts(outbox@), now_ms as int, now@),
{
    let live = latest_entries(&swept_entries(e, now_ms, now));
    let replies = replies_with_late(outbox, e, now_ms);
    assert(texts(replies@).len() == replies@.len());
    Answer {
        reply: state_of(&live, replies.len()),
        files: sweep_expired(cfg, e, now_ms, now),
    }
}

/// Closes the tasks that waited too long, and shows the latest tasks, as of now. At which
/// moment it ran is left open.
pub fn bus_status(cfg: &Config, e: &Vec<Entry>, outbox: &Vec<String>) -> (r: Answer)
    ensures
        exists|ms: u64, t: Moment|
            valid_moment(t) && #[trigger] shown_at(
                r,
                cfg.queue_dir@,
                entries(e@),
                texts(outbox@),
                ms as int,
                iso_text(t),
            ),
{
    let ms: u64 = now_ms();
    let now = now_iso();
    status_task(cfg, e, outbox, ms, now.as_str())
}

/// The status of the bus, given its latest tasks and how many replies there are.
fn state_of(e: &Vec<Entry>, outbox: usize) -> (r: Json)
    ensures
        r@ == bus_state(entries(e@), outbox as nat),
{
    proof {
        reveal_strlit("");
        assert(""@ =~= seq![]);
    }
    let ghost t = entries(e@);
    let mut recent: Vec<Json> = Vec::new();
    let mut i: usize = 0;
    assert(t.take(0) =~= seq![]);
    assert(views(recent@) =~= seq![]);
    while i < e.len()
        invariant
            i <= e@.len(),
            t == entries(e@),
            ""@ == Seq::<char>::empty(),
            views(recent@) == shown_all(t.take(i as int)),
        decreases e@.len() - i,
    {
        proof {
            assert(t.take(i + 1).drop_last() =~= t.take(i as int));
            assert(t.take(i + 1).last() == (e@[i as int].id@, maybe_value(e@[i as int].value)));
        }
        if let Some(task) = &e[i].value {
            let ghost prev = views(recent@);
            let x = Json::object().with("task_id", Json::text(e[i].id.as_str())).with(
                "from",
                task.at("from"),
            ).with("target", task.at("target")).with("action", task.at("action")).with(
                "status",
                Json::text(task.text_or("status", "").as_str()),
            ).with("created_at", task.at("created_at"));
            let ghost xv = x@;
            recent.push(x);
            assert(views(recent@) =~= prev.push(xv));
        }
        i += 1;
    }
    assert(t.take(i as int) =~= t);
    let stats = Json::object().with("queued", Json::Uint(count_in(e, "queued"))).with(
        "processing",
        Json::Uint(count_in(e, "processing")),
    ).with("done", Json::Uint(count_in(e, "done"))).with(
        "failed",
        Json::Uint(count_in(e, "failed")),
    );
    Json::object().with("ok", Json::Bool(true)).with("stats", stats).with(
        "outbox_count",
        Json::Uint(outbox as u64),
    ).with("recent", Json::array(recent))
}

// ---------------------------------------------------------------- laws

/// The steps that a task can take: from queued to processing, and from either to
/// done or failed.
pub open spec fn step(a: Seq<char>, b: Seq<char>) -> bool {
    ||| a == "queued"@ && b == "processing"@
    ||| (a == "queued"@ || a == "processing"@) && (b == "done"@ || b == "failed"@)
}

proof fn states_differ()
    ensures
        "queued"@ != "processing"@,
        "queued"@ != "done"@,
        "queued"@ != "failed"@,
        "processing"@ != "done"@,
        "processing"@ != "failed"@,
{
    reveal_strlit("queued");
    reveal_strlit("processing");
    reveal_strlit("done");
    reveal_strlit("failed");
    assert("queued"@[0] == 'q');
    assert("processing"@[0] == 'p');
    assert("done"@[0] == 'd');
    assert("failed"@[0] == 'f');
}

proof fn keys_differ()
    ensures
        "status"@ != "finished_at"@,
        "status"@ != "started_at"@,
        "status"@ != "created_at"@,
        "status"@ != "error"@,
        "status"@ != "reply"@,
        "status"@ != "task_id"@,
        "status"@ != "from"@,
        "status"@ != "target"@,
        "status"@ != "action"@,
        "status"@ != "payload"@,
        "status"@ != "ttl_sec"@,
{
    reveal_strlit("status");
    reveal_strlit("finished_at");
    reveal_strlit("started_at");
    reveal_strlit("created_at");
    reveal_strlit("error");
    reveal_strlit("reply");
    reveal_strlit("task_id");
    reveal_strlit("from");
    reveal_strlit("target");
    reveal_strlit("action");
    reveal_strlit("payload");
    reveal_strlit("ttl_sec");
    assert("status"@.len() == 6 && "status"@[0] == 's');
    assert("action"@[0] == 'a');
}

/// The states after each of the operations.
pub proof fn states_after(task: JsonView, body: JsonView, id: Seq<char>, now: Seq<char>)
    ensures
        status(new_task(body, id, now)) == "queued"@,
        status(processing(task, now)) == "processing"@,
        status(answered(task, body, now)) == end_status(body.flag("ok"@)),
        status(failed_late(task, now)) == "failed"@,
{
    keys_differ();
    let st = "status"@;
    let p = task.put(st, JsonView::Str("processing"@));
    put_then_get(task, st, JsonView::Str("processing"@), st);
    put_then_get(p, "started_at"@, JsonView::Str(now), st);
    let end = JsonView::Str(end_status(body.flag("ok"@)));
    let a = task.put(st, end);
    put_then_get(task, st, end, st);
    let b = a.put("finished_at"@, JsonView::Str(now));
    put_then_get(a, "finished_at"@, JsonView::Str(now), st);
    let inner = JsonView::object().put("ok"@, JsonView::Bool(body.flag("ok"@))).put(
        "result"@,
        body.at("result"@),
    ).put("error"@, body.at("error"@));
    put_then_get(b, "reply"@, inner, st);
    let failed = JsonView::Str("failed"@);
    let f = task.put(st, failed);
    put_then_get(task, st, failed, st);
    let late = JsonView::Str("TTL expired"@);
    put_then_get(f, "error"@, late, st);
    put_then_get(f.put("error"@, late), "finished_at"@, JsonView::Str(now), st);
    new_task_fields(body, id, now);
}

/// What a task holds when it is made.
pub proof fn new_task_fields(body: JsonView, id: Seq<char>, now: Seq<char>)
    ensures
        ({
            let t = new_task(body, id, now);
            &&& t.at("from"@) == JsonView::Str(body.text_or("from"@, seq![]))
            &&& t.at("target"@) == JsonView::Str(body.text_or("target"@, "any"@))
            &&& t.at("action"@) == JsonView::Str(body.text_or("action"@, seq![]))
            &&& t.at("payload"@) == body.at("payload"@)
            &&& t.at("status"@) == JsonView::Str("queued"@)
            &&& t.at("created_at"@) == JsonView::Str(now)
            &&& t.at("ttl_sec"@) == JsonView::Int(ttl(body))
        }),
{
    reveal_strlit("status");
    reveal_strlit("finished_at");
    reveal_strlit("started_at");
    reveal_strlit("created_at");
    reveal_strlit("reply");
    reveal_strlit("task_id");
    reveal_strlit("from");
    reveal_strlit("target");
    reveal_strlit("action");
    reveal_strlit("payload");
    reveal_strlit("ttl_sec");
    let (k0, k1, k2, k3, k4, k5, k6, k7, k8, k9, k10) = (
        "task_id"@,
        "from"@,
        "target"@,
        "action"@,
        "payload"@,
        "ttl_sec"@,
        "status"@,
        "created_at"@,
        "started_at"@,
        "finished_at"@,
        "reply"@,
    );
    assert(k1.len() == 4 && k2.len() == 6 && k3.len() == 6 && k4.len() == 7 && k5.len() == 7
        && k6.len() == 6 && k7.len() == 10 && k8.len() == 10 && k9.len() == 11 && k10.len() == 5
        && k0.len() == 7);
    assert(k2[0] == 't' && k3[0] == 'a' && k6[0] == 's');
    assert(k0[1] == 'a' && k4[0] == 'p' && k5[1] == 't' && k0[0] == 't' && k5[0] == 't');
    assert(k7[0] == 'c' && k8[0] == 's');
    let null = JsonView::Null;
    let v1 = JsonView::Str(body.text_or(k1, seq![]));
    let v2 = JsonView::Str(body.text_or(k2, "any"@));
    let v3 = JsonView::Str(body.text_or(k3, seq![]));
    let v4 = body.at(k4);
    let v5 = JsonView::Int(ttl(body));
    let v6 = JsonView::Str("queued"@);
    let v7 = JsonView::Str(now);
    let t0 = JsonView::object().put(k0, JsonView::Str(id));
    let t1 = t0.put(k1, v1);
    let t2 = t1.put(k2, v2);
    let t3 = t2.put(k3, v3);
    let t4 = t3.put(k4, v4);
    let t5 = t4.put(k5, v5);
    let t6 = t5.put(k6, v6);
    let t7 = t6.put(k7, v7);
    let t8 = t7.put(k8, null);
    let t9 = t8.put(k9, null);
    assert forall|q: Seq<char>| q != k8 && q != k9 && q != k10 implies #[trigger] new_task(
        body,
        id,
        now,
    ).get(q) == t7.get(q) by {
        put_then_get(t7, k8, null, q);
        put_then_get(t8, k9, null, q);
        put_then_get(t9, k10, null, q);
    }
    put_then_get(t6, k7, v7, k7);
    assert forall|q: Seq<char>| q != k7 implies #[trigger] t7.get(q) == t6.get(q) by {
        put_then_get(t6, k7, v7, q);
    }
    put_then_get(t5, k6, v6, k6);
    assert forall|q: Seq<char>| q != k6 implies #[trigger] t6.get(q) == t5.get(q) by {
        put_then_get(t5, k6, v6, q);
    }
    put_then_get(t4, k5, v5, k5);
    assert forall|q: Seq<char>| q != k5 implies #[trigger] t5.get(q) == t4.get(q) by {
        put_then_get(t4, k5, v5, q);
    }
    put_then_get(t3, k4, v4, k4);
    assert forall|q: Seq<char>| q != k4 implies #[trigger] t4.get(q) == t3.get(q) by {
        put_then_get(t3, k4, v4, q);
    }
    put_then_get(t2, k3, v3, k3);
    assert forall|q: Seq<char>| q != k3 implies #[trigger] t3.get(q) == t2.get(q) by {
        put_then_get(t2, k3, v3, q);
    }
    put_then_get(t1, k2, v2, k2);
    put_then_get(t1, k2, v2, k1);
    put_then_get(t0, k1, v1, k1);
}

/// A task moves only by the steps there are: what waits is handed out as being
/// processed, what is open is answered as done or failed, what waited too long
/// fails.
pub proof fn tasks_move_by_steps(
    task: JsonView,
    body: JsonView,
    target: Seq<char>,
    now_ms: int,
    now: Seq<char>,
)
    ensures
        waits_for(task, target) ==> step(status(task), status(processing(task, now))),
        open_for_reply(task) ==> step(status(task), status(answered(task, body, now))),
        expired(task, now_ms) ==> step(status(task), status(failed_late(task, now))),
{
    states_after(task, body, seq![], now);
}

/// A task that was handed out is not handed out again: it waits for no one.
pub proof fn handed_out_once(task: JsonView, now: Seq<char>, target: Seq<char>)
    ensures
        !waits_for(processing(task, now), target),
{
    states_differ();
    states_after(task, task, seq![], now);
}

/// A task that was answered, and is read from its file, is neither handed out nor
/// answered again, whatever the second reply says.
pub proof fn answered_once(
    task: JsonView,
    body: JsonView,
    now: Seq<char>,
    file: Seq<char>,
    again: JsonView,
    target: Seq<char>,
)
    requires
        reads_as(file, answered(task, body, now)),
        again.text_or("task_id"@, seq![]).len() > 0,
    ensures
        reply_refusal(again, value_read(Some(file))) == Some(
            "任务状态 "@ + end_status(body.flag("ok"@)) + " 不可回复"@,
        ),
        !waiting((again.text_or("task_id"@, seq![]), value_read(Some(file))), target),
{
    states_differ();
    states_after(task, body, seq![], now);
}

/// The time that is written into a task is read as the moment that it is of, by universal
/// time, where four digits hold the year.
pub proof fn written_time_is_read(t: Moment)
    requires
        valid_moment(t),
        0 <= t.year < 10000,
    ensures
        iso_millis(iso_text(t)) == Ok::<u64, Seq<char>>(
            utc_millis(t.year, t.month, t.day, t.hour, t.minute, t.second) as u64,
        ),
{
    reveal_strlit("");
    reveal_strlit(" ");
    reveal_strlit("-");
    reveal_strlit(":");
    reveal_strlit(".");
    reveal_strlit("T");
    reveal_strlit("Z");
    assert(""@ =~= seq![]);
    assert(" "@ =~= seq![' ']);
    assert("-"@ =~= seq!['-']);
    assert(":"@ =~= seq![':']);
    assert("."@ =~= seq!['.']);
    assert("T"@ =~= seq!['T']);
    assert("Z"@ =~= seq!['Z']);
    let (y, mo, d) = (four(t.year), two(t.month), two(t.day));
    let (h, mi, s) = (two(t.hour), two(t.minute), two(t.second));
    four_reads_back(t.year);
    two_reads_back(t.month);
    two_reads_back(t.day);
    two_reads_back(t.hour);
    two_reads_back(t.minute);
    two_reads_back(t.second);
    two_reads_back(t.milli % 100);
    let f = seq![digit_char((t.milli / 100) as nat)] + two(t.milli % 100);
    let date = date_text(t);
    let time = time_text(t);
    assert(date =~= y + seq!['-'] + (mo + seq!['-'] + d));
    assert(time =~= h + seq![':'] + (mi + seq![':'] + s));
    let rest = time + seq!['.'] + f + seq!['Z'];
    let all = iso_text(t);
    assert(all =~= date + seq!['T'] + rest);
    replaced_once(date, 'T', rest, seq![' ']);
    let a = date + seq![' '] + time + seq!['.'] + f;
    assert(date + seq![' '] + rest =~= a + seq!['Z'] + seq![]);
    replaced_once(a, 'Z', seq![], seq![]);
    assert(a + Seq::<char>::empty() + Seq::<char>::empty() =~= a);
    let b = date + seq![' '] + time;
    assert(a =~= b + seq!['.'] + f);
    split_behind(b, '.', f);
    two_words(date, time);
    split_behind(y, '-', mo + seq!['-'] + d);
    split_behind(mo, '-', d);
    not_found(d, '-');
    split_behind(h, ':', mi + seq![':'] + s);
    split_behind(mi, ':', s);
    not_found(s, ':');
    let ds = split(date, "-"@);
    let ts = split(time, ":"@);
    assert(ds =~= seq![y, mo, d]);
    assert(ts =~= seq![h, mi, s]);
}

/// A task that was sent at a moment has waited too long exactly where now is later than
/// its time to live after that moment.
pub proof fn sent_task_expires(body: JsonView, id: Seq<char>, t: Moment, now: int)
    requires
        valid_moment(t),
        1970 <= t.year < 10000,
    ensures
        expired(new_task(body, id, iso_text(t)), now) == (now > utc_millis(
            t.year,
            t.month,
            t.day,
            t.hour,
            t.minute,
            t.second,
        ) + ttl(body) * 1000),
{
    written_time_is_read(t);
    new_task_fields(body, id, iso_text(t));
    late_years(t);
}

/// A task that waited too long is neither handed out nor answered.
pub proof fn late_task_is_closed(task: JsonView, now: Seq<char>, target: Seq<char>)
    ensures
        !waits_for(failed_late(task, now), target),
        !open_for_reply(failed_late(task, now)),
{
    states_differ();
    states_after(task, task, seq![], now);
}

/// The first task that waits for `target` is one that does, with none before it; none is
/// given only where none waits.
pub proof fn first_comes_first(e: Seq<(Seq<char>, Option<JsonView>)>, target: Seq<char>)
    ensures
        match first_waiting(e, target) {
            Some((id, task)) => exists|i: int|
                0 <= i < e.len() && #[trigger] e[i] == (id, Some(task)) && waiting(e[i], target) && (
                forall|j: int| 0 <= j < i ==> !waiting(#[trigger] e[j], target)),
            None => forall|i: int| 0 <= i < e.len() ==> !waiting(#[trigger] e[i], target),
        },
    decreases e.len(),
{
    if e.len() > 0 {
        if waiting(e[0], target) {
            assert(e[0] == (e[0].0, Some(e[0].1->0)));
        } else {
            let t = e.skip(1);
            first_comes_first(t, target);
            match first_waiting(t, target) {
                Some((id, task)) => {
                    let k = choose|k: int|
                        0 <= k < t.len() && #[trigger] t[k] == (id, Some(task)) && waiting(
                            t[k],
                            target,
                        ) && (forall|j: int| 0 <= j < k ==> !waiting(#[trigger] t[j], target));
                    assert(e[k + 1] == t[k]);
                    assert forall|j: int| 0 <= j < k + 1 implies !waiting(
                        #[trigger] e[j],
                        target,
                    ) by {
                        if j > 0 {
                            assert(e[j] == t[j - 1]);
                        }
                    }
                },
                None => {
                    assert forall|i: int| 0 <= i < e.len() implies !waiting(
                        #[trigger] e[i],
                        target,
                    ) by {
                        if i > 0 {
                            assert(e[i] == t[i - 1]);
                        }
                    }
                },
            }
        }
    }
}

/// A task that is handed out is one of those in the queue, waits for `target`, and has not
/// waited too long.
pub proof fn handed_out_is_live(
    e: Seq<(Seq<char>, Option<JsonView>)>,
    target: Seq<char>,
    now_ms: int,
    now: Seq<char>,
)
    ensures
        first_waiting(swept(e, now_ms, now), target) matches Some((id, task)) ==> e.contains(
            (id, Some(task)),
        ) && waits_for(task, target) && !expired(task, now_ms),
    decreases e.len(),
{
    let s = swept(e, now_ms, now);
    if e.len() > 0 {
        assert(s[0] == closed_late(e[0], now_ms, now));
        if waiting(s[0], target) {
            if let Some(task) = e[0].1 {
                late_task_is_closed(task, now, target);
            }
            assert(s[0] == e[0]);
            assert(e[0] == (e[0].0, Some(e[0].1->0)));
            assert(e.contains(e[0]));
        } else {
            assert(s.skip(1) =~= swept(e.skip(1), now_ms, now));
            handed_out_is_live(e.skip(1), target, now_ms, now);
            if let Some((id, task)) = first_waiting(s, target) {
                let k = choose|k: int|
                    0 <= k < e.skip(1).len() && e.skip(1)[k] == (id, Some(task));
                assert(e[k + 1] == (id, Some(task)));
            }
        }
    }
}

/// Where a task waits for `target` that has not waited too long, one is handed out.
pub proof fn live_task_is_found(
    e: Seq<(Seq<char>, Option<JsonView>)>,
    target: Seq<char>,
    now_ms: int,
    now: Seq<char>,
    i: int,
)
    requires
        0 <= i < e.len(),
        waiting(e[i], target),
        !expired(e[i].1->0, now_ms),
    ensures
        first_waiting(swept(e, now_ms, now), target) is Some,
    decreases e.len(),
{
    let s = swept(e, now_ms, now);
    assert(s[i] == closed_late(e[i], now_ms, now));
    if !waiting(s[0], target) {
        assert(i > 0);
        assert(s.skip(1) =~= swept(e.skip(1), now_ms, now));
        assert(e.skip(1)[i - 1] == e[i]);
        live_task_is_found(e.skip(1), target, now_ms, now, i - 1);
    }
}

/// A task that was sent, and is read from its file, waits for the one it is for, and
/// is handed out with the sender, the action and the payload that were sent.
pub proof fn sent_task_arrives(
    body: JsonView,
    id: Seq<char>,
    now: Seq<char>,
    file: Seq<char>,
    target: Seq<char>,
    later: Seq<char>,
)
    requires
        reads_as(file, new_task(body, id, now)),
    ensures
        ({
            let to = body.text_or("target"@, "any"@);
            let t = new_task(body, id, now);
            let out = hand_out(id, processing(t, later)).at("task"@);
            &&& waiting((id, value_read(Some(file))), target) == (target.len() == 0 || to == target
                || to == "any"@)
            &&& out.at("from"@) == JsonView::Str(body.text_or("from"@, seq![]))
            &&& out.at("action"@) == JsonView::Str(body.text_or("action"@, seq![]))
            &&& out.at("payload"@) == body.at("payload"@)
        }),
{
    new_task_fields(body, id, now);
    let t = new_task(body, id, now);
    let p = processing(t, later);
    reveal_strlit("status");
    reveal_strlit("started_at");
    reveal_strlit("created_at");
    reveal_strlit("task_id");
    reveal_strlit("from");
    reveal_strlit("target");
    reveal_strlit("action");
    reveal_strlit("payload");
    let (kf, ka, kp, kt, ks, kb, ki, kc) = (
        "from"@,
        "action"@,
        "payload"@,
        "target"@,
        "status"@,
        "started_at"@,
        "task_id"@,
        "created_at"@,
    );
    assert(kf.len() == 4 && ka.len() == 6 && kp.len() == 7 && kt.len() == 6 && ks.len() == 6
        && kb.len() == 10 && ki.len() == 7 && kc.len() == 10);
    assert(ka[0] == 'a' && ks[0] == 's' && kt[0] == 't' && kp[0] == 'p' && ki[0] == 't');
    assert forall|q: Seq<char>| q != ks && q != kb implies #[trigger] p.get(q) == t.get(q) by {
        put_then_get(t, ks, JsonView::Str("processing"@), q);
        put_then_get(t.put(ks, JsonView::Str("processing"@)), kb, JsonView::Str(later), q);
    }
    let o0 = JsonView::object().put(ki, JsonView::Str(id));
    let o1 = o0.put(kf, p.at(kf));
    let o2 = o1.put(kt, p.at(kt));
    let o3 = o2.put(ka, p.at(ka));
    let o4 = o3.put(kp, p.at(kp));
    let o5 = o4.put(kc, p.at(kc));
    assert forall|q: Seq<char>| q != kc implies #[trigger] o5.get(q) == o4.get(q) by {
        put_then_get(o4, kc, p.at(kc), q);
    }
    put_then_get(o3, kp, p.at(kp), kp);
    put_then_get(o3, kp, p.at(kp), ka);
    put_then_get(o3, kp, p.at(kp), kf);
    put_then_get(o2, ka, p.at(ka), ka);
    put_then_get(o2, ka, p.at(ka), kf);
    put_then_get(o1, kt, p.at(kt), kf);
    put_then_get(o0, kf, p.at(kf), kf);
    put_then_get(JsonView::object().put("ok"@, JsonView::Bool(true)), "task"@, o5, "task"@);
    assert(hand_out(id, p).at("task"@) == o5);
}

/// A task is written in a form that can be read again, where what was sent with it
/// can be.
pub proof fn sent_task_is_readable(body: JsonView, id: Seq<char>, now: Seq<char>)
    requires
        body.at("payload"@).orderly(),
        body.at("payload"@).simple((max_depth() - 1) as nat),
    ensures
        new_task(body, id, now).orderly(),
        new_task(body, id, now).simple(max_depth()),
{
    broadcast use put_keeps_orderly;
    broadcast use put_keeps_simple;

    assert(JsonView::object().simple(max_depth()));
}

/// A reply goes back to the one that sent the task, with its result.
pub proof fn reply_goes_back(id: Seq<char>, task: JsonView, body: JsonView, now: Seq<char>)
    ensures
        ({
            let r = reply_out(id, task, body, now);
            &&& r.at("to"@) == task.at("from"@)
            &&& r.at("task_id"@) == JsonView::Str(id)
            &&& r.at("result"@) == body.at("result"@)
            &&& r.at("error"@) == body.at("error"@)
        }),
{
    keys_differ();
    reveal_strlit("from");
    reveal_strlit("finished_at");
    reveal_strlit("reply");
    reveal_strlit("task_id");
    reveal_strlit("to");
    reveal_strlit("ok");
    reveal_strlit("result");
    reveal_strlit("error");
    let (ki, kf, kt, ko, kr, ke, kn, kb) = (
        "task_id"@,
        "from"@,
        "to"@,
        "ok"@,
        "result"@,
        "error"@,
        "finished_at"@,
        "reply"@,
    );
    assert(ki.len() == 7 && kf.len() == 4 && kt.len() == 2 && ko.len() == 2 && kr.len() == 6
        && ke.len() == 5 && kn.len() == 11 && kb.len() == 5);
    assert(kt[0] == 't' && ko[0] == 'o');
    let d = answered(task, body, now);
    let end = JsonView::Str(end_status(body.flag("ok"@)));
    let d1 = task.put("status"@, end);
    let d2 = d1.put(kn, JsonView::Str(now));
    let inner = JsonView::object().put(ko, JsonView::Bool(body.flag("ok"@))).put(
        kr,
        body.at(kr),
    ).put(ke, body.at(ke));
    put_then_get(task, "status"@, end, kf);
    put_then_get(d1, kn, JsonView::Str(now), kf);
    put_then_get(d2, kb, inner, kf);
    assert(d.at(kf) == task.at(kf));
    let r0 = JsonView::object().put(ki, JsonView::Str(id));
    let r1 = r0.put(kf, d.at("target"@));
    let r2 = r1.put(kt, d.at(kf));
    let r3 = r2.put(ko, JsonView::Bool(body.flag("ok"@)));
    let r4 = r3.put(kr, body.at(kr));
    let r5 = r4.put(ke, body.at(ke));
    let r6 = r5.put(kn, JsonView::Str(now));
    assert forall|q: Seq<char>| q != kn implies #[trigger] r6.get(q) == r5.get(q) by {
        put_then_get(r5, kn, JsonView::Str(now), q);
    }
    put_then_get(r4, ke, body.at(ke), ke);
    assert forall|q: Seq<char>| q != ke implies #[trigger] r5.get(q) == r4.get(q) by {
        put_then_get(r4, ke, body.at(ke), q);
    }
    put_then_get(r3, kr, body.at(kr), kr);
    assert forall|q: Seq<char>| q != kr implies #[trigger] r4.get(q) == r3.get(q) by {
        put_then_get(r3, kr, body.at(kr), q);
    }
    assert forall|q: Seq<char>| q != ko implies #[trigger] r3.get(q) == r2.get(q) by {
        put_then_get(r2, ko, JsonView::Bool(body.flag("ok"@)), q);
    }
    put_then_get(r1, kt, d.at(kf), kt);
    put_then_get(r1, kt, d.at(kf), ki);
    put_then_get(r0, kf, d.at("target"@), ki);
    put_then_get(JsonView::object(), ki, JsonView::Str(id), ki);
}

/// A query that consumes removes as many files as it gives replies.
pub proof fn consumed_is_given(
    queue: Seq<char>,
    e: Seq<(Seq<char>, Option<JsonView>)>,
    q: Seq<(Seq<char>, Seq<char>)>,
)
    ensures
        consumed_files(queue, e, q).len() == if asks(q, "consume"@) {
            wanted_replies(e, q).len()
        } else {
            0
        },
{
    wanted_alike(queue, e, q);
}

proof fn wanted_alike(
    queue: Seq<char>,
    e: Seq<(Seq<char>, Option<JsonView>)>,
    q: Seq<(Seq<char>, Seq<char>)>,
)
    ensures
        wanted_files(queue, e, q).len() == wanted_replies(e, q).len(),
    decreases e.len(),
{
    if e.len() > 0 {
        wanted_alike(queue, e.drop_last(), q);
    }
}

proof fn wanted_is_given(
    e: Seq<(Seq<char>, Option<JsonView>)>,
    q: Seq<(Seq<char>, Seq<char>)>,
    x: JsonView,
)
    ensures
        wanted_replies(e, q).contains(x) <==> exists|i: int|
            0 <= i < e.len() && wanted(#[trigger] e[i], q) && e[i].1 == Some(x),
    decreases e.len(),
{
    let w = wanted_replies(e, q);
    if e.len() > 0 {
        let d = e.drop_last();
        let v = wanted_replies(d, q);
        wanted_is_given(d, q, x);
        if v.contains(x) {
            let k = choose|k: int| 0 <= k < v.len() && v[k] == x;
            assert(w[k] == x);
            let i = choose|i: int| 0 <= i < d.len() && wanted(#[trigger] d[i], q) && d[i].1 == Some(x);
            assert(wanted(e[i], q));
        }
        if wanted(e.last(), q) && e.last().1 == Some(x) {
            assert(w[w.len() - 1] == x);
            assert(wanted(e[e.len() - 1], q));
        }
        if w.contains(x) && !v.contains(x) {
            let k = choose|k: int| 0 <= k < w.len() && w[k] == x;
            if k < v.len() {
                assert(v[k] == x);
            }
            assert(wanted(e[e.len() - 1], q));
        }
        if exists|i: int| 0 <= i < e.len() && wanted(#[trigger] e[i], q) && e[i].1 == Some(x) {
            let i = choose|i: int| 0 <= i < e.len() && wanted(#[trigger] e[i], q) && e[i].1 == Some(x);
            if i < d.len() {
                assert(wanted(d[i], q) && d[i].1 == Some(x));
            }
        }
    }
}

/// A query that asks for the replies since a time, and for nothing else, is given a reply
/// whose time can be read exactly where its milliseconds are no less than those asked for.
pub proof fn replies_since_a_time(
    id: Seq<char>,
    reply: JsonView,
    q: Seq<(Seq<char>, Seq<char>)>,
    since: u64,
    finished: u64,
)
    requires
        asked(q, "task_id"@).len() == 0,
        asked(q, "from"@).len() == 0,
        asked(q, "since"@).len() > 0,
        reply.text_or("finished_at"@, seq![]).len() > 0,
        iso_millis(asked(q, "since"@)) == Ok::<u64, Seq<char>>(since),
        iso_millis(reply.text_or("finished_at"@, seq![])) == Ok::<u64, Seq<char>>(finished),
    ensures
        wanted_replies(seq![(id, Some(reply))], q).contains(reply) <==> finished >= since,
        wanted((id, Some(reply)), q) <==> finished >= since,
{
    let e = seq![(id, Some(reply))];
    wanted_is_given(e, q, reply);
    assert(e[0] == (id, Some(reply)));
    if wanted(e[0], q) {
        assert(wanted_replies(e, q).contains(reply));
    }
}

proof fn written_time_has_length(t: Moment)
    ensures
        iso_text(t).len() > 0,
{
    reveal_strlit("Z");
    assert("Z"@.len() == 1);
}

/// For two moments that are written out, a reply of the one is given to a query since the
/// other exactly where it is no earlier, to the second.
pub proof fn replies_since_a_moment(
    e: Seq<(Seq<char>, Option<JsonView>)>,
    i: int,
    reply: JsonView,
    q: Seq<(Seq<char>, Seq<char>)>,
    since: Moment,
    finished: Moment,
)
    requires
        0 <= i < e.len(),
        e[i].1 == Some(reply),
        asked(q, "task_id"@).len() == 0,
        asked(q, "from"@).len() == 0,
        asked(q, "since"@) == iso_text(since),
        reply.text_or("finished_at"@, seq![]) == iso_text(finished),
        valid_moment(since),
        valid_moment(finished),
        1970 <= since.year < 10000,
        1970 <= finished.year < 10000,
    ensures
        wanted_replies(e, q).contains(reply) <==> utc_millis(
            finished.year,
            finished.month,
            finished.day,
            finished.hour,
            finished.minute,
            finished.second,
        ) >= utc_millis(
            since.year,
            since.month,
            since.day,
            since.hour,
            since.minute,
            since.second,
        ),
{
    written_time_is_read(since);
    written_time_is_read(finished);
    late_years(since);
    late_years(finished);
    written_time_has_length(since);
    written_time_has_length(finished);
    wanted_is_given(e, q, reply);
    let f = iso_millis(iso_text(finished))->Ok_0;
    let s = iso_millis(iso_text(since))->Ok_0;
    assert forall|j: int| 0 <= j < e.len() && e[j].1 == Some(reply) implies wanted(
        #[trigger] e[j],
        q,
    ) == (f >= s) by {
        replies_since_a_time(e[j].0, reply, q, s, f);
        assert(e[j] == (e[j].0, Some(reply)));
    }
    assert(wanted(e[i], q) == (f >= s));
}

// ---------------------------------------------------------------- more laws

/// A task that is queued waits for the one it names, for everyone who asks where it names
/// no one in particular, and for whoever asks for any; one that is not queued waits for
/// nobody.
pub proof fn tasks_wait_for_their_target(task: JsonView, named: Seq<char>, target: Seq<char>)
    ensures
        task.at("status"@) == JsonView::Str("queued"@) && task.at("target"@) == JsonView::Str(
            named,
        ) ==> (waits_for(task, target) <==> target.len() == 0 || target == named || named
            == "any"@),
        task.at("status"@) == JsonView::Str("queued"@) && task.at("target"@) is Null
            ==> waits_for(task, target),
        task.at("status"@) != JsonView::Str("queued"@) ==> !waits_for(task, target),
{
    reveal_strlit("queued");
    assert("queued"@.len() == 6);
}

/// A task lives as many seconds as it says, and an hour where it does not say.
pub proof fn tasks_live_their_time(v: JsonView, n: u64)
    ensures
        v.at("ttl_sec"@) == JsonView::Int(n as int) ==> ttl(v) == n,
        v.at("ttl_sec"@) is Null ==> ttl(v) == 60 * 60,
{
}

/// A queued task that says when it was made and how long it may wait has waited too long
/// exactly when that time, taken as seconds, is over; one that is not queued never has.
pub proof fn waiting_has_an_end(task: JsonView, t: Moment, n: u64, now: int)
    requires
        valid_moment(t),
        1970 <= t.year < 10000,
        task.at("created_at"@) == JsonView::Str(iso_text(t)),
        task.at("ttl_sec"@) == JsonView::Int(n as int),
    ensures
        task.at("status"@) == JsonView::Str("queued"@) ==> (expired(task, now) <==> now
            > utc_millis(t.year, t.month, t.day, t.hour, t.minute, t.second) + n * 1000),
        task.at("status"@) != JsonView::Str("queued"@) ==> !expired(task, now),
{
    written_time_is_read(t);
    late_years(t);
    reveal_strlit("queued");
    assert("queued"@.len() == 6);
}

/// A task is taken exactly where it names a sender and an action, and where each of them is
/// on its list or the list is empty.
pub proof fn allowed_tasks_are_taken(
    from_list: Seq<Seq<char>>,
    action_list: Seq<Seq<char>>,
    body: JsonView,
    from: Seq<char>,
    action: Seq<char>,
)
    requires
        body.at("from"@) == JsonView::Str(from),
        body.at("action"@) == JsonView::Str(action),
    ensures
        send_refusal(from_list, action_list, body) is None <==> from.len() > 0 && action.len() > 0
            && (from_list.len() == 0 || from_list.contains(from)) && (action_list.len() == 0
            || action_list.contains(action)),
{
}

/// A reply is taken exactly where it names a task that is there and is not answered yet.
pub proof fn open_tasks_are_answered(body: JsonView, id: Seq<char>, task: JsonView)
    requires
        body.at("task_id"@) == JsonView::Str(id),
    ensures
        reply_refusal(body, Some(task)) is None <==> id.len() > 0 && (task.at("status"@)
            == JsonView::Str("queued"@) || task.at("status"@) == JsonView::Str("processing"@)),
        reply_refusal(body, None) is Some,
{
    reveal_strlit("queued");
    reveal_strlit("processing");
    assert("queued"@.len() == 6 && "processing"@.len() == 10);
}

/// A query is read as its keys with their values, and of two values of one key the later
/// one counts.
pub proof fn queries_are_read(k: Seq<char>, v: Seq<char>, w: Seq<char>)
    requires
        !k.contains('='),
        !k.contains('&'),
        !v.contains('&'),
        !w.contains('&'),
    ensures
        asked(query_pairs(split(k + seq!['='] + v, "&"@)), k) == v,
        asked(
            query_pairs(split((k + seq!['='] + v) + seq!['&'] + (k + seq!['='] + w), "&"@)),
            k,
        ) == w,
{
    reveal_strlit("&");
    reveal_strlit("=");
    assert("&"@ =~= seq!['&']);
    assert("="@ =~= seq!['=']);
    let (p, q) = (k + seq!['='] + v, k + seq!['='] + w);
    not_found(p, '&');
    not_found(q, '&');
    split_behind(p, '&', q);
    found_behind(k, '=', v);
    found_behind(k, '=', w);
    let one = seq![p];
    assert(one.drop_last() =~= seq![]);
    reveal_with_fuel(query_pairs, 3);
    assert(query_pairs(one) =~= seq![(k, v)]);
    let two = seq![p] + seq![q];
    assert(two.drop_last() =~= one);
    assert(query_pairs(two) =~= seq![(k, v), (k, w)]);
    assert(query_pairs(one).last() == (k, v));
    assert(query_pairs(two).last() == (k, w));
}

/// What is asked for is given: a reply whose task, receiver and time are those of the query,
/// where the query names them, and no other.
pub proof fn queries_select(
    id: Seq<char>,
    r: JsonView,
    to: Seq<char>,
    q: Seq<(Seq<char>, Seq<char>)>,
)
    requires
        r.at("to"@) == JsonView::Str(to),
        asked(q, "since"@).len() == 0,
    ensures
        wanted((id, Some(r)), q) <==> (asked(q, "task_id"@).len() == 0 || asked(q, "task_id"@)
            == id) && (asked(q, "from"@).len() == 0 || asked(q, "from"@) == to),
        !wanted((id, None), q),
{
}

/// Replies are removed only where the query says so, with `1` or with `true`.
pub proof fn replies_stay_unless_consumed(
    queue: Seq<char>,
    e: Seq<(Seq<char>, Option<JsonView>)>,
    q: Seq<(Seq<char>, Seq<char>)>,
)
    ensures
        asked(q, "consume"@) != "1"@ && asked(q, "consume"@) != "true"@ ==> consumed_files(
            queue,
            e,
            q,
        ).len() == 0,
        asked(q, "consume"@) == "1"@ || asked(q, "consume"@) == "true"@ ==> consumed_files(
            queue,
            e,
            q,
        ).len() == wanted_replies(e, q).len(),
    decreases e.len(),
{
    as_many_files(queue, e, q);
}

proof fn as_many_files(
    queue: Seq<char>,
    e: Seq<(Seq<char>, Option<JsonView>)>,
    q: Seq<(Seq<char>, Seq<char>)>,
)
    ensures
        wanted_files(queue, e, q).len() == wanted_replies(e, q).len(),
    decreases e.len(),
{
    if e.len() > 0 {
        as_many_files(queue, e.drop_last(), q);
    }
}

/// The status counts every task under its state, and shows the tasks in their order.
pub proof fn tasks_are_counted(
    e: Seq<(Seq<char>, Option<JsonView>)>,
    id: Seq<char>,
    task: JsonView,
    st: Seq<char>,
)
    ensures
        count_status(e.push((id, Some(task))), st) == count_status(e, st) + if task.text_or(
            "status"@,
            seq![],
        ) == st {
            1int
        } else {
            0
        },
        count_status(e.push((id, None)), st) == count_status(e, st),
        count_status(seq![], st) == 0,
        shown_all(e.push((id, Some(task)))) == shown_all(e).push(shown(id, task)),
        shown_all(e.push((id, None))) == shown_all(e),
{
    assert(e.push((id, Some(task))).drop_last() =~= e);
    assert(e.push((id, None::<JsonView>)).drop_last() =~= e);
}

/// The status tells how many tasks wait, run, are done and failed, and how many replies
/// there are; of a task it tells its name, sender, receiver, action and state.
pub proof fn status_is_told(
    e: Seq<(Seq<char>, Option<JsonView>)>,
    outbox: nat,
    id: Seq<char>,
    task: JsonView,
)
    ensures
        ({
            let v = bus_state(e, outbox);
            let s = v.at("stats"@);
            let t = shown(id, task);
            &&& v.at("ok"@) == JsonView::Bool(true)
            &&& s.at("queued"@) == JsonView::Int(count_status(e, "queued"@) as int)
            &&& s.at("processing"@) == JsonView::Int(count_status(e, "processing"@) as int)
            &&& s.at("done"@) == JsonView::Int(count_status(e, "done"@) as int)
            &&& s.at("failed"@) == JsonView::Int(count_status(e, "failed"@) as int)
            &&& v.at("outbox_count"@) == JsonView::Int(outbox as int)
            &&& v.at("recent"@) == JsonView::Arr(shown_all(e))
            &&& t.at("task_id"@) == JsonView::Str(id)
            &&& t.at("from"@) == task.at("from"@)
            &&& t.at("target"@) == task.at("target"@)
            &&& t.at("action"@) == task.at("action"@)
            &&& t.at("status"@) == JsonView::Str(task.text_or("status"@, seq![]))
        }),
{
    broadcast use read_of_put;

    reveal_strlit("ok");
    reveal_strlit("stats");
    reveal_strlit("outbox_count");
    reveal_strlit("recent");
    reveal_strlit("queued");
    reveal_strlit("processing");
    reveal_strlit("done");
    reveal_strlit("failed");
    reveal_strlit("task_id");
    reveal_strlit("from");
    reveal_strlit("target");
    reveal_strlit("action");
    reveal_strlit("status");
    reveal_strlit("created_at");
    assert("ok"@.len() == 2 && "stats"@.len() == 5 && "outbox_count"@.len() == 12 && "recent"@.len() == 6 && "queued"@.len() == 6 && "processing"@.len() == 10 && "done"@.len() == 4 && "failed"@.len() == 6 && "task_id"@.len() == 7 && "from"@.len() == 4 && "target"@.len() == 6 && "action"@.len() == 6 && "status"@.len() == 6 && "created_at"@.len() == 10);
    assert("recent"@[0] != "queued"@[0]);
    assert("recent"@[0] != "failed"@[0]);
    assert("recent"@[0] != "target"@[0]);
    assert("recent"@[0] != "action"@[0]);
    assert("recent"@[0] != "status"@[0]);
    assert("queued"@[0] != "failed"@[0]);
    assert("queued"@[0] != "target"@[0]);
    assert("queued"@[0] != "action"@[0]);
    assert("queued"@[0] != "status"@[0]);
    assert("processing"@[0] != "created_at"@[0]);
    assert("done"@[0] != "from"@[0]);
    assert("failed"@[0] != "target"@[0]);
    assert("failed"@[0] != "action"@[0]);
    assert("failed"@[0] != "status"@[0]);
    assert("target"@[0] != "action"@[0]);
    assert("target"@[0] != "status"@[0]);
    assert("action"@[0] != "status"@[0]);
}

/// The status shows the last ten tasks at the most, and the latest first.
pub proof fn last_ten_are_shown(e: Seq<(Seq<char>, Option<JsonView>)>, i: int)
    ensures
        latest(e).len() <= 10,
        latest(e).len() == 10 || latest(e).len() == e.len(),
        0 <= i < latest(e).len() ==> latest(e)[i] == e.reverse()[i],
{
}

/// Who is handed a task learns its name, its sender, its action and its payload.
pub proof fn task_is_handed_over(id: Seq<char>, task: JsonView)
    ensures
        ({
            let v = hand_out(id, task);
            let t = v.at("task"@);
            &&& v.at("ok"@) == JsonView::Bool(true)
            &&& t.at("task_id"@) == JsonView::Str(id)
            &&& t.at("from"@) == task.at("from"@)
            &&& t.at("target"@) == task.at("target"@)
            &&& t.at("action"@) == task.at("action"@)
            &&& t.at("payload"@) == task.at("payload"@)
            &&& t.at("created_at"@) == task.at("created_at"@)
            &&& nothing_waits().at("task"@) is Null
        }),
{
    broadcast use read_of_put;

    reveal_strlit("ok");
    reveal_strlit("task");
    reveal_strlit("task_id");
    reveal_strlit("from");
    reveal_strlit("target");
    reveal_strlit("action");
    reveal_strlit("payload");
    reveal_strlit("created_at");
    assert("ok"@.len() == 2 && "task"@.len() == 4 && "task_id"@.len() == 7 && "from"@.len() == 4 && "target"@.len() == 6 && "action"@.len() == 6 && "payload"@.len() == 7 && "created_at"@.len() == 10);
    assert("task"@[0] != "from"@[0]);
    assert("task_id"@[0] != "payload"@[0]);
    assert("target"@[0] != "action"@[0]);
}

/// The sender of a task that waited too long learns that it failed, and why.
pub proof fn late_tasks_are_told(id: Seq<char>, task: JsonView, now: Seq<char>)
    ensures
        ({
            let r = late_reply(id, task, now);
            let t = failed_late(task, now);
            &&& r.at("task_id"@) == JsonView::Str(id)
            &&& r.at("ok"@) == JsonView::Bool(false)
            &&& r.at("result"@) is Null
            &&& r.at("error"@) == JsonView::Str("TTL expired"@)
            &&& r.at("finished_at"@) == JsonView::Str(now)
            &&& t.at("status"@) == JsonView::Str("failed"@)
            &&& t.at("error"@) == JsonView::Str("TTL expired"@)
            &&& t.at("finished_at"@) == JsonView::Str(now)
        }),
{
    broadcast use read_of_put;

    reveal_strlit("task_id");
    reveal_strlit("from");
    reveal_strlit("to");
    reveal_strlit("ok");
    reveal_strlit("result");
    reveal_strlit("error");
    reveal_strlit("finished_at");
    reveal_strlit("status");
    assert("task_id"@.len() == 7 && "from"@.len() == 4 && "to"@.len() == 2 && "ok"@.len() == 2 && "result"@.len() == 6 && "error"@.len() == 5 && "finished_at"@.len() == 11 && "status"@.len() == 6);
    assert("to"@[0] != "ok"@[0]);
    assert("result"@[0] != "status"@[0]);
}

/// A reply closes its task as done where it says that all went well, and as failed
/// otherwise, and keeps its result and its error.
pub proof fn replies_close_tasks(task: JsonView, body: JsonView, now: Seq<char>)
    ensures
        ({
            let t = answered(task, body, now);
            &&& body.at("ok"@) == JsonView::Bool(true) ==> t.at("status"@) == JsonView::Str(
                "done"@,
            )
            &&& body.at("ok"@) != JsonView::Bool(true) ==> t.at("status"@) == JsonView::Str(
                "failed"@,
            )
            &&& t.at("finished_at"@) == JsonView::Str(now)
            &&& t.at("reply"@).at("result"@) == body.at("result"@)
            &&& t.at("reply"@).at("error"@) == body.at("error"@)
            &&& t.at("from"@) == task.at("from"@)
            &&& t.at("payload"@) == task.at("payload"@)
        }),
{
    broadcast use read_of_put;

    reveal_strlit("status");
    reveal_strlit("finished_at");
    reveal_strlit("reply");
    reveal_strlit("ok");
    reveal_strlit("result");
    reveal_strlit("error");
    reveal_strlit("from");
    reveal_strlit("payload");
    assert("status"@.len() == 6 && "finished_at"@.len() == 11 && "reply"@.len() == 5 && "ok"@.len() == 2 && "result"@.len() == 6 && "error"@.len() == 5 && "from"@.len() == 4 && "payload"@.len() == 7);
    assert("status"@[0] != "result"@[0]);
    assert("reply"@[0] != "error"@[0]);
}

proof fn json_name_is_kept(n: Seq<Seq<char>>, x: Seq<char>)
    ensures
        json_names(n).contains(x) <==> n.contains(x) && ends(x, ".json"@),
    decreases n.len(),
{
    let r = json_names(n);
    if n.len() > 0 {
        let d = n.drop_last();
        let q = json_names(d);
        json_name_is_kept(d, x);
        if q.contains(x) {
            let k = choose|k: int| 0 <= k < q.len() && q[k] == x;
            assert(r[k] == x);
        }
        if d.contains(x) {
            let k = choose|k: int| 0 <= k < d.len() && d[k] == x;
            assert(n[k] == x);
        }
        if n.contains(x) && ends(x, ".json"@) {
            let k = choose|k: int| 0 <= k < n.len() && n[k] == x;
            if k < d.len() {
                assert(d[k] == x);
            } else {
                assert(r.last() == x);
                assert(r[r.len() - 1] == x);
            }
        }
        if r.contains(x) && !q.contains(x) {
            let k = choose|k: int| 0 <= k < r.len() && r[k] == x;
            if k < q.len() {
                assert(q[k] == x);
            }
            assert(n[n.len() - 1] == x);
        }
    }
}

/// The files of a directory that end in `.json` are listed, no others, and they stand in the
/// order of their names.
pub proof fn files_are_listed(n: Seq<Seq<char>>, x: Seq<char>)
    ensures
        listed(n).contains(x) <==> n.contains(x) && ends(x, ".json"@),
        forall|i: int, j: int|
            0 <= i < j < listed(n).len() ==> !crate::text::text_lt(
                #[trigger] listed(n)[j],
                #[trigger] listed(n)[i],
            ),
{
    let f = json_names(n);
    let p = by_text(f, false);
    let o = order(f.len(), p);
    json_name_is_kept(n, x);
    order_keeps_positions(f.len(), p);
    by_text_ranks(f, false);
    order_is_sorted(f.len(), p);
    let l = listed(n);
    if f.contains(x) {
        let k = choose|k: int| 0 <= k < f.len() && f[k] == x;
        assert(o.contains(k));
        let i = choose|i: int| 0 <= i < o.len() && o[i] == k;
        assert(l[i] == x);
    }
    if l.contains(x) {
        let i = choose|i: int| 0 <= i < l.len() && l[i] == x;
        assert(o.contains(o[i]));
        assert(f[o[i]] == x);
    }
    assert forall|i: int, j: int| 0 <= i < j < l.len() implies !crate::text::text_lt(
        #[trigger] l[j],
        #[trigger] l[i],
    ) by {
        assert(!p(o[j], o[i]));
        assert(l[i] == f[o[i]] && l[j] == f[o[j]]);
    }
}

/// A task and its reply have files of one name in two directories below that of the queue.
pub proof fn files_have_their_places(queue: Seq<char>, id: Seq<char>)
    requires
        queue.len() > 0,
        queue.last() != '/',
        id.len() > 0,
        id[0] != '/',
    ensures
        task_file(queue, id) == queue + "/"@ + "tasks"@ + "/"@ + (id + ".json"@),
        outbox_file(queue, id) == queue + "/"@ + "outbox"@ + "/"@ + (id + ".json"@),
{
    reveal_strlit("tasks");
    reveal_strlit("outbox");
    reveal_strlit("/");
}

/// Each task that waited too long has a reply afterwards, and no reply that was there is
/// lost.
pub proof fn late_tasks_have_replies(
    outbox: Seq<Seq<char>>,
    e: Seq<(Seq<char>, Option<JsonView>)>,
    now_ms: int,
    i: int,
    x: Seq<char>,
)
    ensures
        0 <= i < e.len() && (e[i].1 matches Some(task) && expired(task, now_ms)) ==> replies_after(
            outbox,
            e,
            now_ms,
        ).contains(e[i].0 + ".json"@),
        outbox.contains(x) ==> replies_after(outbox, e, now_ms).contains(x),
    decreases e.len(),
{
    if e.len() > 0 {
        let d = e.drop_last();
        let before = replies_after(outbox, d, now_ms);
        let all = replies_after(outbox, e, now_ms);
        late_tasks_have_replies(outbox, d, now_ms, i, x);
        assert forall|y: Seq<char>| before.contains(y) implies all.contains(y) by {
            let k = choose|k: int| 0 <= k < before.len() && before[k] == y;
            assert(all[k] == y);
        }
        if 0 <= i < d.len() {
            assert(d[i] == e[i]);
        } else if i == d.len() {
            let name = e.last().0 + ".json"@;
            if all.len() > before.len() {
                assert(all.last() == name);
                assert(all[all.len() - 1] == name);
            }
        }
    }
}

} // verus!
