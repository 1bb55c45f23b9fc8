//! Messages between agents over the board, and the threads that they make.
use vstd::prelude::*;
use crate::args::{last_value, names, options, read_args, value_or};
use crate::json::{put_then_get, read_of_put, views, Json, JsonView};
use crate::num::{dec, decimal, hex, hex_reads_back, hexadecimal, value};
use crate::report::say;
use crate::text::{
    cat, cat3, cat4, cat5, cat7, chars_of, contains, first, first_chars, has,
    lowered, maybe, parts_are_seen, same, string_of, texts, to_lowercase,
};

verus! {

// ---------------------------------------------------------------- arguments

/// The arguments of a message.
pub struct MessageArgs {
    pub to: String,
    pub text: String,
    pub thread: Option<String>,
    pub reply_to: Option<String>,
    pub from_agent: Option<String>,
}

/// The options of a message that take a value.
pub open spec fn message_valued() -> Seq<Seq<char>> {
    seq!["--to"@, "--text"@, "--thread"@, "--reply-to"@, "--from-agent"@]
}

/// Reads the arguments of a message.
pub fn agent_msg_args(args: &[String]) -> (r: MessageArgs)
    ensures
        ({
            let o = options(texts(args@), message_valued());
            &&& r.to@ == value_or(o, "--to"@, seq![])
            &&& r.text@ == value_or(o, "--text"@, seq![])
            &&& maybe(r.thread) == last_value(o, "--thread"@)
            &&& maybe(r.reply_to) == last_value(o, "--reply-to"@)
            &&& maybe(r.from_agent) == last_value(o, "--from-agent"@)
        }),
{
    let valued = ["--to", "--text", "--thread", "--reply-to", "--from-agent"];
    let a = read_args(args, &valued);
    assert(names(valued@) =~= message_valued());
    proof {
        reveal_strlit("");
        assert(""@ =~= seq![]);
    }
    MessageArgs {
        to: a.value_or("--to", ""),
        text: a.value_or("--text", ""),
        thread: a.value("--thread"),
        reply_to: a.value("--reply-to"),
        from_agent: a.value("--from-agent"),
    }
}

/// The thread that is read.
pub fn agent_thread_args(args: &[String]) -> (r: String)
    ensures
        r@ == value_or(
            options(texts(args@), seq!["--thread"@, "--node"@]),
            "--thread"@,
            seq![],
        ),
{
    let valued = ["--thread", "--node"];
    let a = read_args(args, &valued);
    assert(names(valued@) =~= seq!["--thread"@, "--node"@]);
    proof {
        reveal_strlit("");
        assert(""@ =~= seq![]);
    }
    a.value_or("--thread", "")
}

// ---------------------------------------------------------------- the barrier

/// The length up to which a message goes through as it is.
pub open spec fn short_limit() -> int {
    200
}

/// A message that is too long: over two hundred characters, and not urgent.
pub open spec fn too_long(text: Seq<char>) -> bool {
    text.len() > short_limit() && !contains(lowered(text), "urgent"@)
}

/// What is printed of a message that is too long.
pub open spec fn gate_lines(to: Seq<char>, text: Seq<char>) -> Seq<Seq<char>> {
    seq![
        "[agent-msg] ⚠️ 门禁：消息 "@ + dec(text.len()) + " 字 > 200 且非紧急（v2.3 最短沟通规则）"@,
        "  跨设备消息本来就写黑板，请用『短提醒 + 内容写 data/ 或 notes/』模式："@,
        "  dsh-tools agent-msg --to "@ + to + " --text '看黑板 data/<key>（一句话提示）'"@,
        "  或先写内容到黑板（data/<域>/<key>），再发短提醒。"@,
    ]
}

/// What is printed of a message that is too long; nothing for one that goes through.
pub fn gate(to: &str, text: &str) -> (r: Option<Vec<String>>)
    ensures
        match r {
            Some(l) => too_long(text@) && texts(l@) == gate_lines(to@, text@),
            None => !too_long(text@),
        },
{
    let n: usize = chars_of(text).len();
    if n <= 200 || has(to_lowercase(text).as_str(), "urgent") {
        return None;
    }
    let mut l: Vec<String> = Vec::new();
    say(
        &mut l,
        cat3(
            "[agent-msg] ⚠️ 门禁：消息 ",
            decimal(n as u64).as_str(),
            " 字 > 200 且非紧急（v2.3 最短沟通规则）",
        ).as_str(),
    );
    say(&mut l, "  跨设备消息本来就写黑板，请用『短提醒 + 内容写 data/ 或 notes/』模式：");
    say(
        &mut l,
        cat3("  dsh-tools agent-msg --to ", to, " --text '看黑板 data/<key>（一句话提示）'").as_str(),
    );
    say(&mut l, "  或先写内容到黑板（data/<域>/<key>），再发短提醒。");
    assert(texts(l@) =~= gate_lines(to@, text@));
    Some(l)
}

// ---------------------------------------------------------------- threads

/// The sum of the code points of a text.
pub open spec fn code_sum(s: Seq<char>) -> nat
    decreases s.len(),
{
    if s.len() == 0 {
        0
    } else {
        code_sum(s.drop_last()) + s.last() as u32 as nat
    }
}

/// The thread of a message that names none: by the first twenty characters of its
/// text.
pub open spec fn thread_of(text: Seq<char>) -> Seq<char> {
    "x-"@ + hex(code_sum(first(text, 20)))
}

fn code_point(c: char) -> (r: u32)
    ensures
        r == c as u32,
        r <= 0x10_ffff,
{
    c as u32
}

/// The thread of a message.
pub fn thread_id(thread: &Option<String>, text: &str) -> (r: String)
    ensures
        r@ == match maybe(*thread) {
            Some(t) => t,
            None => thread_of(text@),
        },
{
    if let Some(t) = thread {
        return t.clone();
    }
    let v = chars_of(first_chars(text, 20).as_str());
    let mut sum: u64 = 0;
    let mut i: usize = 0;
    assert(v@.take(0) =~= seq![]);
    assert(v@.len() <= 20);
    while i < v.len()
        invariant
            i <= v@.len() <= 20,
            sum == code_sum(v@.take(i as int)),
            sum <= i * 0x11_0000,
        decreases v@.len() - i,
    {
        proof {
            assert(v@.take(i + 1).drop_last() =~= v@.take(i as int));
            assert(v@.take(i + 1).last() == v@[i as int]);
        }
        sum += code_point(v[i]) as u64;
        i += 1;
    }
    assert(v@.take(i as int) =~= v@);
    cat("x-", hexadecimal(sum).as_str())
}

/// What `char::is_alphanumeric` says of a character.
pub uninterp spec fn alphanumeric(c: char) -> bool;

/// `char::is_alphanumeric`: whether a character is a letter or a digit by Unicode. Of
/// the ASCII characters these are the letters and the ten digits.
#[verifier::external_body]
fn is_alphanumeric(c: char) -> (r: bool)
    ensures
        r == alphanumeric(c),
        c as u32 <= 127 ==> r == ('a' <= c <= 'z' || 'A' <= c <= 'Z' || '0' <= c <= '9'),
{
    c.is_alphanumeric()
}

/// The character that stands for `c` in the name of a thread.
pub open spec fn safe_char(c: char) -> char {
    if alphanumeric(c) || c == '-' {
        c
    } else {
        '_'
    }
}

/// Where a thread is kept.
pub open spec fn thread_path(id: Seq<char>) -> Seq<char> {
    "data/threads/"@ + id.map_values(|c: char| safe_char(c))
}

/// Where a thread is kept.
pub fn thread_place(id: &str) -> (r: String)
    ensures
        r@ == thread_path(id@),
{
    let v = chars_of(id);
    let mut out: Vec<char> = Vec::new();
    let mut i: usize = 0;
    while i < v.len()
        invariant
            i <= v@.len(),
            out@.len() == i,
            forall|j: int| 0 <= j < i ==> #[trigger] out@[j] == safe_char(v@[j]),
        decreases v@.len() - i,
    {
        let c: char = v[i];
        if is_alphanumeric(c) || c == '-' {
            out.push(c);
        } else {
            out.push('_');
        }
        i += 1;
    }
    let s = string_of(&out, 0, out.len());
    assert(s@ =~= v@.map_values(|c: char| safe_char(c)));
    cat("data/threads/", s.as_str())
}

/// The messages of a thread, given what the board holds of it.
pub open spec fn thread_messages(d: Option<JsonView>) -> Seq<JsonView> {
    match d {
        Some(v) => match v.at("value"@).items("messages"@) {
            Some(m) => m,
            None => seq![],
        },
        None => seq![],
    }
}

/// A thread with one more message.
pub open spec fn thread_with(
    id: Seq<char>,
    d: Option<JsonView>,
    msg: JsonView,
    now: Seq<char>,
) -> JsonView {
    JsonView::object().put("thread"@, JsonView::Str(id)).put(
        "messages"@,
        JsonView::Arr(thread_messages(d).push(msg)),
    ).put("updated"@, JsonView::Str(now))
}

fn messages_in(v: &Json) -> (r: Vec<Json>)
    ensures
        views(r@) == thread_messages(Some(v@)),
{
    let mut out: Vec<Json> = Vec::new();
    assert(views(out@) =~= seq![]);
    let inner = v.at("value");
    if let Some(m) = inner.items("messages") {
        let ghost t = views(m@);
        let mut i: usize = 0;
        assert(t.take(0) =~= seq![]);
        while i < m.len()
            invariant
                i <= m@.len(),
                t == views(m@),
                views(out@) == t.take(i as int),
            decreases m@.len() - i,
        {
            let ghost prev = views(out@);
            let x = m[i].copy();
            let ghost xv = x@;
            out.push(x);
            assert(views(out@) =~= prev.push(xv));
            assert(t.take(i + 1) =~= t.take(i as int).push(t[i as int]));
            i += 1;
        }
        assert(t.take(i as int) =~= t);
    }
    out
}

/// A thread with one more message, given what the board holds of it; nothing where
/// the board could not be asked.
pub fn append_thread_index(id: &str, d: &Option<Json>, msg: &Json, now: &str) -> (r: Json)
    ensures
        r@ == thread_with(id@, crate::bus::maybe_value(*d), msg@, now@),
{
    let mut m: Vec<Json> = match d {
        Some(v) => messages_in(v),
        None => {
            let e: Vec<Json> = Vec::new();
            assert(views(e@) =~= seq![]);
            e
        },
    };
    let ghost prev = views(m@);
    m.push(msg.copy());
    assert(views(m@) =~= prev.push(msg@));
    Json::object().with("thread", Json::text(id)).with("messages", Json::array(m)).with(
        "updated",
        Json::text(now),
    )
}

// ---------------------------------------------------------------- messages

/// A message.
pub open spec fn message(
    node: Seq<char>,
    from_agent: Option<Seq<char>>,
    to: Seq<char>,
    thread: Seq<char>,
    text: Seq<char>,
    seq_no: int,
    reply_to: Option<Seq<char>>,
    now: Seq<char>,
) -> JsonView {
    JsonView::object().put("from"@, JsonView::Str(node)).put(
        "from_agent"@,
        JsonView::Str(
            match from_agent {
                Some(a) => a,
                None => "dsh-tools"@,
            },
        ),
    ).put("to"@, JsonView::Str(to)).put("thread"@, JsonView::Str(thread)).put(
        "text"@,
        JsonView::Str(text),
    ).put("seq"@, JsonView::Int(seq_no)).put(
        "reply_to"@,
        JsonView::Str(
            match reply_to {
                Some(r) => r,
                None => seq![],
            },
        ),
    ).put("ts"@, JsonView::Str(now)).put("type"@, JsonView::Str("agent-msg"@))
}

/// A message, from a node in a thread at a time.
pub fn message_value(
    a: &MessageArgs,
    node: &str,
    thread: &str,
    seq_no: i64,
    now: &str,
) -> (r: Json)
    ensures
        r@ == message(
            node@,
            maybe(a.from_agent),
            a.to@,
            thread@,
            a.text@,
            seq_no as int,
            maybe(a.reply_to),
            now@,
        ),
{
    proof {
        reveal_strlit("");
        assert(""@ =~= seq![]);
    }
    let agent = match &a.from_agent {
        Some(s) => s.as_str(),
        None => "dsh-tools",
    };
    let reply = match &a.reply_to {
        Some(s) => s.as_str(),
        None => "",
    };
    Json::object().with("from", Json::text(node)).with("from_agent", Json::text(agent)).with(
        "to",
        Json::text(a.to.as_str()),
    ).with("thread", Json::text(thread)).with("text", Json::text(a.text.as_str())).with(
        "seq",
        Json::Int(seq_no),
    ).with("reply_to", Json::text(reply)).with("ts", Json::text(now)).with(
        "type",
        Json::text("agent-msg"),
    )
}

/// A message of a thread is the same as one to be sent, and less than ten minutes old: it
/// has the sender, the thread and the text.
pub open spec fn same_message(
    m: JsonView,
    node: Seq<char>,
    thread: Seq<char>,
    text: Seq<char>,
    now_ms: int,
) -> bool {
    &&& m.text("from"@) == Some(node)
    &&& m.text("thread"@) == Some(thread)
    &&& m.text("text"@) == Some(text)
    &&& m.at("seq"@) matches JsonView::Int(n) && now_ms - n < 600_000
}

/// A message was sent in its thread less than ten minutes ago.
pub open spec fn repeated(
    ms: Seq<JsonView>,
    node: Seq<char>,
    thread: Seq<char>,
    text: Seq<char>,
    now_ms: int,
) -> bool {
    exists|i: int|
        0 <= i < ms.len() && same_message(#[trigger] ms[i], node, thread, text, now_ms)
}

fn has_text(m: &Json, k: &str, t: &str) -> (r: bool)
    ensures
        r == (m@.text(k@) == Some(t@)),
{
    match m.text_at(k) {
        Some(x) => same(x.as_str(), t),
        None => false,
    }
}

fn is_same_message(m: &Json, node: &str, thread: &str, text: &str, now_ms: i64) -> (r: bool)
    ensures
        r == same_message(m@, node@, thread@, text@, now_ms as int),
{
    let recent = match m.get("seq") {
        Some(Json::Uint(n)) => now_ms as i128 - (*n as i128) < 600_000i128,
        Some(Json::Int(n)) => now_ms as i128 - (*n as i128) < 600_000i128,
        _ => false,
    };
    recent && has_text(m, "from", node) && has_text(m, "thread", thread) && has_text(
        m,
        "text",
        text,
    )
}

/// Whether a message was sent in its thread less than ten minutes ago, given what the board
/// holds of the thread.
pub fn is_repeat(d: &Option<Json>, node: &str, thread: &str, text: &str, now_ms: i64) -> (r: bool)
    ensures
        r == repeated(
            thread_messages(crate::bus::maybe_value(*d)),
            node@,
            thread@,
            text@,
            now_ms as int,
        ),
{
    if let Some(v) = d {
        let ms = messages_in(v);
        let ghost t = thread_messages(Some(v@));
        let mut i: usize = 0;
        while i < ms.len()
            invariant
                i <= ms@.len(),
                t == views(ms@),
                t == thread_messages(crate::bus::maybe_value(*d)),
                forall|j: int|
                    0 <= j < i ==> !same_message(
                        #[trigger] t[j],
                        node@,
                        thread@,
                        text@,
                        now_ms as int,
                    ),
            decreases ms@.len() - i,
        {
            assert(t[i as int] == ms@[i as int]@);
            if is_same_message(&ms[i], node, thread, text, now_ms) {
                assert(t.len() == ms@.len());
                return true;
            }
            i += 1;
        }
    }
    false
}

/// What becomes of a message.
pub enum Sending {
    /// It was sent a moment ago, and is not sent again.
    Repeat { line: String },
    /// It is sent, and put into its thread.
    Send { message: Json, thread: Json },
}

/// Decides what becomes of a message from a node in a thread, given what the board holds of
/// the thread.
pub fn plan_message(
    a: &MessageArgs,
    node: &str,
    thread: &str,
    d: &Option<Json>,
    now_ms: i64,
    now: &str,
) -> (r: Sending)
    ensures
        ({
            let held = crate::bus::maybe_value(*d);
            let msg = message(
                node@,
                maybe(a.from_agent),
                a.to@,
                thread@,
                a.text@,
                now_ms as int,
                maybe(a.reply_to),
                now@,
            );
            if repeated(thread_messages(held), node@, thread@, a.text@, now_ms as int) {
                r matches Sending::Repeat { line } && line@ == "[agent-msg] 跳过: 10 分钟内已发过相同消息（thread: "@
                    + thread@ + "）"@
            } else {
                r matches Sending::Send { message: m, thread: t } && m@ == msg && t@ == thread_with(
                    thread@,
                    held,
                    msg,
                    now@,
                )
            }
        }),
{
    if is_repeat(d, node, thread, a.text.as_str(), now_ms) {
        return Sending::Repeat {
            line: cat3("[agent-msg] 跳过: 10 分钟内已发过相同消息（thread: ", thread, "）"),
        };
    }
    let m = message_value(a, node, thread, now_ms, now);
    let t = append_thread_index(thread, d, &m, now);
    Sending::Send { message: m, thread: t }
}

/// The key of a message that is sent at a time.
pub fn agent_msg_key(ts: &str) -> (r: String)
    ensures
        r@ == "agent-msg-"@ + ts@,
{
    cat("agent-msg-", ts)
}

/// Where a message goes.
pub fn message_path(to: &str, key: &str) -> (r: String)
    ensures
        r@ == "notes/"@ + to@ + "/"@ + key@,
{
    cat4("notes/", to, "/", key)
}

/// What is printed of a message that was sent.
pub open spec fn sent_lines(
    node: Seq<char>,
    to: Seq<char>,
    key: Seq<char>,
    text: Seq<char>,
    thread: Seq<char>,
    code: u16,
) -> Seq<Seq<char>> {
    seq![
        "[agent-msg] "@ + node + " → "@ + to + " ("@ + key + "): "@ + first(text, 40),
        "  thread: "@ + thread,
    ] + if code != 200 {
        seq!["  ⚠️ 黑板返回 "@ + dec(code as nat)]
    } else {
        seq![]
    }
}

/// What is printed of a message that was sent.
pub fn sent_report(a: &MessageArgs, node: &str, key: &str, thread: &str, code: u16) -> (r: Vec<
    String,
>)
    ensures
        texts(r@) == sent_lines(node@, a.to@, key@, a.text@, thread@, code),
{
    let mut l: Vec<String> = Vec::new();
    let mut s = cat7("[agent-msg] ", node, " → ", a.to.as_str(), " (", key, "): ");
    s.append(first_chars(a.text.as_str(), 40).as_str());
    say(&mut l, s.as_str());
    say(&mut l, cat("  thread: ", thread).as_str());
    if code != 200 {
        say(&mut l, cat("  ⚠️ 黑板返回 ", decimal(code as u64).as_str()).as_str());
    }
    assert(texts(l@) =~= sent_lines(node@, a.to@, key@, a.text@, thread@, code));
    l
}

/// A message of a thread as a line.
pub open spec fn message_line(m: JsonView) -> Seq<char> {
    "· ["@ + first(m.text_or("ts"@, seq![]), 19) + "] "@ + m.text_or("from"@, "?"@) + ": "@ + first(
        m.text_or("text"@, seq![]),
        100,
    )
}

/// What is printed of a thread.
pub open spec fn thread_lines(id: Seq<char>, m: Seq<JsonView>) -> Seq<Seq<char>> {
    if m.len() == 0 {
        seq!["线程 "@ + id + " 无消息（未发过 agent-msg）"@]
    } else {
        seq!["线程 "@ + id + " （"@ + dec(m.len()) + " 条）:"@] + m.map_values(
            |x: JsonView| message_line(x),
        )
    }
}

fn line_of(m: &Json) -> (r: String)
    ensures
        r@ == message_line(m@),
{
    proof {
        reveal_strlit("");
        assert(""@ =~= seq![]);
    }
    let mut s = cat5(
        "· [",
        first_chars(m.text_or("ts", "").as_str(), 19).as_str(),
        "] ",
        m.text_or("from", "?").as_str(),
        ": ",
    );
    s.append(first_chars(m.text_or("text", "").as_str(), 100).as_str());
    s
}

/// What is printed of a thread, given what the board holds of it.
pub fn thread_report(id: &str, d: &Json) -> (r: Vec<String>)
    ensures
        texts(r@) == thread_lines(id@, thread_messages(Some(d@))),
{
    let m = messages_in(d);
    let ghost t = views(m@);
    let mut l: Vec<String> = Vec::new();
    assert(t.len() == m@.len());
    if m.len() == 0 {
        say(&mut l, cat3("线程 ", id, " 无消息（未发过 agent-msg）").as_str());
        assert(texts(l@) =~= thread_lines(id@, t));
        return l;
    }
    say(&mut l, cat5("线程 ", id, " （", decimal(m.len() as u64).as_str(), " 条）:").as_str());
    let ghost base = texts(l@);
    let ghost w = t.map_values(|x: JsonView| message_line(x));
    let mut i: usize = 0;
    assert(base + w.take(0) =~= base);
    while i < m.len()
        invariant
            i <= m@.len() == w.len(),
            t == views(m@),
            w == t.map_values(|x: JsonView| message_line(x)),
            texts(l@) == base + w.take(i as int),
        decreases m@.len() - i,
    {
        assert(w[i as int] == message_line(m@[i as int]@));
        say(&mut l, line_of(&m[i]).as_str());
        assert(texts(l@) =~= base + w.take(i + 1));
        i += 1;
    }
    assert(w.take(i as int) =~= w);
    assert(texts(l@) =~= thread_lines(id@, t));
    l
}

// ---------------------------------------------------------------- laws

/// A thread grows by what is appended: the messages that it held come first, the new
/// one last.
pub proof fn threads_grow(id: Seq<char>, d: Option<JsonView>, msg: JsonView, now: Seq<char>, held: JsonView)
    requires
        held.at("value"@) == thread_with(id, d, msg, now),
    ensures
        thread_messages(Some(held)) == thread_messages(d).push(msg),
{
    reveal_strlit("updated");
    reveal_strlit("messages");
    assert("updated"@.len() == 7 && "messages"@.len() == 8);
    let a = JsonView::object().put("thread"@, JsonView::Str(id));
    let m = JsonView::Arr(thread_messages(d).push(msg));
    put_then_get(a, "messages"@, m, "messages"@);
    put_then_get(
        a.put("messages"@, m),
        "updated"@,
        JsonView::Str(now),
        "messages"@,
    );
}

proof fn message_fields(
    node: Seq<char>,
    from_agent: Option<Seq<char>>,
    to: Seq<char>,
    thread: Seq<char>,
    text: Seq<char>,
    seq_no: int,
    reply_to: Option<Seq<char>>,
    now: Seq<char>,
)
    ensures
        ({
            let m = message(node, from_agent, to, thread, text, seq_no, reply_to, now);
            &&& m.text("from"@) == Some(node)
            &&& m.text("thread"@) == Some(thread)
            &&& m.text("text"@) == Some(text)
            &&& m.at("seq"@) == JsonView::Int(seq_no)
        }),
{
    reveal_strlit("from");
    reveal_strlit("from_agent");
    reveal_strlit("to");
    reveal_strlit("thread");
    reveal_strlit("text");
    reveal_strlit("seq");
    reveal_strlit("reply_to");
    reveal_strlit("ts");
    reveal_strlit("type");
    let (k0, k1, k2, k3, k4, k5, k6, k7, k8) = (
        "from"@,
        "from_agent"@,
        "to"@,
        "thread"@,
        "text"@,
        "seq"@,
        "reply_to"@,
        "ts"@,
        "type"@,
    );
    assert(k0.len() == 4 && k1.len() == 10 && k2.len() == 2 && k3.len() == 6 && k4.len() == 4
        && k5.len() == 3 && k6.len() == 8 && k7.len() == 2 && k8.len() == 4);
    assert(k0[0] == 'f' && k4[1] == 'e' && k8[1] == 'y' && k4[0] == 't' && k8[0] == 't');
    let agent = match from_agent {
        Some(a) => a,
        None => "dsh-tools"@,
    };
    let reply = match reply_to {
        Some(r) => r,
        None => seq![],
    };
    let t0 = JsonView::object().put(k0, JsonView::Str(node));
    let t1 = t0.put(k1, JsonView::Str(agent));
    let t2 = t1.put(k2, JsonView::Str(to));
    let t3 = t2.put(k3, JsonView::Str(thread));
    let t4 = t3.put(k4, JsonView::Str(text));
    let t5 = t4.put(k5, JsonView::Int(seq_no));
    let t6 = t5.put(k6, JsonView::Str(reply));
    let t7 = t6.put(k7, JsonView::Str(now));
    let m = t7.put(k8, JsonView::Str("agent-msg"@));
    assert forall|q: Seq<char>| q != k6 && q != k7 && q != k8 implies #[trigger] m.get(q)
        == t5.get(q) by {
        put_then_get(t5, k6, JsonView::Str(reply), q);
        put_then_get(t6, k7, JsonView::Str(now), q);
        put_then_get(t7, k8, JsonView::Str("agent-msg"@), q);
    }
    put_then_get(t4, k5, JsonView::Int(seq_no), k5);
    put_then_get(t4, k5, JsonView::Int(seq_no), k4);
    put_then_get(t4, k5, JsonView::Int(seq_no), k3);
    put_then_get(t4, k5, JsonView::Int(seq_no), k0);
    put_then_get(t3, k4, JsonView::Str(text), k4);
    put_then_get(t3, k4, JsonView::Str(text), k3);
    put_then_get(t3, k4, JsonView::Str(text), k0);
    put_then_get(t2, k3, JsonView::Str(thread), k3);
    put_then_get(t2, k3, JsonView::Str(thread), k0);
    put_then_get(t1, k2, JsonView::Str(to), k0);
    put_then_get(t0, k1, JsonView::Str(agent), k0);
    put_then_get(JsonView::object(), k0, JsonView::Str(node), k0);
    assert(m == message(node, from_agent, to, thread, text, seq_no, reply_to, now));
}

/// A message that was sent and put into its thread is a repeat for ten minutes, whoever it
/// is for, and none after that where the thread held none before.
pub proof fn repeats_are_skipped(
    node: Seq<char>,
    from_agent: Option<Seq<char>>,
    to: Seq<char>,
    thread: Seq<char>,
    text: Seq<char>,
    sent_ms: int,
    reply_to: Option<Seq<char>>,
    now: Seq<char>,
    d: Option<JsonView>,
    held: JsonView,
    later_ms: int,
)
    requires
        held.at("value"@) == thread_with(
            thread,
            d,
            message(node, from_agent, to, thread, text, sent_ms, reply_to, now),
            now,
        ),
        !repeated(thread_messages(d), node, thread, text, later_ms),
    ensures
        repeated(thread_messages(Some(held)), node, thread, text, later_ms) == (later_ms - sent_ms
            < 600_000),
{
    let m = message(node, from_agent, to, thread, text, sent_ms, reply_to, now);
    threads_grow(thread, d, m, now, held);
    message_fields(node, from_agent, to, thread, text, sent_ms, reply_to, now);
    let old = thread_messages(d);
    let new = thread_messages(Some(held));
    assert(new[old.len() as int] == m);
    assert(forall|i: int| 0 <= i < old.len() ==> new[i] == old[i]);
    if later_ms - sent_ms < 600_000 {
        assert(same_message(new[old.len() as int], node, thread, text, later_ms));
    } else {
        assert forall|i: int| 0 <= i < new.len() implies !same_message(
            #[trigger] new[i],
            node,
            thread,
            text,
            later_ms,
        ) by {
            if i < old.len() {
                assert(new[i] == old[i]);
            }
        }
    }
}

// ---------------------------------------------------------------- the commands

/// What is printed of a message that is not sent: it lacks its receiver or its text, or
/// is too long.
pub open spec fn refused_message(to: Seq<char>, text: Seq<char>) -> Option<Seq<Seq<char>>> {
    if to.len() == 0 || text.len() == 0 {
        Some(
            seq![
                "用法: dsh-tools agent-msg --to i9|mbp|mac-mini --text \"消息\" [--thread x-xxx] [--reply-to agent-msg-xxx]"@,
            ],
        )
    } else if too_long(text) {
        Some(gate_lines(to, text))
    } else {
        None
    }
}

/// What is printed of a message that is not sent; nothing for one that is.
pub fn message_refusal(a: &MessageArgs) -> (r: Option<Vec<String>>)
    ensures
        match r {
            Some(l) => refused_message(a.to@, a.text@) == Some(texts(l@)),
            None => refused_message(a.to@, a.text@) is None,
        },
{
    if a.to.as_str().is_empty() || a.text.as_str().is_empty() {
        let mut l: Vec<String> = Vec::new();
        say(
            &mut l,
            "用法: dsh-tools agent-msg --to i9|mbp|mac-mini --text \"消息\" [--thread x-xxx] [--reply-to agent-msg-xxx]",
        );
        assert(texts(l@) =~= seq![
            "用法: dsh-tools agent-msg --to i9|mbp|mac-mini --text \"消息\" [--thread x-xxx] [--reply-to agent-msg-xxx]"@,
        ]);
        return Some(l);
    }
    gate(a.to.as_str(), a.text.as_str())
}

/// What is printed once a message went to the board, or could not.
pub open spec fn sending_lines(
    a: &MessageArgs,
    node: Seq<char>,
    key: Seq<char>,
    thread: Seq<char>,
    answer: Result<u16, String>,
) -> Seq<Seq<char>> {
    match answer {
        Ok(code) => sent_lines(node, a.to@, key, a.text@, thread, code),
        Err(e) => seq!["[agent-msg] 发送失败: "@ + e@],
    }
}

/// What is printed once a message went to the board, or could not.
pub fn sending_report(
    a: &MessageArgs,
    node: &str,
    key: &str,
    thread: &str,
    answer: &Result<u16, String>,
) -> (l: Vec<String>)
    ensures
        texts(l@) == sending_lines(a, node@, key@, thread@, *answer),
{
    match answer {
        Ok(code) => sent_report(a, node, key, thread, *code),
        Err(e) => {
            let mut l: Vec<String> = Vec::new();
            say(&mut l, cat("[agent-msg] 发送失败: ", e.as_str()).as_str());
            assert(texts(l@) =~= seq!["[agent-msg] 发送失败: "@ + e@]);
            l
        },
    }
}

/// What is printed where no thread is named; nothing where one is.
pub fn thread_refusal(id: &str) -> (r: Option<String>)
    ensures
        match r {
            Some(m) => id@.len() == 0 && m@
                == "用法: dsh-tools agent-thread --thread x-xxx [--node i9]"@,
            None => id@.len() > 0,
        },
{
    if id.is_empty() {
        Some("用法: dsh-tools agent-thread --thread x-xxx [--node i9]".to_owned())
    } else {
        None
    }
}

/// What is printed of a thread, given what the board answered.
pub fn cmd_agent_thread(id: &str, answer: &Result<Json, String>) -> (l: Vec<String>)
    ensures
        texts(l@) == match answer {
            Ok(d) => thread_lines(id@, thread_messages(Some(d@))),
            Err(e) => seq!["线程 "@ + id@ + " 读取失败: "@ + e@],
        },
{
    match answer {
        Ok(d) => thread_report(id, d),
        Err(e) => {
            let mut l: Vec<String> = Vec::new();
            say(&mut l, cat4("线程 ", id, " 读取失败: ", e.as_str()).as_str());
            assert(texts(l@) =~= seq!["线程 "@ + id@ + " 读取失败: "@ + e@]);
            l
        },
    }
}

// ---------------------------------------------------------------- laws

/// A message goes through up to two hundred characters; a longer one does not, unless it
/// says that it is urgent.
pub proof fn long_messages_are_stopped(text: Seq<char>)
    ensures
        text.len() <= 200 ==> !too_long(text),
        text.len() > 200 && !contains(lowered(text), "urgent"@) ==> too_long(text),
{
}

/// A message that says in small letters that it is urgent goes through, however long it is.
pub proof fn urgent_messages_go_through(a: Seq<char>, b: Seq<char>)
    requires
        lowered(a + "urgent"@ + b) == a + "urgent"@ + b,
    ensures
        !too_long(a + "urgent"@ + b),
{
    parts_are_seen(a, "urgent"@, b);
}

/// A message without a receiver or without a text is not sent, and of the others only those
/// that are too long are not.
pub proof fn incomplete_messages_are_refused(to: Seq<char>, text: Seq<char>)
    ensures
        refused_message(seq![], text) is Some,
        refused_message(to, seq![]) is Some,
        to.len() > 0 && 0 < text.len() <= 200 ==> refused_message(to, text) is None,
{
}

/// The code points of a text add up, whatever their order.
pub proof fn code_points_add_up(a: Seq<char>, c: char, b: Seq<char>)
    ensures
        code_sum(a + b) == code_sum(a) + code_sum(b),
        code_sum(seq![c]) == c as u32,
    decreases b.len(),
{
    if b.len() == 0 {
        assert(a + b =~= a);
    } else {
        assert((a + b).drop_last() =~= a + b.drop_last());
        code_points_add_up(a, c, b.drop_last());
    }
    assert(seq![c].drop_last() =~= seq![]);
    assert(code_sum(seq![c].drop_last()) == 0);
}

/// The thread of a message hangs on its first twenty characters alone, and its name ends
/// with the hexadecimal sum of their code points.
pub proof fn threads_go_by_the_beginning(text: Seq<char>, rest: Seq<char>)
    requires
        text.len() == 20,
    ensures
        thread_of(text + rest) == thread_of(text),
        thread_of(text).take(2) == seq!['x', '-'],
        value(thread_of(text).skip(2), true) == code_sum(text),
{
    reveal_strlit("x-");
    hex_reads_back(code_sum(text));
    assert((text + rest).take(20) =~= text);
    assert(thread_of(text).take(2) =~= seq!['x', '-']);
    assert(thread_of(text).skip(2) =~= hex(code_sum(text)));
}

/// A message says who sent it, for whom, in which thread, when, and to what it replies; one
/// without an agent is from the tool itself.
pub proof fn message_says(
    node: Seq<char>,
    agent: Seq<char>,
    to: Seq<char>,
    thread: Seq<char>,
    text: Seq<char>,
    seq_no: int,
    reply: Seq<char>,
    now: Seq<char>,
)
    ensures
        ({
            let m = message(node, Some(agent), to, thread, text, seq_no, Some(reply), now);
            let n = message(node, None, to, thread, text, seq_no, None, now);
            &&& m.at("from"@) == JsonView::Str(node)
            &&& m.at("from_agent"@) == JsonView::Str(agent)
            &&& n.at("from_agent"@) == JsonView::Str("dsh-tools"@)
            &&& m.at("to"@) == JsonView::Str(to)
            &&& m.at("thread"@) == JsonView::Str(thread)
            &&& m.at("text"@) == JsonView::Str(text)
            &&& m.at("seq"@) == JsonView::Int(seq_no)
            &&& m.at("reply_to"@) == JsonView::Str(reply)
            &&& n.at("reply_to"@) == JsonView::Str(seq![])
            &&& m.at("ts"@) == JsonView::Str(now)
        }),
{
    broadcast use read_of_put;

    reveal_strlit("from");
    reveal_strlit("from_agent");
    reveal_strlit("to");
    reveal_strlit("thread");
    reveal_strlit("text");
    reveal_strlit("seq");
    reveal_strlit("reply_to");
    reveal_strlit("ts");
    reveal_strlit("type");
    assert("from"@.len() == 4 && "from_agent"@.len() == 10 && "to"@.len() == 2 && "thread"@.len() == 6 && "text"@.len() == 4 && "seq"@.len() == 3 && "reply_to"@.len() == 8 && "ts"@.len() == 2 && "type"@.len() == 4);
    assert("from"@[0] != "text"@[0]);
    assert("from"@[0] != "type"@[0]);
    assert("to"@[1] != "ts"@[1]);
    assert("text"@[1] != "type"@[1]);
}

/// A thread is printed message by message, in order, behind a line that tells their number.
pub proof fn threads_are_shown(id: Seq<char>, m: Seq<JsonView>)
    ensures
        m.len() > 0 ==> thread_lines(id, m).len() == m.len() + 1,
        m.len() == 0 ==> thread_lines(id, m).len() == 1,
        forall|i: int|
            0 <= i < m.len() ==> #[trigger] thread_lines(id, m)[i + 1] == message_line(m[i]),
{
}

/// The place of a thread keeps hyphens and has one character for each of its name.
pub proof fn thread_places_keep_the_length(id: Seq<char>, i: int)
    requires
        0 <= i < id.len(),
    ensures
        thread_path(id).len() == 13 + id.len(),
        thread_path(id)[13 + i] == id[i] || thread_path(id)[13 + i] == '_',
        id[i] == '-' ==> thread_path(id)[13 + i] == '-',
        thread_path(id).take(13) == "data/threads/"@,
{
    reveal_strlit("data/threads/");
    assert(thread_path(id).take(13) =~= "data/threads/"@);
}

/// A message of a thread is shown with its sender and its text, where that has no more than a
/// hundred characters as a whole.
pub proof fn messages_are_shown(m: JsonView, from: Seq<char>, text: Seq<char>, ts: Seq<char>)
    requires
        m.at("from"@) == JsonView::Str(from),
        m.at("text"@) == JsonView::Str(text),
        m.at("ts"@) == JsonView::Str(ts),
    ensures
        text.len() <= 100 && ts.len() <= 19 ==> message_line(m) == "· ["@ + ts + "] "@ + from + ": "@
            + text,
        text.len() > 100 && ts.len() <= 19 ==> message_line(m) == "· ["@ + ts + "] "@ + from + ": "@
            + text.take(100),
{
}

} // verus!
