//! The HTTP side of the bus: requests are read and routed, answers written.
use vstd::prelude::*;
use crate::bus::{query_pairs, read_query, refusal, status, Config, Query};
use crate::http::{
    answers_are_read, host_port, request, response_body, response_code, url_path,
};
use crate::json::{compact, json_parsed, json_text, parse, read_of_put, Json, JsonView};
use crate::num::{dec, dec_is_plain, dec_round_trip, decimal, read_u64, uint_of};
use crate::text::{
    before, begins, blank, blank_line, byte_count, byte_len, cat3, cat7, cut, find,
    first_line_is_read, found_behind, from_utf8_lossy, head, head_ends_behind, head_goes_on,
    is_space, lines, lines_of, lossy, lowered, not_found, one_word, same, second, second_piece,
    split, split_once, starts, texts, to_lowercase, trim, trimmed, trimming_bares, words,
    words_of, words_on_both_sides,
};

verus! {

// ---------------------------------------------------------------- requests

/// The blank line that ends the head of a request stands in `b` at `i`.
pub open spec fn head_ends_at(b: Seq<u8>, i: int) -> bool {
    0 <= i && i + 4 <= b.len() && b[i] == 13 && b[i + 1] == 10 && b[i + 2] == 13 && b[i + 3] == 10
}

/// The head of a request is complete.
pub open spec fn head_complete(b: Seq<u8>) -> bool {
    exists|i: int| head_ends_at(b, i)
}

/// How many bytes of a request are read before it is given up.
pub open spec fn head_limit() -> int {
    1_200_000
}

/// Where the head of a request ends, from a place on.
pub open spec fn head_end_from(b: Seq<u8>, i: int) -> Option<int>
    decreases b.len() - i,
{
    if i < 0 || i + 4 > b.len() {
        None
    } else if head_ends_at(b, i) {
        Some(i)
    } else {
        head_end_from(b, i + 1)
    }
}

/// Where the head of a request ends: at its first blank line.
pub open spec fn head_end(b: Seq<u8>) -> Option<int> {
    head_end_from(b, 0)
}

proof fn head_end_is_first(b: Seq<u8>, i: int)
    requires
        0 <= i,
    ensures
        match head_end_from(b, i) {
            Some(k) => i <= k && head_ends_at(b, k) && forall|j: int|
                i <= j < k ==> !head_ends_at(b, j),
            None => forall|j: int| i <= j ==> !head_ends_at(b, j),
        },
    decreases b.len() - i,
{
    if i + 4 <= b.len() && !head_ends_at(b, i) {
        head_end_is_first(b, i + 1);
    }
}

/// Where the head of a request ends.
pub fn find_head_end(b: &Vec<u8>) -> (r: Option<usize>)
    ensures
        match r {
            Some(k) => head_end(b@) == Some(k as int),
            None => head_end(b@) is None,
        },
{
    let n: usize = b.len();
    let mut i: usize = 0;
    while i < n && n - i >= 4
        invariant
            i <= n == b@.len(),
            head_end(b@) == head_end_from(b@, i as int),
        decreases n - i,
    {
        if b[i] == 13 && b[i + 1] == 10 && b[i + 2] == 13 && b[i + 3] == 10 {
            return Some(i);
        }
        i += 1;
    }
    None
}

/// Whether the head of a request is complete.
pub fn has_head(b: &Vec<u8>) -> (r: bool)
    ensures
        r == head_complete(b@),
{
    proof {
        head_end_is_first(b@, 0);
    }
    find_head_end(b).is_some()
}

/// A line that tells how long the body is.
pub open spec fn length_line(l: Seq<char>) -> bool {
    starts(lowered(l), "content-length:"@)
}

/// How long the body is by the first line that tells it; nothing where none does, or where
/// it gives no number.
pub open spec fn declared_length(ls: Seq<Seq<char>>) -> nat
    decreases ls.len(),
{
    if ls.len() == 0 {
        0
    } else if length_line(ls[0]) {
        match split_once(ls[0], ":"@) {
            Some((_, v)) => match uint_of(trim(v), false, u64::MAX as nat) {
                Some(n) => n,
                None => 0,
            },
            None => 0,
        }
    } else {
        declared_length(ls.skip(1))
    }
}

fn length_in(l: &str) -> (r: Option<u64>)
    ensures
        match r {
            Some(n) => length_line(l@) && n == declared_length(seq![l@]),
            None => !length_line(l@),
        },
{
    if !begins(to_lowercase(l).as_str(), "content-length:") {
        return None;
    }
    assert(seq![l@][0] == l@);
    match cut(l, ":") {
        Some((_, v)) => match read_u64(trimmed(v.as_str()).as_str()) {
            Some(n) => Some(n),
            None => Some(0),
        },
        None => Some(0),
    }
}

/// How long the body is that a head announces.
pub fn body_length(head: &str) -> (r: u64)
    ensures
        r == declared_length(lines(head@)),
{
    let ls = lines_of(head);
    let ghost t = texts(ls@);
    let mut i: usize = 0;
    assert(t.skip(0) =~= t);
    while i < ls.len()
        invariant
            i <= ls@.len(),
            t == texts(ls@),
            t == lines(head@),
            declared_length(t) == declared_length(t.skip(i as int)),
        decreases ls@.len() - i,
    {
        assert(t.skip(i as int)[0] == ls@[i as int]@);
        assert(t.skip(i as int).skip(1) =~= t.skip(i + 1));
        if let Some(n) = length_in(ls[i].as_str()) {
            assert(seq![ls@[i as int]@][0] == ls@[i as int]@);
            return n;
        }
        i += 1;
    }
    0
}

/// A request is complete: behind its head stand as many bytes as the head announces.
pub open spec fn request_complete(b: Seq<u8>) -> bool {
    match head_end(b) {
        Some(k) => b.len() - k - 4 >= declared_length(lines(lossy(b.take(k)))),
        None => false,
    }
}

/// Whether a request is complete.
pub fn has_request(b: &Vec<u8>) -> (r: bool)
    ensures
        r == request_complete(b@),
{
    proof {
        head_end_is_first(b@, 0);
    }
    match find_head_end(b) {
        Some(k) => {
            let head = from_utf8_lossy(vstd::slice::slice_subrange(b.as_slice(), 0, k));
            assert(b@.subrange(0, k as int) =~= b@.take(k as int));
            (b.len() - k - 4) as u64 >= body_length(head.as_str())
        },
        None => false,
    }
}

/// Whether enough of a request was read: it is complete, or too long.
pub fn read_enough(b: &Vec<u8>) -> (r: bool)
    ensures
        r == (request_complete(b@) || b@.len() > head_limit()),
{
    has_request(b) || b.len() > 1_200_000
}

/// A request, as far as the bus reads it.
pub struct Request {
    pub method: String,
    pub path: String,
    pub query: Query,
    pub body: String,
}

/// The words of the first line.
pub open spec fn request_words(text: Seq<char>) -> Seq<Seq<char>> {
    if lines(text).len() == 0 {
        seq![]
    } else {
        words(lines(text)[0])
    }
}

/// The path and the query of a target.
pub open spec fn target_parts(t: Seq<char>) -> (Seq<char>, Seq<char>) {
    match split_once(t, "?"@) {
        Some(p) => p,
        None => (t, seq![]),
    }
}

/// What follows the head, up to the next blank line.
pub open spec fn body_text(text: Seq<char>) -> Seq<char> {
    match second_piece(text, "\r\n\r\n"@) {
        Some(b) => b,
        None => seq![],
    }
}

/// A request is read: its first line has a method and a target.
pub open spec fn request_is(q: Request, text: Seq<char>) -> bool {
    let w = request_words(text);
    &&& w.len() >= 2
    &&& q.method@ == w[0]
    &&& q.path@ == target_parts(w[1]).0
    &&& q.query.texts() == query_pairs(split(target_parts(w[1]).1, "&"@))
    &&& q.body@ == body_text(text)
}

/// Reads a request; none where its first line has fewer than two words.
pub fn read_request(text: &str) -> (r: Option<Request>)
    ensures
        match r {
            Some(q) => request_is(q, text@),
            None => request_words(text@).len() < 2,
        },
{
    let ls = lines_of(text);
    assert(texts(ls@).len() == ls@.len());
    if ls.len() == 0 {
        return None;
    }
    assert(texts(ls@)[0] == ls@[0]@);
    let w = words_of(ls[0].as_str());
    let ghost wt = texts(w@);
    assert(wt.len() == w@.len());
    if w.len() < 2 {
        return None;
    }
    assert(wt[0] == w@[0]@ && wt[1] == w@[1]@);
    let (path, query) = match cut(w[1].as_str(), "?") {
        Some((p, q)) => (p, q),
        None => (w[1].clone(), String::new()),
    };
    let body = match second(text, "\r\n\r\n") {
        Some(b) => b,
        None => String::new(),
    };
    Some(Request { method: w[0].clone(), path, query: read_query(query.as_str()), body })
}

/// The value of a body: the empty object where it is blank or holds no value.
pub open spec fn body_value(b: Seq<char>) -> JsonView {
    if trim(b).len() == 0 {
        JsonView::object()
    } else {
        match json_parsed(b) {
            Ok(v) => v,
            Err(_) => JsonView::object(),
        }
    }
}

/// The value of a body.
pub fn read_body(b: &str) -> (r: Json)
    ensures
        r@ == body_value(b@),
{
    if trimmed(b).as_str().is_empty() {
        return Json::object();
    }
    match parse(b) {
        Ok(v) => v,
        Err(_) => Json::object(),
    }
}

// ---------------------------------------------------------------- access

/// A header gives the token: it has the name of the one for it, and the token as its value.
pub open spec fn gives_token(l: Seq<char>, token: Seq<char>) -> bool {
    starts(lowered(l), "x-webhook-token:"@) && match split_once(l, ":"@) {
        Some((_, v)) => trim(v) == token,
        None => false,
    }
}

/// The lines of the head of a request: the request line and the headers.
pub open spec fn head_lines(text: Seq<char>) -> Seq<Seq<char>> {
    lines(before(text, "\r\n\r\n"@))
}

/// A request is let in: no token is asked for, or some header of it gives the token.
pub open spec fn let_in(text: Seq<char>, token: Seq<char>) -> bool {
    token.len() == 0 || exists|i: int|
        1 <= i < head_lines(text).len() && gives_token(#[trigger] head_lines(text)[i], token)
}

fn does_give_token(l: &str, token: &str) -> (r: bool)
    ensures
        r == gives_token(l@, token@),
{
    if !begins(to_lowercase(l).as_str(), "x-webhook-token:") {
        return false;
    }
    match cut(l, ":") {
        Some((_, v)) => same(trimmed(v.as_str()).as_str(), token),
        None => false,
    }
}

/// Whether a request is let in.
pub fn authorized(text: &str, token: &str) -> (r: bool)
    ensures
        r == let_in(text@, token@),
{
    if token.is_empty() {
        return true;
    }
    let ls = lines_of(head(text, "\r\n\r\n").as_str());
    let ghost t = head_lines(text@);
    let mut i: usize = 1;
    while i < ls.len()
        invariant
            1 <= i,
            t == texts(ls@),
            t == head_lines(text@),
            forall|j: int| 1 <= j < i && j < t.len() ==> !gives_token(#[trigger] t[j], token@),
        decreases ls@.len() - i,
    {
        assert(t[i as int] == ls@[i as int]@);
        if does_give_token(ls[i].as_str(), token) {
            assert(gives_token(head_lines(text@)[i as int], token@));
            return true;
        }
        i += 1;
    }
    false
}

// ---------------------------------------------------------------- routes

/// What a request asks of the bus.
#[derive(Clone, Copy, PartialEq, Eq, Structural, Debug)]
pub enum Route {
    Health,
    Status,
    Receive,
    Outbox,
    Send,
    Reply,
    NotFound,
}

/// What a method and a path ask of the bus.
pub open spec fn route_of(method: Seq<char>, path: Seq<char>) -> Route {
    if method == "GET"@ && path == "/health"@ {
        Route::Health
    } else if method == "GET"@ && path == "/bus/status"@ {
        Route::Status
    } else if method == "GET"@ && path == "/bus/receive"@ {
        Route::Receive
    } else if method == "GET"@ && path == "/bus/outbox"@ {
        Route::Outbox
    } else if method == "POST"@ && path == "/bus/send"@ {
        Route::Send
    } else if method == "POST"@ && path == "/bus/reply"@ {
        Route::Reply
    } else {
        Route::NotFound
    }
}

/// What a method and a path ask of the bus.
pub fn route(method: &str, path: &str) -> (r: Route)
    ensures
        r == route_of(method@, path@),
{
    if same(method, "GET") && same(path, "/health") {
        Route::Health
    } else if same(method, "GET") && same(path, "/bus/status") {
        Route::Status
    } else if same(method, "GET") && same(path, "/bus/receive") {
        Route::Receive
    } else if same(method, "GET") && same(path, "/bus/outbox") {
        Route::Outbox
    } else if same(method, "POST") && same(path, "/bus/send") {
        Route::Send
    } else if same(method, "POST") && same(path, "/bus/reply") {
        Route::Reply
    } else {
        Route::NotFound
    }
}

/// What becomes of a connection.
pub enum Step {
    /// Nothing is answered.
    Drop,
    /// The request is refused for want of the token.
    Unauthorized,
    /// The request is served.
    Serve { route: Route, request: Request },
}

/// A step is what becomes of a connection on which a text came in.
pub open spec fn step_is(r: Step, token: Seq<char>, text: Seq<char>) -> bool {
    if request_words(text).len() < 2 {
        r is Drop
    } else if !let_in(text, token) {
        r is Unauthorized
    } else {
        r matches Step::Serve { route, request } && request_is(request, text) && route == route_of(
            request.method@,
            request.path@,
        )
    }
}

/// Decides what becomes of a connection on which some bytes came in.
pub fn decide_bytes(cfg: &Config, b: &Vec<u8>) -> (r: Step)
    ensures
        step_is(r, cfg.token@, lossy(b@)),
{
    decide(cfg, from_utf8_lossy(b.as_slice()).as_str())
}

/// Decides what becomes of a connection on which a text came in.
pub fn decide(cfg: &Config, text: &str) -> (r: Step)
    ensures
        step_is(r, cfg.token@, text@),
{
    match read_request(text) {
        None => Step::Drop,
        Some(q) => {
            if !authorized(text, cfg.token.as_str()) {
                return Step::Unauthorized;
            }
            Step::Serve { route: route(q.method.as_str(), q.path.as_str()), request: q }
        },
    }
}

// ---------------------------------------------------------------- answers

/// The answer to a request without the token.
pub fn unauthorized_answer() -> (r: Json)
    ensures
        r@ == refusal("unauthorized"@),
{
    Json::object().with("ok", Json::Bool(false)).with("errmsg", Json::text("unauthorized"))
}

/// The answer to a request that asks for nothing there is.
pub fn not_found_answer() -> (r: Json)
    ensures
        r@ == refusal("not found"@),
{
    Json::object().with("ok", Json::Bool(false)).with("errmsg", Json::text("not found"))
}

/// The answer that tells how the bus is.
pub fn health_answer(cfg: &Config, ms: u64) -> (r: Json)
    ensures
        r@ == JsonView::object().put("ok"@, JsonView::Bool(true)).put(
            "service"@,
            JsonView::Str("bus-bridge"@),
        ).put("ts"@, JsonView::Int(ms as int)).put("queue"@, JsonView::Str(cfg.queue_dir@)),
{
    Json::object().with("ok", Json::Bool(true)).with("service", Json::text("bus-bridge")).with(
        "ts",
        Json::Uint(ms),
    ).with("queue", Json::text(cfg.queue_dir.as_str()))
}

/// What a code is called.
pub open spec fn reason(code: u16) -> Seq<char> {
    if code == 200 {
        "OK"@
    } else if code == 401 {
        "Unauthorized"@
    } else {
        "Not Found"@
    }
}

/// An answer with a body.
pub open spec fn response(code: u16, body: Seq<char>) -> Seq<char> {
    "HTTP/1.1 "@ + dec(code as nat) + " "@ + reason(code)
        + "\r\nContent-Type: application/json\r\nContent-Length: "@ + dec(byte_len(body))
        + "\r\nConnection: close\r\n\r\n"@ + body
}

/// An answer with a text as its body.
pub fn response_text(code: u16, body: &str) -> (r: String)
    ensures
        r@ == response(code, body@),
{
    let why = if code == 200 {
        "OK"
    } else if code == 401 {
        "Unauthorized"
    } else {
        "Not Found"
    };
    let n: usize = byte_count(body);
    let mut s = cat7(
        "HTTP/1.1 ",
        decimal(code as u64).as_str(),
        " ",
        why,
        "\r\nContent-Type: application/json\r\nContent-Length: ",
        decimal(n as u64).as_str(),
        "\r\nConnection: close\r\n\r\n",
    );
    s.append(body);
    s
}

/// An answer with a value as its body.
pub fn send_json(code: u16, v: &Json) -> (r: String)
    ensures
        r@ == response(code, json_text(v@.canon())),
        v@.orderly() ==> r@ == response(code, json_text(v@)),
{
    response_text(code, compact(v).as_str())
}

// ---------------------------------------------------------------- waiting

/// A request waits for its reply: it asks to, and its task was taken.
pub open spec fn waits(asked: bool, answer: JsonView) -> bool {
    asked && answer.flag("ok"@)
}

/// Whether a request waits for its reply, given the answer to it.
pub fn must_wait(q: &Query, answer: &Json) -> (r: bool)
    ensures
        r == waits(crate::bus::asks(q.texts(), "wait"@), answer@),
{
    let v = q.get_or_empty("wait");
    (same(v.as_str(), "1") || same(v.as_str(), "true")) && answer.flag_at("ok")
}

/// How long a request waits, in milliseconds.
pub open spec fn wait_limit() -> int {
    30_000
}

/// Whether a request that began to wait at a time has waited long enough.
pub fn wait_over(start: u64, now: u64) -> (r: bool)
    ensures
        r == (now >= start + wait_limit()),
{
    now as u128 >= start as u128 + 30_000
}

/// A task has come to its end.
pub open spec fn ended(task: JsonView) -> bool {
    status(task) == "done"@ || status(task) == "failed"@
}

/// The answer once the task has come to its end.
pub open spec fn end_answer(id: Seq<char>, task: JsonView, out: JsonView) -> JsonView {
    JsonView::object().put("ok"@, JsonView::Bool(true)).put("task_id"@, JsonView::Str(id)).put(
        "status"@,
        JsonView::Str(status(task)),
    ).put("result"@, out.at("result"@)).put("error"@, out.at("error"@))
}

/// The answer where the task did not come to its end in time.
pub open spec fn wait_answer(id: Seq<char>) -> JsonView {
    JsonView::object().put("ok"@, JsonView::Bool(true)).put("task_id"@, JsonView::Str(id)).put(
        "status"@,
        JsonView::Str("queued"@),
    ).put("note"@, JsonView::Str("等待超时（30s），请 GET /bus/outbox?task_id="@ + id + " 拉取"@))
}

/// The answer to a request that waits, once its task has come to its end; `out` is
/// what the file of the reply holds.
pub fn poll_answer(id: &str, task: &Option<Json>, out: &Option<Json>) -> (r: Option<Json>)
    ensures
        match task {
            Some(t) => if ended(t@) {
                r matches Some(v) && v@ == end_answer(
                    id@,
                    t@,
                    match out {
                        Some(o) => o@,
                        None => JsonView::object(),
                    },
                )
            } else {
                r is None
            },
            None => r is None,
        },
{
    proof {
        reveal_strlit("");
        assert(""@ =~= seq![]);
    }
    match task {
        Some(t) => {
            let st = t.text_or("status", "");
            if !same(st.as_str(), "done") && !same(st.as_str(), "failed") {
                return None;
            }
            let o = match out {
                Some(o) => o.copy(),
                None => Json::object(),
            };
            Some(
                Json::object().with("ok", Json::Bool(true)).with("task_id", Json::text(id)).with(
                    "status",
                    Json::text(st.as_str()),
                ).with("result", o.at("result")).with("error", o.at("error")),
            )
        },
        None => None,
    }
}

/// The answer to a request whose task did not come to its end in time.
pub fn timeout_answer(id: &str) -> (r: Json)
    ensures
        r@ == wait_answer(id@),
{
    Json::object().with("ok", Json::Bool(true)).with("task_id", Json::text(id)).with(
        "status",
        Json::text("queued"),
    ).with(
        "note",
        Json::text(cat3("等待超时（30s），请 GET /bus/outbox?task_id=", id, " 拉取").as_str()),
    )
}

// ---------------------------------------------------------------- laws

/// How long a body is, is read behind the colon of the first line that tells it, without
/// the blanks around it.
pub proof fn lengths_are_read(
    before: Seq<Seq<char>>,
    name: Seq<char>,
    gap: Seq<char>,
    n: nat,
    end: Seq<char>,
    behind: Seq<Seq<char>>,
)
    requires
        n <= u64::MAX,
        !name.contains(':'),
        blank(gap),
        blank(end),
        forall|i: int| 0 <= i < before.len() ==> !length_line(#[trigger] before[i]),
        length_line(name + seq![':'] + (gap + dec(n) + end)),
    ensures
        declared_length(before + seq![name + seq![':'] + (gap + dec(n) + end)] + behind) == n,
        declared_length(before) == 0,
    decreases before.len(),
{
    let l = name + seq![':'] + (gap + dec(n) + end);
    let ls = before + seq![l] + behind;
    if before.len() == 0 {
        assert(ls[0] == l);
        reveal_strlit(":");
        assert(":"@ =~= seq![':']);
        found_behind(name, ':', gap + dec(n) + end);
        dec_is_plain(n);
        trimming_bares(gap, dec(n), end);
        dec_round_trip(n, u64::MAX as nat);
    } else {
        assert(ls[0] == before[0]);
        assert(!length_line(before[0]));
        assert(ls.skip(1) =~= before.skip(1) + seq![l] + behind);
        lengths_are_read(before.skip(1), name, gap, n, end, behind);
    }
}

/// A request is complete exactly where as many bytes as its head announces stand behind the
/// first blank line; without a blank line it is not.
pub proof fn bodies_are_awaited(b: Seq<u8>, k: int)
    ensures
        head_ends_at(b, k) && (forall|j: int| 0 <= j < k ==> !head_ends_at(b, j))
            ==> request_complete(b) == (b.len() >= k + 4 + declared_length(
            lines(lossy(b.take(k))),
        )),
        (forall|j: int| !head_ends_at(b, j)) ==> !request_complete(b),
{
    head_end_is_first(b, 0);
    if let Some(m) = head_end(b) {
        assert(head_ends_at(b, m));
        if head_ends_at(b, k) && (forall|j: int| 0 <= j < k ==> !head_ends_at(b, j)) {
            assert(m == k);
        }
    } else if head_ends_at(b, k) {
        assert(false);
    }
}

/// A target is a path, and behind the first question mark a query.
pub proof fn targets_are_parted(path: Seq<char>, query: Seq<char>)
    requires
        !path.contains('?'),
    ensures
        target_parts(path + seq!['?'] + query) == (path, query),
        target_parts(path) == (path, Seq::<char>::empty()),
{
    reveal_strlit("?");
    assert("?"@ =~= seq!['?']);
    found_behind(path, '?', query);
    not_found(path, '?');
}

/// A header for the token lets a request in exactly where its value, without the blanks
/// around it, is the token.
pub proof fn tokens_are_compared(
    name: Seq<char>,
    gap: Seq<char>,
    value: Seq<char>,
    end: Seq<char>,
    token: Seq<char>,
)
    requires
        !name.contains(':'),
        blank(gap),
        blank(end),
        value.len() > 0,
        !is_space(value[0]),
        !is_space(value.last()),
        starts(lowered(name + seq![':'] + (gap + value + end)), "x-webhook-token:"@),
    ensures
        gives_token(name + seq![':'] + (gap + value + end), token) <==> value == token,
{
    reveal_strlit(":");
    assert(":"@ =~= seq![':']);
    found_behind(name, ':', gap + value + end);
    trimming_bares(gap, value, end);
}

/// Where no token is asked for every request is let in; where one is, a header with it has
/// to stand behind the first line of the head, and any line there will do.
pub proof fn tokens_let_in(text: Seq<char>, token: Seq<char>, i: int)
    ensures
        let_in(text, seq![]),
        1 <= i < head_lines(text).len() && gives_token(head_lines(text)[i], token) ==> let_in(
            text,
            token,
        ),
        token.len() > 0 && (forall|j: int|
            1 <= j < head_lines(text).len() ==> !gives_token(#[trigger] head_lines(text)[j], token))
            ==> !let_in(text, token),
{
}

/// Each of the six routes has its own method and path, and nothing else leads to it.
pub proof fn routes_have_their_paths(m: Seq<char>, p: Seq<char>)
    ensures
        route_of(m, p) is Health <==> m == "GET"@ && p == "/health"@,
        route_of(m, p) is Status <==> m == "GET"@ && p == "/bus/status"@,
        route_of(m, p) is Receive <==> m == "GET"@ && p == "/bus/receive"@,
        route_of(m, p) is Outbox <==> m == "GET"@ && p == "/bus/outbox"@,
        route_of(m, p) is Send <==> m == "POST"@ && p == "/bus/send"@,
        route_of(m, p) is Reply <==> m == "POST"@ && p == "/bus/reply"@,
{
    reveal_strlit("GET");
    reveal_strlit("POST");
    reveal_strlit("/health");
    reveal_strlit("/bus/status");
    reveal_strlit("/bus/receive");
    reveal_strlit("/bus/outbox");
    reveal_strlit("/bus/send");
    reveal_strlit("/bus/reply");
    assert("GET"@.len() == 3 && "POST"@.len() == 4);
    assert("/health"@.len() == 7 && "/bus/status"@.len() == 11 && "/bus/receive"@.len() == 12
        && "/bus/outbox"@.len() == 11 && "/bus/send"@.len() == 9 && "/bus/reply"@.len() == 10);
    assert("/bus/status"@[5] == 's' && "/bus/outbox"@[5] == 'o');
}

proof fn regroup(
    x: Seq<char>,
    sp: Seq<char>,
    d: Seq<char>,
    why: Seq<char>,
    le: Seq<char>,
    t: Seq<char>,
    cl: Seq<char>,
    e: Seq<char>,
    cc: Seq<char>,
    bl: Seq<char>,
    body: Seq<char>,
)
    ensures
        (x + sp) + d + sp + why + (le + t + le + cl) + e + (le + cc + bl) + body == x + sp + (d + sp
            + why) + le + (t + le + ((cl + e) + le + (cc + bl + body))),
{
    let a = (x + sp) + d + sp + why + (le + t + le + cl) + e + (le + cc + bl) + body;
    let b = x + sp + (d + sp + why) + le + (t + le + ((cl + e) + le + (cc + bl + body)));
    assert(a =~= b);
}

/// An answer of the bus is read by its other side as it was meant: with its code, and with
/// its body where that holds no blank line.
pub proof fn answers_reach_the_other_side(code: u16, body: Seq<char>)
    requires
        find(body, blank_line()) is None,
    ensures
        response_code(response(code, body)) == code,
        response_body(response(code, body)) == body,
{
    reveal_strlit("HTTP/1.1");
    reveal_strlit("HTTP/1.1 ");
    reveal_strlit(" ");
    reveal_strlit("OK");
    reveal_strlit("Unauthorized");
    reveal_strlit("Not Found");
    reveal_strlit("Content-Type: application/json");
    reveal_strlit("Content-Length: ");
    reveal_strlit("Connection: close");
    reveal_strlit("\r\nContent-Type: application/json\r\nContent-Length: ");
    reveal_strlit("\r\nConnection: close\r\n\r\n");
    let (x, sp, d, why) = ("HTTP/1.1"@, seq![' '], dec(code as nat), reason(code));
    let (le, t, cl) = (seq!['\r', '\n'], "Content-Type: application/json"@, "Content-Length: "@);
    let (e, cc, bl) = (dec(byte_len(body)), "Connection: close"@, blank_line());
    assert("HTTP/1.1 "@ =~= x + sp);
    assert(" "@ =~= sp);
    assert("\r\nContent-Type: application/json\r\nContent-Length: "@ =~= le + t + le + cl);
    assert("\r\nConnection: close\r\n\r\n"@ =~= le + cc + bl);
    regroup(x, sp, d, why, le, t, cl, e, cc, bl, body);
    dec_is_plain(byte_len(body));
    let c = cc + bl + body;
    let b = (cl + e) + le + c;
    let h = t + le + b;
    head_ends_behind(cc, body);
    head_goes_on(cl + e, c, cc.len() as int);
    head_goes_on(t, b, (cl + e).len() + 2 + cc.len() as int);
    let n = t.len() + 2 + ((cl + e).len() + 2 + cc.len()) as int;
    assert(h.skip(n + 4) =~= body);
    answers_are_read(code, why, h, body, n);
}

/// A request waits for its reply exactly where it asks to and its task was taken; a task has
/// come to its end exactly where it is done or failed.
pub proof fn waiting_ends(asked: bool, answer: JsonView, task: JsonView)
    ensures
        answer.at("ok"@) == JsonView::Bool(true) ==> waits(asked, answer) == asked,
        answer.at("ok"@) == JsonView::Bool(false) ==> !waits(asked, answer),
        task.at("status"@) == JsonView::Str("done"@) ==> ended(task),
        task.at("status"@) == JsonView::Str("failed"@) ==> ended(task),
        task.at("status"@) == JsonView::Str("queued"@) ==> !ended(task),
        task.at("status"@) == JsonView::Str("processing"@) ==> !ended(task),
        wait_limit() == 30 * 1000,
{
    reveal_strlit("done");
    reveal_strlit("failed");
    reveal_strlit("queued");
    reveal_strlit("processing");
    assert("done"@.len() == 4 && "failed"@.len() == 6 && "queued"@.len() == 6
        && "processing"@.len() == 10);
    assert("failed"@[0] == 'f' && "queued"@[0] == 'q');
}

/// Who waited is told the state of the task, its result and its error, once it has come to
/// its end; who waited too long is told that it still waits.
pub proof fn waiting_is_answered(id: Seq<char>, task: JsonView, out: JsonView)
    ensures
        ({
            let v = end_answer(id, task, out);
            let w = wait_answer(id);
            &&& v.at("ok"@) == JsonView::Bool(true)
            &&& v.at("task_id"@) == JsonView::Str(id)
            &&& v.at("status"@) == JsonView::Str(task.text_or("status"@, seq![]))
            &&& v.at("result"@) == out.at("result"@)
            &&& v.at("error"@) == out.at("error"@)
            &&& w.at("ok"@) == JsonView::Bool(true)
            &&& w.at("task_id"@) == JsonView::Str(id)
            &&& w.at("status"@) == JsonView::Str("queued"@)
        }),
{
    broadcast use read_of_put;

    reveal_strlit("ok");
    reveal_strlit("task_id");
    reveal_strlit("status");
    reveal_strlit("result");
    reveal_strlit("error");
    reveal_strlit("note");
    assert("ok"@.len() == 2 && "task_id"@.len() == 7 && "status"@.len() == 6 && "result"@.len() == 6 && "error"@.len() == 5 && "note"@.len() == 4);
    assert("status"@[0] != "result"@[0]);
}

/// The value of a body is what it holds; a blank body, and one that holds no value, stand for
/// an empty one.
pub proof fn bodies_are_read(b: Seq<char>)
    ensures
        trim(b).len() > 0 ==> (json_parsed(b) matches Ok(v) ==> body_value(b) == v),
        trim(b).len() == 0 ==> body_value(b) == JsonView::object(),
        json_parsed(b) is Err ==> body_value(b) == JsonView::object(),
{
}

proof fn rearrange(
    m: Seq<char>,
    sp: Seq<char>,
    p: Seq<char>,
    ht: Seq<char>,
    le: Seq<char>,
    ho: Seq<char>,
    hp: Seq<char>,
    t: Seq<char>,
    cl: Seq<char>,
    e: Seq<char>,
    cc: Seq<char>,
    bl: Seq<char>,
    body: Seq<char>,
)
    ensures
        m + sp + p + (sp + ht + le + ho) + hp + (le + t + le + cl) + e + le + Seq::<char>::empty()
            + (cc + bl) + body == (m + sp + (p + sp + ht)) + le + ((ho + hp) + le + (t + le + ((cl
            + e) + le + (cc + bl + body)))),
{
    let a = m + sp + p + (sp + ht + le + ho) + hp + (le + t + le + cl) + e + le
        + Seq::<char>::empty() + (cc + bl) + body;
    let b = (m + sp + (p + sp + ht)) + le + ((ho + hp) + le + (t + le + ((cl + e) + le + (cc + bl
        + body))));
    assert(a =~= b);
}

/// A request without a token is read by the bus as it was meant: with its method, its path
/// and its body, where that holds no blank line.
pub proof fn requests_reach_the_bus(method: Seq<char>, url: Seq<char>, body: Seq<char>)
    requires
        method.len() > 0,
        forall|i: int| 0 <= i < method.len() ==> !is_space(#[trigger] method[i]),
        url_path(url).len() > 0,
        forall|i: int| 0 <= i < url_path(url).len() ==> !is_space(#[trigger] url_path(url)[i]),
        !host_port(url).contains('\r'),
        find(body, blank_line()) is None,
    ensures
        request_words(request(method, url, body, seq![])) == seq![
            method,
            url_path(url),
            "HTTP/1.1"@,
        ],
        body_text(request(method, url, body, seq![])) == body,
{
    reveal_strlit(" ");
    reveal_strlit(" HTTP/1.1\r\nHost: ");
    reveal_strlit("HTTP/1.1");
    reveal_strlit("Host: ");
    reveal_strlit("Content-Type: application/json");
    reveal_strlit("Content-Length: ");
    reveal_strlit("Connection: close");
    reveal_strlit("\r\nContent-Type: application/json\r\nContent-Length: ");
    reveal_strlit("\r\n");
    reveal_strlit("Connection: close\r\n\r\n");
    reveal_strlit("\r\n\r\n");
    let (sp, p, ht, le) = (seq![' '], url_path(url), "HTTP/1.1"@, seq!['\r', '\n']);
    let (ho, hp, t) = ("Host: "@, host_port(url), "Content-Type: application/json"@);
    let (cl, e, cc, bl) = (
        "Content-Length: "@,
        dec(byte_len(body)),
        "Connection: close"@,
        blank_line(),
    );
    assert(" "@ =~= sp);
    assert(" HTTP/1.1\r\nHost: "@ =~= sp + ht + le + ho);
    assert("\r\nContent-Type: application/json\r\nContent-Length: "@ =~= le + t + le + cl);
    assert("\r\n"@ =~= le);
    assert("Connection: close\r\n\r\n"@ =~= cc + bl);
    assert("\r\n\r\n"@ =~= bl);
    rearrange(method, sp, p, ht, le, ho, hp, t, cl, e, cc, bl, body);
    dec_is_plain(byte_len(body));
    let s = request(method, url, body, seq![]);
    let l = method + sp + (p + sp + ht);
    let c = cc + bl + body;
    let b = (cl + e) + le + c;
    let h = t + le + b;
    let g = (ho + hp) + le + h;
    assert(s == l + le + g);
    assert(!l.contains('\r') && !l.contains('\n')) by {
        if l.contains('\r') || l.contains('\n') {
            let i = choose|i: int| 0 <= i < l.len() && (l[i] == '\r' || l[i] == '\n');
            let n = method.len() as int;
            if i < n {
                assert(is_space(method[i]));
            } else if n < i && i < n + 1 + p.len() {
                assert(is_space(p[i - n - 1]));
            } else if i > n + 1 + p.len() {
                assert(l[i] == ht[i - n - 2 - p.len()]);
            }
        }
    }
    first_line_is_read(l, g);
    words_on_both_sides(method, ' ', p + sp + ht);
    words_on_both_sides(p, ' ', ht);
    one_word(method);
    one_word(p);
    one_word(ht);
    assert(words(l) =~= seq![method, p, ht]);
    assert(!(ho + hp).contains('\r')) by {
        if (ho + hp).contains('\r') {
            let i = choose|i: int| 0 <= i < (ho + hp).len() && (ho + hp)[i] == '\r';
            if i >= ho.len() {
                assert(hp[i - ho.len()] == '\r');
            }
        }
    }
    head_ends_behind(cc, body);
    head_goes_on(cl + e, c, cc.len() as int);
    let n1 = (cl + e).len() + 2 + cc.len() as int;
    head_goes_on(t, b, n1);
    let n2 = t.len() + 2 + n1;
    head_goes_on(ho + hp, h, n2);
    let n3 = (ho + hp).len() + 2 + n2;
    head_goes_on(l, g, n3);
    assert(s.skip(l.len() + 2 + n3 + 4) =~= body);
}

} // verus!
