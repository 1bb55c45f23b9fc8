//! The way into the GUI from outside: which port it listens on, and how requests are
//! handed on to it.
use vstd::prelude::*;
use crate::args::{last_value, names, options, read_args, value_or};
use crate::bus_http::{
    body_text, has_head, has_request, head_complete, head_limit, request_complete, request_words,
};
use crate::num::{dec, dec_is_plain, dec_round_trip, decimal, read_u16, uint_of};
use crate::text::{
    before, begins, blank, cat3, cat4, chars_of, contains, cut, ends, find, find_text,
    found_behind, found_there, from_utf8_lossy, has, head, is_space, lines, lines_are_unbroken,
    lines_of, lines_of_two, lossy, lowercase_stays, lowered, maybe, one_word, parts_are_seen,
    piece_between, same, second, second_piece, slice, split_once, starts, strip_cr, texts,
    to_lowercase, unbroken, whole_lines, words, words_of, words_on_both_sides,
};
use vstd::utf8::is_ascii_chars;

verus! {

// ---------------------------------------------------------------- finding

/// The address that a line of `ifconfig` gives; empty where it gives none.
pub open spec fn line_address(l: Seq<char>) -> Option<Seq<char>> {
    match find(l, "inet "@) {
        Some(i) => {
            let w = words(l.skip(i + 5));
            if w.len() > 0 {
                Some(w[0])
            } else {
                Some(seq![])
            }
        },
        None => None,
    }
}

/// An address of the private net.
pub open spec fn private_address(l: Seq<char>) -> bool {
    line_address(l) matches Some(a) && starts(a, "100."@)
}

/// The address in the first line that gives one of the private net.
pub open spec fn first_address(ls: Seq<Seq<char>>) -> Option<Seq<char>>
    decreases ls.len(),
{
    if ls.len() == 0 {
        None
    } else if private_address(ls[0]) {
        line_address(ls[0])
    } else {
        first_address(ls.skip(1))
    }
}

fn address_in(l: &str) -> (r: Option<String>)
    ensures
        maybe(r) == line_address(l@),
{
    proof {
        reveal_strlit("inet ");
    }
    match find_text(l, "inet ") {
        Some(i) => {
            let n: usize = chars_of(l).len();
            proof {
                crate::text::find_from_is_first(l@, "inet "@, 0);
            }
            let rest = slice(l, i + 5, n);
            assert(rest@ =~= l@.skip(i + 5));
            let w = words_of(rest.as_str());
            let ghost t = words(rest@);
            assert(t.len() == w@.len());
            if w.len() > 0 {
                assert(t[0] == w@[0]@);
                Some(w[0].clone())
            } else {
                Some(String::new())
            }
        },
        None => None,
    }
}

/// The address of this machine in the private net, given what `ifconfig` printed.
pub fn discover_tailnet_ip(txt: &str) -> (r: Option<String>)
    ensures
        maybe(r) == first_address(lines(txt@)),
{
    let ls = lines_of(txt);
    let ghost t = lines(txt@);
    assert(t.len() == ls@.len());
    let mut i: usize = 0;
    assert(t.skip(0) =~= t);
    while i < ls.len()
        invariant
            i <= ls@.len(),
            t == lines(txt@),
            t == texts(ls@),
            first_address(t) == first_address(t.skip(i as int)),
        decreases ls@.len() - i,
    {
        assert(t.skip(i as int)[0] == ls@[i as int]@);
        assert(t.skip(i as int).skip(1) =~= t.skip(i + 1));
        if let Some(a) = address_in(ls[i].as_str()) {
            if begins(a.as_str(), "100.") {
                return Some(a);
            }
        }
        i += 1;
    }
    None
}

/// The port of the GUI that a line of `lsof` gives: of the program itself, and no low
/// port.
pub open spec fn line_port(l: Seq<char>) -> Option<nat> {
    let w = words(l);
    if w.len() < 9 || w[0] != "CLD"@ {
        None
    } else {
        match second_piece(w[8], ":"@) {
            Some(p) => match uint_of(p, false, u16::MAX as nat) {
                Some(n) => if n >= 4000 {
                    Some(n)
                } else {
                    None
                },
                None => None,
            },
            None => None,
        }
    }
}

/// The port that the last line with one gives; zero where none does.
pub open spec fn last_port(ls: Seq<Seq<char>>) -> nat
    decreases ls.len(),
{
    if ls.len() == 0 {
        0
    } else {
        match line_port(ls.last()) {
            Some(p) => p,
            None => last_port(ls.drop_last()),
        }
    }
}

fn port_in(l: &str) -> (r: Option<u16>)
    ensures
        match r {
            Some(p) => line_port(l@) == Some(p as nat),
            None => line_port(l@) is None,
        },
{
    let w = words_of(l);
    let ghost t = words(l@);
    assert(t.len() == w@.len());
    if w.len() < 9 {
        return None;
    }
    assert(t[0] == w@[0]@ && t[8] == w@[8]@);
    if !same(w[0].as_str(), "CLD") {
        return None;
    }
    match second(w[8].as_str(), ":") {
        Some(p) => match read_u16(p.as_str()) {
            Some(n) => if n >= 4000 {
                Some(n)
            } else {
                None
            },
            None => None,
        },
        None => None,
    }
}

/// The port that the GUI listens on, given what `lsof` printed; zero where it listens
/// on none.
pub fn discover_gui_port(txt: &str) -> (r: u16)
    ensures
        r == last_port(lines(txt@)),
{
    let ls = lines_of(txt);
    let ghost t = lines(txt@);
    assert(t.len() == ls@.len());
    let mut i: usize = ls.len();
    assert(t.take(i as int) =~= t);
    while i > 0
        invariant
            i <= ls@.len(),
            t == lines(txt@),
            t == texts(ls@),
            last_port(t) == last_port(t.take(i as int)),
        decreases i,
    {
        proof {
            assert(t.take(i as int).last() == ls@[i - 1]@);
            assert(t.take(i as int).drop_last() =~= t.take(i - 1));
        }
        if let Some(p) = port_in(ls[i - 1].as_str()) {
            return p;
        }
        i -= 1;
    }
    0
}

/// What is known of the GUI: its port, zero where it is unknown, and the second of the
/// last look.
pub struct Gui {
    pub port: u16,
    pub looked: u64,
}

/// Whether the port is to be looked for again: once a minute, while it is unknown, and where
/// the clock went back behind the last look.
pub fn look_due(g: &Gui, now: u64) -> (r: bool)
    ensures
        r == (now < g.looked || now - g.looked >= 60 || g.port == 0),
{
    now < g.looked || now - g.looked >= 60 || g.port == 0
}

/// What is known after a look: a port that was not found stays as it was.
pub fn looked(g: &Gui, found: u16, now: u64) -> (r: Gui)
    ensures
        r.looked == now,
        r.port == if found > 0 {
            found
        } else {
            g.port
        },
{
    Gui {
        port: if found > 0 {
            found
        } else {
            g.port
        },
        looked: now,
    }
}

// ---------------------------------------------------------------- headers

/// What a line of a head says for the GUI: the host and the origin become those of the
/// machine itself.
pub open spec fn local_text(l: Seq<char>, port: u16) -> Seq<char> {
    if starts(lowered(l), "host:"@) {
        "Host: 127.0.0.1:"@ + dec(port as nat)
    } else if starts(lowered(l), "origin:"@) {
        "Origin: http://127.0.0.1:"@ + dec(port as nat)
    } else {
        l
    }
}

/// A line of a head for the GUI.
pub open spec fn local_line(l: Seq<char>, port: u16) -> Seq<char> {
    local_text(l, port) + "\r\n"@
}

/// Some lines of a head for the GUI.
pub open spec fn local_lines(ls: Seq<Seq<char>>, port: u16) -> Seq<char>
    decreases ls.len(),
{
    if ls.len() == 0 {
        seq![]
    } else {
        local_lines(ls.drop_last(), port) + local_line(ls.last(), port)
    }
}

fn localized(l: &str, port: u16) -> (r: String)
    ensures
        r@ == local_line(l@, port),
{
    let low = to_lowercase(l);
    if begins(low.as_str(), "host:") {
        cat3("Host: 127.0.0.1:", decimal(port as u64).as_str(), "\r\n")
    } else if begins(low.as_str(), "origin:") {
        cat3("Origin: http://127.0.0.1:", decimal(port as u64).as_str(), "\r\n")
    } else {
        crate::text::cat(l, "\r\n")
    }
}

fn localized_lines(ls: &Vec<String>, port: u16) -> (r: String)
    ensures
        r@ == local_lines(texts(ls@), port),
{
    let ghost t = texts(ls@);
    let mut out = String::new();
    let mut i: usize = 0;
    assert(t.take(0) =~= seq![]);
    while i < ls.len()
        invariant
            i <= ls@.len(),
            t == texts(ls@),
            out@ == local_lines(t.take(i as int), port),
        decreases ls@.len() - i,
    {
        proof {
            assert(t.take(i + 1).drop_last() =~= t.take(i as int));
            assert(t.take(i + 1).last() == ls@[i as int]@);
        }
        out.append(localized(ls[i].as_str(), port).as_str());
        i += 1;
    }
    assert(t.take(i as int) =~= t);
    out
}

/// Some headers for the GUI.
pub fn loopback_headers(headers: &str, port: u16) -> (r: String)
    ensures
        r@ == local_lines(lines(headers@), port),
{
    localized_lines(&lines_of(headers), port)
}

/// A local line is a local line already, and holds no line feed where it held none.
proof fn local_text_stays(l: Seq<char>, port: u16)
    ensures
        local_text(local_text(l, port), port) == local_text(l, port),
        !l.contains('\n') ==> !local_text(l, port).contains('\n'),
{
    reveal_strlit("host:");
    reveal_strlit("origin:");
    reveal_strlit("Host: 127.0.0.1:");
    reveal_strlit("Origin: http://127.0.0.1:");
    let d = dec(port as nat);
    dec_is_plain(port as nat);
    let h = "Host: 127.0.0.1:"@ + d;
    let o = "Origin: http://127.0.0.1:"@ + d;
    let (hp, op) = ("Host: 127.0.0.1:"@, "Origin: http://127.0.0.1:"@);
    assert(is_ascii_chars(hp));
    assert(is_ascii_chars(op));
    assert(is_ascii_chars(h)) by {
        assert forall|i: int| 0 <= i < h.len() implies 0 <= (#[trigger] h[i]) as nat
            && h[i] as nat <= 127 by {
            if i >= hp.len() {
                assert(h[i] == d[i - hp.len()]);
            } else {
                assert(h[i] == hp[i]);
            }
        }
    }
    assert(is_ascii_chars(o)) by {
        assert forall|i: int| 0 <= i < o.len() implies 0 <= (#[trigger] o[i]) as nat
            && o[i] as nat <= 127 by {
            if i >= op.len() {
                assert(o[i] == d[i - op.len()]);
            } else {
                assert(o[i] == op[i]);
            }
        }
    }
    assert(lowered(h).subrange(0, 5) =~= "host:"@);
    assert(lowered(o).subrange(0, 7) =~= "origin:"@);
    assert(lowered(o)[0] == 'o');
    if starts(lowered(o), "host:"@) {
        assert(lowered(o).subrange(0, 5)[0] == 'h');
    }
    assert(!h.contains('\n')) by {
        assert forall|i: int| 0 <= i < h.len() implies h[i] != '\n' by {
            if i >= hp.len() {
                assert(h[i] == d[i - hp.len()]);
            } else {
                assert(h[i] == hp[i]);
            }
        }
    }
    assert(!o.contains('\n')) by {
        assert forall|i: int| 0 <= i < o.len() implies o[i] != '\n' by {
            if i >= op.len() {
                assert(o[i] == d[i - op.len()]);
            } else {
                assert(o[i] == op[i]);
            }
        }
    }
}

proof fn local_lines_are_read(ls: Seq<Seq<char>>, port: u16)
    requires
        unbroken(ls),
    ensures
        lines(local_lines(ls, port)) == ls.map_values(|l: Seq<char>| local_text(l, port)),
        whole_lines(local_lines(ls, port)),
    decreases ls.len(),
{
    reveal_strlit("\r\n");
    let m = ls.map_values(|l: Seq<char>| local_text(l, port));
    if ls.len() == 0 {
        assert(lines(local_lines(ls, port)) =~= m);
    } else {
        let d = ls.drop_last();
        let l = ls.last();
        assert(unbroken(d)) by {
            assert forall|i: int| 0 <= i < d.len() implies !(#[trigger] d[i]).contains('\n') by {
                assert(!ls[i].contains('\n'));
            }
        }
        local_lines_are_read(d, port);
        assert(!ls[ls.len() - 1].contains('\n'));
        local_text_stays(l, port);
        let a = local_lines(d, port);
        let t = local_text(l, port);
        let x = t.push('\r');
        let nl = seq!['\n'];
        let end = local_line(l, port);
        assert(end =~= x + nl + seq![]);
        assert(!x.contains('\n')) by {
            assert forall|i: int| 0 <= i < x.len() implies x[i] != '\n' by {
                if i < t.len() {
                    assert(x[i] == t[i]);
                    assert(t.contains(t[i]));
                }
            }
        }
        found_behind(x, '\n', seq![]);
        assert(strip_cr(x) =~= t);
        assert(lines(Seq::<char>::empty()) =~= seq![]);
        assert(lines(end) =~= seq![t]);
        lines_of_two(a, end);
        assert(lines(a + end) =~= m);
    }
}

/// The headers for the GUI are as many lines as there were, in the same order, each ended by
/// a carriage return and a line feed: the host and the origin are those of the machine
/// itself, every other line is kept. A second pass changes nothing.
pub proof fn local_headers_stay(headers: Seq<char>, port: u16)
    ensures
        ({
            let r = local_lines(lines(headers), port);
            &&& lines(r).len() == lines(headers).len()
            &&& forall|i: int|
                0 <= i < lines(headers).len() ==> (#[trigger] lines(r)[i]) + "\r\n"@ == local_line(
                    lines(headers)[i],
                    port,
                )
            &&& local_lines(lines(r), port) == r
        }),
{
    let ls = lines(headers);
    lines_are_unbroken(headers);
    local_lines_are_read(ls, port);
    let r = local_lines(ls, port);
    let m = lines(r);
    local_lines_alike(ls, m, port);
}

proof fn local_lines_alike(ls: Seq<Seq<char>>, m: Seq<Seq<char>>, port: u16)
    requires
        m == ls.map_values(|l: Seq<char>| local_text(l, port)),
    ensures
        local_lines(m, port) == local_lines(ls, port),
    decreases ls.len(),
{
    if ls.len() > 0 {
        assert(m.drop_last() =~= ls.drop_last().map_values(|l: Seq<char>| local_text(l, port)));
        local_lines_alike(ls.drop_last(), m.drop_last(), port);
        assert(m.last() == local_text(ls.last(), port));
        local_text_stays(ls.last(), port);
    }
}

/// A line that is not handed on: it speaks of this connection alone.
pub open spec fn hop_line(l: Seq<char>) -> bool {
    starts(lowered(l), "connection:"@) || starts(lowered(l), "upgrade:"@)
}

/// The lines that are handed on.
pub open spec fn kept_lines(ls: Seq<Seq<char>>) -> Seq<Seq<char>>
    decreases ls.len(),
{
    if ls.len() == 0 {
        seq![]
    } else if hop_line(ls.last()) {
        kept_lines(ls.drop_last())
    } else {
        kept_lines(ls.drop_last()).push(ls.last())
    }
}

/// What stands behind the first line of a head: its headers.
pub open spec fn headers_of(h: Seq<char>) -> Seq<char> {
    match split_once(h, "\n"@) {
        Some((_, rest)) => rest,
        None => seq![],
    }
}

/// A head as it is handed on: the request line, the headers for the GUI, and a blank line.
pub open spec fn handed_head(
    method: Seq<char>,
    target: Seq<char>,
    headers: Seq<Seq<char>>,
    port: u16,
) -> Seq<char> {
    method + " "@ + target + " HTTP/1.1\r\n"@ + local_lines(headers, port) + "\r\n"@
}

/// No line that speaks of this connection alone is handed on.
pub proof fn hop_lines_are_dropped(ls: Seq<Seq<char>>)
    ensures
        forall|i: int| 0 <= i < kept_lines(ls).len() ==> !hop_line(#[trigger] kept_lines(ls)[i]),
        kept_lines(ls).len() <= ls.len(),
    decreases ls.len(),
{
    if ls.len() > 0 {
        hop_lines_are_dropped(ls.drop_last());
    }
}

fn keep_lines(txt: &str) -> (r: Vec<String>)
    ensures
        texts(r@) == kept_lines(lines(txt@)),
{
    let ls = lines_of(txt);
    let ghost t = texts(ls@);
    let mut out: Vec<String> = Vec::new();
    let mut i: usize = 0;
    assert(t.take(0) =~= seq![]);
    assert(texts(out@) =~= seq![]);
    while i < ls.len()
        invariant
            i <= ls@.len(),
            t == texts(ls@),
            texts(out@) == kept_lines(t.take(i as int)),
        decreases ls@.len() - i,
    {
        proof {
            assert(t.take(i + 1).drop_last() =~= t.take(i as int));
            assert(t.take(i + 1).last() == ls@[i as int]@);
        }
        let low = to_lowercase(ls[i].as_str());
        if !(begins(low.as_str(), "connection:") || begins(low.as_str(), "upgrade:")) {
            let ghost prev = texts(out@);
            out.push(ls[i].clone());
            assert(texts(out@) =~= prev.push(ls@[i as int]@));
        }
        i += 1;
    }
    assert(t.take(i as int) =~= t);
    out
}

/// Every other line is handed on.
pub proof fn other_lines_are_kept(ls: Seq<Seq<char>>, i: int)
    requires
        0 <= i < ls.len(),
        !hop_line(ls[i]),
    ensures
        kept_lines(ls).contains(ls[i]),
    decreases ls.len(),
{
    if i == ls.len() - 1 {
        assert(kept_lines(ls).last() == ls[i]);
        assert(kept_lines(ls)[kept_lines(ls).len() - 1] == ls[i]);
    } else {
        let before = kept_lines(ls.drop_last());
        other_lines_are_kept(ls.drop_last(), i);
        let k = choose|k: int| 0 <= k < before.len() && before[k] == ls.drop_last()[i];
        assert(kept_lines(ls)[k] == ls[i]);
    }
}

/// A head that is handed on ends with a blank line, with headers or without.
pub proof fn handed_head_ends(
    method: Seq<char>,
    target: Seq<char>,
    headers: Seq<Seq<char>>,
    port: u16,
)
    ensures
        ends(handed_head(method, target, headers, port), "\r\n\r\n"@),
{
    reveal_strlit("\r\n\r\n");
    reveal_strlit("\r\n");
    reveal_strlit(" HTTP/1.1\r\n");
    let first = method + " "@ + target + " HTTP/1.1\r\n"@;
    let l = local_lines(headers, port);
    let h = handed_head(method, target, headers, port);
    assert(first[first.len() - 2] == '\r' && first[first.len() - 1] == '\n');
    if headers.len() > 0 {
        let last = local_line(headers.last(), port);
        assert(last[last.len() - 2] == '\r' && last[last.len() - 1] == '\n');
        assert(l.len() >= 2 && l[l.len() - 2] == '\r' && l[l.len() - 1] == '\n');
    } else {
        assert(first + l =~= first);
    }
    let n = (first + l).len() as int;
    assert((first + l)[n - 2] == '\r' && (first + l)[n - 1] == '\n');
    assert(h == first + l + "\r\n"@);
    assert(h.subrange(n - 2, n + 2) =~= "\r\n\r\n"@);
}

fn head_handed_on(method: &str, target: &str, headers: &Vec<String>, port: u16) -> (r: String)
    ensures
        r@ == handed_head(method@, target@, texts(headers@), port),
{
    let mut req = cat4(method, " ", target, " HTTP/1.1\r\n");
    req.append(localized_lines(headers, port).as_str());
    req.append("\r\n");
    req
}

// ---------------------------------------------------------------- requests

/// What becomes of the bytes that came in so far.
#[derive(Clone, Copy, PartialEq, Eq, Structural, Debug)]
pub enum Reading {
    /// More is to be read.
    More,
    /// All of the request is there that will come.
    Complete,
    /// The head is too long or broken off; the connection is dropped.
    Drop,
}

/// What becomes of the bytes that came in so far; `open` tells whether more can come. What
/// is there of a request that broke off behind its head is handed on.
pub fn reading(b: &Vec<u8>, open: bool) -> (r: Reading)
    ensures
        r == if request_complete(b@) || (!open && head_complete(b@)) {
            Reading::Complete
        } else if !open || (!head_complete(b@) && b@.len() > head_limit()) {
            Reading::Drop
        } else {
            Reading::More
        },
{
    if has_request(b) {
        return Reading::Complete;
    }
    let head = has_head(b);
    if !open {
        if head {
            Reading::Complete
        } else {
            Reading::Drop
        }
    } else if !head && b.len() > 1_200_000 {
        Reading::Drop
    } else {
        Reading::More
    }
}

/// How a request is handed on.
pub enum Forward {
    /// Not at all.
    Drop,
    /// As the start of a stream in both directions.
    Upgrade { request: String },
    /// As a request with a body.
    Http { request: String, body: String },
}

/// The head of a request, with its first line.
pub open spec fn head_text(text: Seq<char>) -> Seq<char> {
    before(text, "\r\n\r\n"@)
}

/// A request asks for a stream in both directions.
pub open spec fn asks_upgrade(headers: Seq<char>) -> bool {
    contains(lowered(headers), "upgrade: websocket"@)
}

/// How a request is handed on to the GUI.
pub open spec fn forward_is(r: Forward, text: Seq<char>, port: u16) -> bool {
    let w = request_words(text);
    let h = head_text(text);
    if w.len() < 2 {
        r is Drop
    } else if asks_upgrade(h) {
        r matches Forward::Upgrade { request } && request@ == handed_head(
            "GET"@,
            w[1],
            lines(headers_of(h)),
            port,
        )
    } else {
        r matches Forward::Http { request, body } && body@ == body_text(text) && request@
            == handed_head(w[0], w[1], kept_lines(lines(headers_of(h))), port)
    }
}

/// Decides how a request that came in as bytes is handed on to the GUI.
pub fn forward_bytes(b: &Vec<u8>, port: u16) -> (r: Forward)
    ensures
        forward_is(r, lossy(b@), port),
{
    forward(from_utf8_lossy(b.as_slice()).as_str(), port)
}

/// Decides how a request is handed on to the GUI.
pub fn forward(text: &str, port: u16) -> (r: Forward)
    ensures
        forward_is(r, text@, port),
{
    let ls = lines_of(text);
    assert(texts(ls@).len() == ls@.len());
    if ls.len() == 0 {
        return Forward::Drop;
    }
    assert(texts(ls@)[0] == ls@[0]@);
    let w = words_of(ls[0].as_str());
    let ghost wt = texts(w@);
    assert(wt.len() == w@.len());
    if w.len() < 2 {
        return Forward::Drop;
    }
    assert(wt[0] == w@[0]@ && wt[1] == w@[1]@);
    let whole = head(text, "\r\n\r\n");
    proof {
        reveal_strlit("");
        assert(""@ =~= seq![]);
    }
    let headers = match cut(whole.as_str(), "\n") {
        Some((_, rest)) => rest,
        None => String::new(),
    };
    if has(to_lowercase(whole.as_str()).as_str(), "upgrade: websocket") {
        let all = lines_of(headers.as_str());
        return Forward::Upgrade { request: head_handed_on("GET", w[1].as_str(), &all, port) };
    }
    let kept = keep_lines(headers.as_str());
    let request = head_handed_on(w[0].as_str(), w[1].as_str(), &kept, port);
    let body = match second(text, "\r\n\r\n") {
        Some(b) => b,
        None => String::new(),
    };
    Forward::Http { request, body }
}

/// The answer while the GUI cannot be reached.
pub fn bad_gateway() -> (r: String)
    ensures
        r@
            == "HTTP/1.1 502 Bad Gateway\r\nContent-Length: 11\r\nConnection: close\r\n\r\nbad gateway"@,
{
    "HTTP/1.1 502 Bad Gateway\r\nContent-Length: 11\r\nConnection: close\r\n\r\nbad gateway".to_owned()
}

/// The answer while the port of the GUI is unknown.
pub fn port_unknown() -> (r: String)
    ensures
        r@
            == "HTTP/1.1 503 Service Unavailable\r\nContent-Length: 16\r\nConnection: close\r\n\r\ngui port unknown"@,
{
    "HTTP/1.1 503 Service Unavailable\r\nContent-Length: 16\r\nConnection: close\r\n\r\ngui port unknown".to_owned()
}

// ---------------------------------------------------------------- arguments

/// The arguments of the proxy.
pub struct ProxyArgs {
    pub host: String,
    pub port: u16,
}

/// The port that a value writes, or `d`.
pub open spec fn port_or(v: Option<Seq<char>>, d: u16) -> nat {
    match v {
        None => d as nat,
        Some(s) => match uint_of(s, false, u16::MAX as nat) {
            Some(n) => n,
            None => d as nat,
        },
    }
}

/// The port that a value writes, or `d`.
pub fn read_port(v: &Option<String>, d: u16) -> (r: u16)
    ensures
        r == port_or(maybe(*v), d),
{
    match v {
        Some(s) => match read_u16(s.as_str()) {
            Some(n) => n,
            None => d,
        },
        None => d,
    }
}

/// Reads the arguments of the proxy.
pub fn proxy_args(args: &[String]) -> (r: ProxyArgs)
    ensures
        ({
            let o = options(texts(args@), seq!["--host"@, "--port"@]);
            &&& r.host@ == value_or(o, "--host"@, "0.0.0.0"@)
            &&& r.port == port_or(last_value(o, "--port"@), 3081)
        }),
{
    let valued = ["--host", "--port"];
    let a = read_args(args, &valued);
    assert(names(valued@) =~= seq!["--host"@, "--port"@]);
    ProxyArgs { host: a.value_or("--host", "0.0.0.0"), port: read_port(&a.value("--port"), 3081) }
}

// ---------------------------------------------------------------- laws

/// The address on a line is the word behind `inet`.
pub proof fn addresses_are_read(a: Seq<char>, w: Seq<char>, rest: Seq<char>)
    requires
        blank(a),
        w.len() > 0,
        forall|i: int| 0 <= i < w.len() ==> !is_space(#[trigger] w[i]),
    ensures
        line_address(a + "inet "@ + (w + seq![' '] + rest)) == Some(w),
{
    reveal_strlit("inet ");
    assert(!a.contains("inet "@[0])) by {
        if a.contains("inet "@[0]) {
            let i = choose|i: int| 0 <= i < a.len() && a[i] == 'i';
            assert(is_space(a[i]));
        }
    }
    found_there(a, "inet "@, w + seq![' '] + rest);
    let l = a + "inet "@ + (w + seq![' '] + rest);
    assert(l.skip(a.len() as int + 5) =~= w + seq![' '] + rest);
    words_on_both_sides(w, ' ', rest);
    one_word(w);
}

/// The first line with an address of the private net gives it, whatever follows.
pub proof fn first_private_address_is_taken(
    before: Seq<Seq<char>>,
    l: Seq<char>,
    rest: Seq<char>,
    behind: Seq<Seq<char>>,
)
    requires
        forall|i: int| 0 <= i < before.len() ==> !private_address(#[trigger] before[i]),
        line_address(l) == Some("100."@ + rest),
    ensures
        first_address(before + seq![l] + behind) == Some("100."@ + rest),
        first_address(before) is None,
    decreases before.len(),
{
    parts_are_seen(seq![], "100."@, rest);
    let ls = before + seq![l] + behind;
    if before.len() == 0 {
        assert(ls[0] == l);
    } else {
        assert(ls[0] == before[0]);
        assert(!private_address(before[0]));
        assert(ls.skip(1) =~= before.skip(1) + seq![l] + behind);
        first_private_address_is_taken(before.skip(1), l, rest, behind);
    }
}

/// A port of the GUI is the number behind the colon of the ninth word, on a line that begins
/// with `CLD`, where it is 4000 or more.
pub proof fn ports_are_read(l: Seq<char>, w: Seq<Seq<char>>, a: Seq<char>, n: nat)
    requires
        words(l) == w,
        w.len() >= 9,
        !a.contains(':'),
        w[8] == a + seq![':'] + dec(n),
        n <= u16::MAX,
    ensures
        w[0] == "CLD"@ && n >= 4000 ==> line_port(l) == Some(n),
        n < 4000 ==> line_port(l) is None,
        w[0] != "CLD"@ ==> line_port(l) is None,
{
    reveal_strlit(":");
    assert(":"@ =~= seq![':']);
    dec_is_plain(n);
    dec_round_trip(n, u16::MAX as nat);
    piece_between(a, ':', dec(n), seq![]);
}

/// Of several ports the last one counts; where there is none, it is zero.
pub proof fn last_port_counts(before: Seq<Seq<char>>, l: Seq<char>, n: nat, behind: Seq<Seq<char>>)
    requires
        line_port(l) == Some(n),
        forall|i: int| 0 <= i < behind.len() ==> line_port(#[trigger] behind[i]) is None,
    ensures
        last_port(before + seq![l] + behind) == n,
        last_port(behind) == 0,
    decreases behind.len(),
{
    let ls = before + seq![l] + behind;
    if behind.len() > 0 {
        assert(behind.last() == behind[behind.len() - 1]);
        assert(ls.last() == behind.last());
        assert(ls.drop_last() =~= before + seq![l] + behind.drop_last());
        last_port_counts(before, l, n, behind.drop_last());
    } else {
        assert(ls.last() == l);
    }
}

/// The lines that name the host and the origin name the GUI when they are handed on, in
/// whatever case they were written, and every other line is handed on as it came.
pub proof fn hosts_become_local(l: Seq<char>, port: u16)
    ensures
        starts(lowered(l), "host:"@) ==> local_text(l, port) == "Host: 127.0.0.1:"@ + dec(
            port as nat,
        ),
        starts(lowered(l), "origin:"@) ==> local_text(l, port) == "Origin: http://127.0.0.1:"@
            + dec(port as nat),
        !starts(lowered(l), "host:"@) && !starts(lowered(l), "origin:"@) ==> local_text(l, port)
            == l,
{
    reveal_strlit("host:");
    reveal_strlit("origin:");
    if starts(lowered(l), "host:"@) && starts(lowered(l), "origin:"@) {
        assert(lowered(l).subrange(0, 5)[0] == lowered(l)[0]);
        assert(lowered(l).subrange(0, 7)[0] == lowered(l)[0]);
    }
}

/// The lines on the connection itself and on an upgrade are not handed on.
pub proof fn connection_lines_are_hop_lines(rest: Seq<char>)
    requires
        forall|i: int|
            0 <= i < rest.len() ==> (#[trigger] rest[i] as u32) < 128 && !('A' <= rest[i] <= 'Z'),
    ensures
        hop_line("connection:"@ + rest),
        hop_line("upgrade:"@ + rest),
        !hop_line("host:"@ + rest),
        !hop_line("accept:"@ + rest),
        !hop_line("cookie:"@ + rest),
{
    reveal_strlit("connection:");
    reveal_strlit("upgrade:");
    reveal_strlit("host:");
    reveal_strlit("accept:");
    reveal_strlit("cookie:");
    lowercase_stays("connection:"@ + rest);
    lowercase_stays("upgrade:"@ + rest);
    lowercase_stays("host:"@ + rest);
    lowercase_stays("accept:"@ + rest);
    lowercase_stays("cookie:"@ + rest);
    parts_are_seen(seq![], "connection:"@, rest);
    parts_are_seen(seq![], "upgrade:"@, rest);
    other_start("host:"@ + rest, "connection:"@, 0);
    other_start("host:"@ + rest, "upgrade:"@, 0);
    other_start("accept:"@ + rest, "connection:"@, 0);
    other_start("accept:"@ + rest, "upgrade:"@, 0);
    other_start("cookie:"@ + rest, "connection:"@, 2);
    other_start("cookie:"@ + rest, "upgrade:"@, 0);
}

proof fn other_start(s: Seq<char>, p: Seq<char>, k: int)
    requires
        0 <= k < p.len(),
        k < s.len(),
        s[k] != p[k],
    ensures
        !starts(s, p),
{
    if starts(s, p) {
        assert(s.subrange(0, p.len() as int)[k] == s[k]);
    }
}

/// A port that is written out is taken; where none is given the other one is.
pub proof fn ports_are_taken(n: nat, d: u16)
    requires
        n <= u16::MAX,
    ensures
        port_or(Some(dec(n)), d) == n,
        port_or(None, d) == d,
{
    dec_round_trip(n, u16::MAX as nat);
}

} // verus!
