//! Requests to other services: addresses, what is sent, what comes back.
use vstd::prelude::*;
use crate::json::{compact, json_parsed, json_text, parse, Json, JsonView};
use crate::num::{dec, dec_is_plain, dec_round_trip, decimal, read_u16, read_uint, uint_of};
use crate::text::{
    before, blank_line, byte_count, byte_len, cat, cat3, cat4, cat7, chars_of, contains, cut,
    ends, find, find_from_is_first, first_line_is_read, found_behind, from_utf8_lossy,
    head_goes_on, lines, lines_of, lossy, one_word, parts_are_seen, second, second_piece,
    split_once, starts, string_of, strip_prefixes, strip_suffixes, texts, trim, trimmed,
    without_prefixes, without_suffixes, words, words_of, words_on_both_sides,
};

verus! {

// ---------------------------------------------------------------- addresses

/// The last position of `c` in `s`.
pub open spec fn last_char(s: Seq<char>, c: char) -> Option<int>
    decreases s.len(),
{
    if s.len() == 0 {
        None
    } else if s.last() == c {
        Some(s.len() - 1)
    } else {
        last_char(s.drop_last(), c)
    }
}

/// An address without its scheme and without slashes at its end.
pub open spec fn bare_url(url: Seq<char>) -> Seq<char> {
    strip_suffixes(strip_prefixes(url, "http://"@), "/"@)
}

/// The host and port of an address, as one text.
pub open spec fn host_port(url: Seq<char>) -> Seq<char> {
    before(bare_url(url), "/"@)
}

/// The path of an address.
pub open spec fn url_path(url: Seq<char>) -> Seq<char> {
    match split_once(bare_url(url), "/"@) {
        Some((_, p)) => "/"@ + p,
        None => "/"@,
    }
}

/// The host of a host and port.
pub open spec fn host_of(hp: Seq<char>) -> Seq<char> {
    match last_char(hp, ':') {
        Some(i) => hp.take(i),
        None => hp,
    }
}

/// The port of a host and port; 80 where none can be read.
pub open spec fn port_of(hp: Seq<char>) -> nat {
    match last_char(hp, ':') {
        Some(i) => match uint_of(hp.skip(i + 1), false, u16::MAX as nat) {
            Some(n) => n,
            None => 80,
        },
        None => 80,
    }
}

/// An address, taken apart.
pub struct Address {
    pub host_port: String,
    pub host: String,
    pub port: u16,
    pub path: String,
}

fn last_at(v: &Vec<char>, c: char) -> (r: Option<usize>)
    ensures
        match r {
            Some(i) => last_char(v@, c) == Some(i as int) && i < v@.len(),
            None => last_char(v@, c) is None,
        },
{
    let mut n: usize = v.len();
    assert(v@.take(n as int) =~= v@);
    while n > 0
        invariant
            n <= v@.len(),
            last_char(v@, c) == last_char(v@.take(n as int), c),
        decreases n,
    {
        proof {
            assert(v@.take(n as int).last() == v@[n - 1]);
            assert(v@.take(n as int).drop_last() =~= v@.take(n - 1));
        }
        if v[n - 1] == c {
            return Some(n - 1);
        }
        n -= 1;
    }
    None
}

/// Takes an address apart.
pub fn read_address(url: &str) -> (r: Address)
    ensures
        r.host_port@ == host_port(url@),
        r.host@ == host_of(host_port(url@)),
        r.port == port_of(host_port(url@)),
        r.path@ == url_path(url@),
{
    let u = without_suffixes(without_prefixes(url, "http://").as_str(), "/");
    let (hp, path) = match cut(u.as_str(), "/") {
        Some((a, b)) => (a, cat("/", b.as_str())),
        None => (u, "/".to_owned()),
    };
    let w = chars_of(hp.as_str());
    let m: usize = w.len();
    let (host, port) = match last_at(&w, ':') {
        Some(i) => {
            assert(w@.subrange(0, i as int) =~= w@.take(i as int));
            assert(w@.subrange(i + 1, m as int) =~= w@.skip(i + 1));
            let p: u16 = match read_u16(string_of(&w, i + 1, m).as_str()) {
                Some(p) => p,
                None => 80,
            };
            (string_of(&w, 0, i), p)
        },
        None => (hp.clone(), 80),
    };
    Address { host_port: hp, host, port, path }
}

// ---------------------------------------------------------------- requests

/// The header that gives the token of the board, where there is one.
pub open spec fn token_header(token: Seq<char>) -> Seq<char> {
    if token.len() == 0 {
        seq![]
    } else {
        "X-Blackboard-Token: "@ + token + "\r\n"@
    }
}

/// A request with a JSON body.
pub open spec fn request(
    method: Seq<char>,
    url: Seq<char>,
    body: Seq<char>,
    token: Seq<char>,
) -> Seq<char> {
    method + " "@ + url_path(url) + " HTTP/1.1\r\nHost: "@ + host_port(url)
        + "\r\nContent-Type: application/json\r\nContent-Length: "@ + dec(byte_len(body)) + "\r\n"@
        + token_header(token) + "Connection: close\r\n\r\n"@ + body
}

/// A request with a JSON body; a token that is not empty goes with it.
pub fn request_text(method: &str, url: &str, body: &str, token: &str) -> (r: String)
    ensures
        r@ == request(method@, url@, body@, token@),
{
    let a = read_address(url);
    let n: usize = byte_count(body);
    let mut s = cat7(
        method,
        " ",
        a.path.as_str(),
        " HTTP/1.1\r\nHost: ",
        a.host_port.as_str(),
        "\r\nContent-Type: application/json\r\nContent-Length: ",
        decimal(n as u64).as_str(),
    );
    s.append("\r\n");
    let h = if token.is_empty() {
        String::new()
    } else {
        cat3("X-Blackboard-Token: ", token, "\r\n")
    };
    s.append(h.as_str());
    s.append("Connection: close\r\n\r\n");
    s.append(body);
    s
}

/// The code that a response gives; zero where it gives none.
pub open spec fn response_code(text: Seq<char>) -> nat {
    if lines(text).len() == 0 {
        0
    } else {
        let w = words(lines(text)[0]);
        if w.len() < 2 {
            0
        } else {
            match uint_of(w[1], false, u16::MAX as nat) {
                Some(n) => n,
                None => 0,
            }
        }
    }
}

/// The body of a response, up to the next blank line.
pub open spec fn response_body(text: Seq<char>) -> Seq<char> {
    match second_piece(text, "\r\n\r\n"@) {
        Some(b) => b,
        None => seq![],
    }
}

/// The code and the body of a response.
pub fn read_response(text: &str) -> (r: (u16, String))
    ensures
        r.0 == response_code(text@),
        r.1@ == response_body(text@),
{
    let body = match second(text, "\r\n\r\n") {
        Some(b) => b,
        None => String::new(),
    };
    let ls = lines_of(text);
    assert(texts(ls@).len() == ls@.len());
    if ls.len() == 0 {
        return (0, body);
    }
    assert(texts(ls@)[0] == ls@[0]@);
    let w = words_of(ls[0].as_str());
    assert(texts(w@).len() == w@.len());
    if w.len() < 2 {
        return (0, body);
    }
    assert(texts(w@)[1] == w@[1]@);
    let code: u16 = match read_u16(w[1].as_str()) {
        Some(n) => n,
        None => 0,
    };
    (code, body)
}

// ---------------------------------------------------------------- chunks

/// The first carriage return from `i` on.
pub open spec fn next_cr(b: Seq<u8>, i: int) -> Option<int>
    decreases b.len() - i,
{
    if i < 0 || i >= b.len() {
        None
    } else if b[i] == 13 {
        Some(i)
    } else {
        next_cr(b, i + 1)
    }
}

/// The size that a chunk gives, in hexadecimal.
pub open spec fn chunk_size(line: Seq<u8>) -> Option<nat> {
    uint_of(trim(lossy(line)), true, usize::MAX as nat)
}

/// The data of the chunks from `i` on: each gives its size on a line of its own, and
/// ends with a line end. A size of zero, or one that cannot be read, ends them, and so
/// does a chunk that is cut off.
pub open spec fn chunks(b: Seq<u8>, i: int) -> Seq<u8>
    decreases b.len() - i,
{
    match next_cr(b, i) {
        Some(e) if i <= e < b.len() => match chunk_size(b.subrange(i, e)) {
            Some(n) => if n == 0 || e + 2 + n > b.len() {
                seq![]
            } else {
                b.subrange(e + 2, e + 2 + n) + if e + 2 + n + 2 < b.len() {
                    chunks(b, e + 2 + n + 2)
                } else {
                    seq![]
                }
            },
            None => seq![],
        },
        _ => seq![],
    }
}

/// The data of a body in chunks.
pub fn decode_chunked(b: &[u8]) -> (r: Vec<u8>)
    ensures
        r@ == chunks(b@, 0),
{
    let mut out: Vec<u8> = Vec::new();
    let len: usize = b.len();
    let mut i: usize = 0;
    assert(out@ + chunks(b@, 0) =~= chunks(b@, 0));
    while i < len
        invariant
            i <= len == b@.len(),
            chunks(b@, 0) == out@ + if i < b@.len() {
                chunks(b@, i as int)
            } else {
                seq![]
            },
        decreases len - i,
    {
        let mut e: usize = i;
        while e < len && b[e] != 13
            invariant
                i <= e <= len == b@.len(),
                next_cr(b@, i as int) == next_cr(b@, e as int),
            decreases len - e,
        {
            e += 1;
        }
        if e >= len {
            assert(out@ + chunks(b@, i as int) =~= out@);
            return out;
        }
        let line = vstd::slice::slice_subrange(b, i, e);
        let size: usize = match read_uint(
            trimmed(from_utf8_lossy(line).as_str()).as_str(),
            true,
            usize::MAX as u64,
        ) {
            Some(n) => n as usize,
            None => {
                assert(out@ + chunks(b@, i as int) =~= out@);
                return out;
            },
        };
        if size == 0 || len - e < 2 || size > len - e - 2 {
            assert(out@ + chunks(b@, i as int) =~= out@);
            return out;
        }
        let ghost before = out@;
        let data = vstd::slice::slice_subrange(b, e + 2, e + 2 + size);
        out.extend_from_slice(data);
        assert(out@ =~= before + b@.subrange(e + 2, e + 2 + size));
        let next: usize = e + 2 + size;
        if len - next < 2 {
            assert(out@ =~= before + chunks(b@, i as int));
            return out;
        }
        proof {
            let rest = if next + 2 < b@.len() {
                chunks(b@, next + 2)
            } else {
                seq![]
            };
            assert(before + (b@.subrange(e + 2, next as int) + rest) =~= out@ + rest);
        }
        i = next + 2;
    }
    assert(out@ + Seq::<u8>::empty() =~= out@);
    out
}

proof fn next_cr_shift(b: Seq<u8>, k: int, i: int)
    requires
        0 <= k <= b.len(),
        0 <= i,
    ensures
        match next_cr(b, k + i) {
            Some(e) => next_cr(b.skip(k), i) == Some(e - k) && k + i <= e < b.len(),
            None => next_cr(b.skip(k), i) is None,
        },
    decreases b.len() - i,
{
    if k + i < b.len() && b[k + i] != 13 {
        assert(b.skip(k)[i] == b[k + i]);
        next_cr_shift(b, k, i + 1);
    } else if k + i < b.len() {
        assert(b.skip(k)[i] == b[k + i]);
    }
}

proof fn chunks_shift(b: Seq<u8>, k: int, i: int)
    requires
        0 <= k <= b.len(),
        0 <= i,
    ensures
        chunks(b, k + i) == chunks(b.skip(k), i),
    decreases b.len() - i,
{
    next_cr_shift(b, k, i);
    let c = b.skip(k);
    if let Some(e) = next_cr(b, k + i) {
        assert(b.subrange(k + i, e) =~= c.subrange(i, e - k));
        if let Some(n) = chunk_size(b.subrange(k + i, e)) {
            if n > 0 && e + 2 + n <= b.len() {
                assert(b.subrange(e + 2, e + 2 + n) =~= c.subrange(e - k + 2, e - k + 2 + n));
                if e + 2 + n + 2 < b.len() {
                    chunks_shift(b, k, e - k + 2 + n + 2);
                }
            }
        }
    }
}

proof fn no_cr_before(b: Seq<u8>, i: int, e: int)
    requires
        0 <= i <= e < b.len(),
        b[e] == 13,
        forall|j: int| i <= j < e ==> b[j] != 13,
    ensures
        next_cr(b, i) == Some(e),
    decreases e - i,
{
    if i < e {
        no_cr_before(b, i + 1, e);
    }
}

/// Chunks are taken one by one: a line that gives the size of what follows, the data,
/// a line end, and then the other chunks.
pub proof fn chunk_by_chunk(line: Seq<u8>, data: Seq<u8>, rest: Seq<u8>)
    requires
        forall|i: int| 0 <= i < line.len() ==> line[i] != 13,
        data.len() > 0,
        chunk_size(line) == Some(data.len()),
    ensures
        chunks(line + seq![13u8, 10u8] + data + seq![13u8, 10u8] + rest, 0) == data + chunks(
            rest,
            0,
        ),
{
    let crlf = seq![13u8, 10u8];
    let b = line + crlf + data + crlf + rest;
    let e = line.len() as int;
    let n = data.len() as int;
    assert forall|j: int| 0 <= j < e implies b[j] != 13 by {
        assert(b[j] == line[j]);
    }
    assert(b[e] == 13);
    no_cr_before(b, 0, e);
    assert(b.subrange(0, e) =~= line);
    assert(b.subrange(e + 2, e + 2 + n) =~= data);
    let k = e + 2 + n + 2;
    assert(b.skip(k) =~= rest);
    if k < b.len() {
        chunks_shift(b, k, 0);
    } else {
        assert(rest =~= seq![]);
        assert(chunks(rest, 0) =~= seq![]);
    }
}

/// What a service answered in chunks: a value, or why there is none.
pub open spec fn chunked_value(text: Seq<char>) -> Result<JsonView, Seq<char>> {
    match json_parsed(lossy(chunks(vstd::utf8::encode_utf8(response_body(text)), 0))) {
        Ok(v) => Ok(v),
        Err(e) => Err("parse: "@ + e),
    }
}

/// Reads what a service answered in chunks.
pub fn read_chunked(text: &str) -> (r: Result<Json, String>)
    ensures
        match r {
            Ok(v) => chunked_value(text@) == Ok::<JsonView, Seq<char>>(v@),
            Err(e) => chunked_value(text@) == Err::<JsonView, Seq<char>>(e@),
        },
{
    let (_, body) = read_response(text);
    let data = decode_chunked(body.as_str().as_bytes());
    match parse(from_utf8_lossy(data.as_slice()).as_str()) {
        Ok(v) => Ok(v),
        Err(e) => Err(cat("parse: ", e.as_str())),
    }
}

// ---------------------------------------------------------------- the board

/// The address of a key on the board.
pub open spec fn board_url(bb: Seq<char>, path: Seq<char>) -> Seq<char> {
    strip_suffixes(bb, "/"@) + "/"@ + strip_prefixes(path, "/"@)
}

/// The address of a key on the board.
pub fn board_address(bb: &str, path: &str) -> (r: String)
    ensures
        r@ == board_url(bb@, path@),
{
    cat3(without_suffixes(bb, "/").as_str(), "/", without_prefixes(path, "/").as_str())
}

/// The request for a key of the board.
pub fn bb_get_request(bb: &str, path: &str, token: &str) -> (r: String)
    ensures
        r@ == request("GET"@, board_url(bb@, path@), seq![], token@),
{
    proof {
        reveal_strlit("");
        assert(""@ =~= seq![]);
    }
    request_text("GET", board_address(bb, path).as_str(), "", token)
}

/// The request that puts a value under a key of the board.
pub fn bb_put(bb: &str, path: &str, v: &Json, token: &str) -> (r: String)
    ensures
        r@ == request("PUT"@, board_url(bb@, path@), json_text(v@.canon()), token@),
        v@.orderly() ==> r@ == request("PUT"@, board_url(bb@, path@), json_text(v@), token@),
{
    request_text("PUT", board_address(bb, path).as_str(), compact(v).as_str(), token)
}

/// What the board answered: a value, or why there is none.
pub open spec fn board_value(path: Seq<char>, answer: Result<(u16, String), String>) -> Result<
    JsonView,
    Seq<char>,
> {
    match answer {
        Err(e) => Err(e@),
        Ok((code, body)) => if code != 200 {
            Err("GET "@ + path + " -> "@ + dec(code as nat))
        } else {
            match json_parsed(body@) {
                Ok(v) => Ok(v),
                Err(e) => Err("bad json: "@ + e),
            }
        },
    }
}

/// What the board answered to a question for a key.
pub fn bb_get(path: &str, answer: &Result<(u16, String), String>) -> (r: Result<Json, String>)
    ensures
        match r {
            Ok(v) => board_value(path@, *answer) == Ok::<JsonView, Seq<char>>(v@) && v@.orderly(),
            Err(e) => board_value(path@, *answer) == Err::<JsonView, Seq<char>>(e@),
        },
{
    match answer {
        Err(e) => Err(e.clone()),
        Ok((code, body)) => {
            if *code != 200 {
                return Err(cat4("GET ", path, " -> ", decimal(*code as u64).as_str()));
            }
            match parse(body.as_str()) {
                Ok(v) => Ok(v),
                Err(e) => Err(cat("bad json: ", e.as_str())),
            }
        },
    }
}

/// The request for a list of the local board, without a body.
pub open spec fn list_request(path: Seq<char>, token: Seq<char>) -> Seq<char> {
    "GET /"@ + path + " HTTP/1.1\r\nHost: 127.0.0.1:8792\r\n"@ + token_header(token)
        + "Connection: close\r\n\r\n"@
}

/// The request for a list of the local board.
pub fn bb_list_request(path: &str, token: &str) -> (r: String)
    ensures
        r@ == list_request(path@, token@),
{
    let mut s = cat3("GET /", path, " HTTP/1.1\r\nHost: 127.0.0.1:8792\r\n");
    let h = if token.is_empty() {
        String::new()
    } else {
        cat3("X-Blackboard-Token: ", token, "\r\n")
    };
    s.append(h.as_str());
    s.append("Connection: close\r\n\r\n");
    s
}

/// The list that the local board answered with, or why there is none; the code of the
/// answer does not matter.
pub fn bb_list(text: &str) -> (r: Result<Json, String>)
    ensures
        match json_parsed(response_body(text@)) {
            Ok(v) => r matches Ok(j) && j@ == v && j@.orderly(),
            Err(e) => r matches Err(m) && m@ == "parse: "@ + e,
        },
{
    let (_, body) = read_response(text);
    match parse(body.as_str()) {
        Ok(v) => Ok(v),
        Err(e) => Err(cat("parse: ", e.as_str())),
    }
}

// ---------------------------------------------------------------- laws

proof fn last_one(a: Seq<char>, c: char, b: Seq<char>)
    requires
        !b.contains(c),
    ensures
        last_char(a + seq![c] + b, c) == Some(a.len() as int),
    decreases b.len(),
{
    let s = a + seq![c] + b;
    if b.len() > 0 {
        assert(s.last() == b.last());
        assert(b.contains(b.last()));
        assert(s.drop_last() =~= a + seq![c] + b.drop_last());
        assert(!b.drop_last().contains(c)) by {
            if b.drop_last().contains(c) {
                let i = choose|i: int| 0 <= i < b.len() - 1 && b.drop_last()[i] == c;
                assert(b[i] == c);
            }
        }
        last_one(a, c, b.drop_last());
    } else {
        assert(s.last() == c);
    }
}

proof fn no_last_one(a: Seq<char>, c: char)
    requires
        !a.contains(c),
    ensures
        last_char(a, c) is None,
    decreases a.len(),
{
    if a.len() > 0 {
        assert(a.contains(a.last()));
        assert(!a.drop_last().contains(c)) by {
            if a.drop_last().contains(c) {
                let i = choose|i: int| 0 <= i < a.len() - 1 && a.drop_last()[i] == c;
                assert(a[i] == c);
            }
        }
        no_last_one(a.drop_last(), c);
    }
}

/// A host with a port behind it is read as the host and the number of the port; without one
/// the port is 80.
pub proof fn ports_are_read(host: Seq<char>, port: nat, plain: Seq<char>)
    requires
        port <= u16::MAX,
        !plain.contains(':'),
    ensures
        host_of(host + seq![':'] + dec(port)) == host,
        port_of(host + seq![':'] + dec(port)) == port,
        host_of(plain) == plain,
        port_of(plain) == 80,
{
    dec_is_plain(port);
    dec_round_trip(port, u16::MAX as nat);
    last_one(host, ':', dec(port));
    no_last_one(plain, ':');
    let s = host + seq![':'] + dec(port);
    assert(s.take(host.len() as int) =~= host);
    assert(s.skip(host.len() as int + 1) =~= dec(port));
}

/// An address is read as its host, up to the first slash behind the scheme, and its path,
/// from that slash on.
pub proof fn addresses_are_read(hp: Seq<char>, path: Seq<char>)
    requires
        !hp.contains('/'),
        hp.len() > 0,
        !starts(hp + seq!['/'] + path, "http://"@),
        path.len() > 0,
        path.last() != '/',
    ensures
        host_port("http://"@ + (hp + seq!['/'] + path)) == hp,
        url_path("http://"@ + (hp + seq!['/'] + path)) == seq!['/'] + path,
{
    reveal_strlit("http://");
    reveal_strlit("/");
    assert("/"@ =~= seq!['/']);
    let t = hp + seq!['/'] + path;
    let u = "http://"@ + t;
    assert(u.subrange(0, 7) =~= "http://"@);
    assert(u.skip(7) =~= t);
    reveal_with_fuel(strip_prefixes, 2);
    assert(strip_prefixes(u, "http://"@) == t);
    assert(!ends(t, "/"@)) by {
        if ends(t, "/"@) {
            let k = t.len() - 1;
            assert(t.subrange(k, k + 1)[0] == t[k]);
            assert(t[k] == path.last());
        }
    }
    assert(bare_url(u) == t);
    found_behind(hp, '/', path);
}

/// An address of the board is its own address, one slash, and the key, whether or not the
/// address ends with a slash or the key begins with one.
pub proof fn board_addresses_have_one_slash(bb: Seq<char>, path: Seq<char>)
    requires
        bb.len() > 0,
        bb.last() != '/',
        path.len() > 0,
        path[0] != '/',
    ensures
        board_url(bb, path) == bb + "/"@ + path,
        board_url(bb + "/"@, path) == bb + "/"@ + path,
        board_url(bb, "/"@ + path) == bb + "/"@ + path,
{
    reveal_strlit("/");
    let p = "/"@;
    assert(p =~= seq!['/']);
    assert(!ends(bb, p)) by {
        if ends(bb, p) {
            let k = bb.len() - 1;
            assert(bb.subrange(k, k + 1)[0] == bb[k]);
        }
    }
    assert(!starts(path, p)) by {
        if starts(path, p) {
            assert(path.subrange(0, 1)[0] == path[0]);
        }
    }
    let b = bb + p;
    assert(b.subrange(b.len() - 1, b.len() as int) =~= p);
    assert(b.take(b.len() - 1) =~= bb);
    reveal_with_fuel(strip_prefixes, 2);
    reveal_with_fuel(strip_suffixes, 2);
    assert(strip_suffixes(b, p) == bb);
    let q = p + path;
    assert(q.subrange(0, 1) =~= p);
    assert(q.skip(1) =~= path);
    assert(strip_prefixes(q, p) == path);
}

/// A text with a status line, one line of headers or more, a blank line and a body gives the
/// code of its status line and its body.
pub proof fn answers_are_read(code: u16, why: Seq<char>, headers: Seq<char>, body: Seq<char>, n: int)
    requires
        !why.contains('\r'),
        !why.contains('\n'),
        headers.len() > 0,
        headers[0] != '\r',
        find(headers, blank_line()) == Some(n),
        headers.skip(n + 4) == body,
        find(body, blank_line()) is None,
    ensures
        response_code(
            "HTTP/1.1"@ + seq![' '] + (dec(code as nat) + seq![' '] + why) + seq!['\r', '\n']
                + headers,
        ) == code,
        response_body(
            "HTTP/1.1"@ + seq![' '] + (dec(code as nat) + seq![' '] + why) + seq!['\r', '\n']
                + headers,
        ) == body,
{
    reveal_strlit("HTTP/1.1");
    reveal_strlit("\r\n\r\n");
    assert("\r\n\r\n"@ =~= blank_line());
    let d = dec(code as nat);
    dec_is_plain(code as nat);
    dec_round_trip(code as nat, u16::MAX as nat);
    let l = "HTTP/1.1"@ + seq![' '] + (d + seq![' '] + why);
    assert(!l.contains('\r')) by {
        if l.contains('\r') {
            let i = choose|i: int| 0 <= i < l.len() && l[i] == '\r';
            if i >= 9 + d.len() + 1 {
                assert(l[i] == why[i - 9 - d.len() - 1]);
            }
        }
    }
    assert(!l.contains('\n')) by {
        if l.contains('\n') {
            let i = choose|i: int| 0 <= i < l.len() && l[i] == '\n';
            if i >= 9 + d.len() + 1 {
                assert(l[i] == why[i - 9 - d.len() - 1]);
            }
        }
    }
    let s = l + seq!['\r', '\n'] + headers;
    first_line_is_read(l, headers);
    words_on_both_sides("HTTP/1.1"@, ' ', d + seq![' '] + why);
    words_on_both_sides(d, ' ', why);
    one_word("HTTP/1.1"@);
    one_word(d);
    assert(words(l) =~= seq!["HTTP/1.1"@, d] + words(why));
    head_goes_on(l, headers, n);
    find_from_is_first(headers, blank_line(), 0);
    assert(s.skip(l.len() + 2 + n + 4) =~= headers.skip(n + 4));
}

/// Only an answer with the code 200 gives a value of the board, and that is the value its
/// body holds.
pub proof fn only_good_answers_count(path: Seq<char>, code: u16, body: String, e: String)
    ensures
        code != 200 ==> board_value(path, Ok((code, body))) is Err,
        json_parsed(body@) matches Ok(v) ==> board_value(path, Ok((200, body))) == Ok::<
            JsonView,
            Seq<char>,
        >(v),
        json_parsed(body@) is Err ==> board_value(path, Ok((200, body))) is Err,
        board_value(path, Err(e)) == Err::<JsonView, Seq<char>>(e@),
{
}

/// A token goes along with a request in a header of its own, and without one there is no such
/// header.
pub proof fn tokens_go_along(method: Seq<char>, url: Seq<char>, body: Seq<char>, token: Seq<char>)
    ensures
        token.len() > 0 ==> contains(
            request(method, url, body, token),
            "X-Blackboard-Token: "@ + token + "\r\n"@,
        ),
        token_header(seq![]).len() == 0,
{
    if token.len() > 0 {
        let h = "X-Blackboard-Token: "@ + token + "\r\n"@;
        let a = method + " "@ + url_path(url) + " HTTP/1.1\r\nHost: "@ + host_port(url)
            + "\r\nContent-Type: application/json\r\nContent-Length: "@ + dec(byte_len(body))
            + "\r\n"@;
        let b = "Connection: close\r\n\r\n"@ + body;
        parts_are_seen(a, h, b);
        assert(request(method, url, body, token) =~= a + h + b);
    }
}

} // verus!
