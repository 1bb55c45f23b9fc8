//! Following the board: a stream of events, taken line by line.
use vstd::prelude::*;
use crate::args::{comma_list, last_value, names, options, read_args, read_list, value_or};
use crate::http::{host_port, read_address, url_path};
use crate::json::{
    compact, json_parsed, json_text, parse, put_keeps_orderly, read_of_put, Json, JsonView,
};
use crate::text::{
    begins, blank, cat, cat5, chars_of, find, find_from_is_first, is_space, occurs_at,
    parts_are_seen, pieces, slice, split, starts, texts, trim, trimmed, trimming_bares,
};

verus! {

// ---------------------------------------------------------------- arguments

/// The arguments for following the board.
pub struct FollowArgs {
    pub agent: String,
    pub prefixes: Vec<String>,
    pub sse: String,
}

/// The options for following the board that take a value.
pub open spec fn follow_valued() -> Seq<Seq<char>> {
    seq!["--agent"@, "--prefixes"@, "--sse"@]
}

/// Reads the arguments.
pub fn bb_sub_args(args: &[String]) -> (r: FollowArgs)
    ensures
        ({
            let o = options(texts(args@), follow_valued());
            &&& r.agent@ == value_or(o, "--agent"@, "all"@)
            &&& texts(r.prefixes@) == match last_value(o, "--prefixes"@) {
                Some(s) => comma_list(s),
                None => seq!["notes/collab/"@],
            }
            &&& r.sse@ == value_or(o, "--sse"@, "http://127.0.0.1:8803/events"@)
        }),
{
    let valued = ["--agent", "--prefixes", "--sse"];
    let a = read_args(args, &valued);
    assert(names(valued@) =~= follow_valued());
    let prefixes = match a.value("--prefixes") {
        Some(s) => read_list(s.as_str()),
        None => {
            let mut v: Vec<String> = Vec::new();
            v.push("notes/collab/".to_owned());
            assert(texts(v@) =~= seq!["notes/collab/"@]);
            v
        },
    };
    FollowArgs {
        agent: a.value_or("--agent", "all"),
        prefixes,
        sse: a.value_or("--sse", "http://127.0.0.1:8803/events"),
    }
}

/// The request that opens the stream.
pub fn stream_request(url: &str) -> (r: String)
    ensures
        r@ == "GET "@ + url_path(url@) + " HTTP/1.1\r\nHost: "@ + host_port(url@)
            + "\r\nAccept: text/event-stream\r\nCache-Control: no-cache\r\nConnection: keep-alive\r\n\r\n"@,
{
    let a = read_address(url);
    cat5(
        "GET ",
        a.path.as_str(),
        " HTTP/1.1\r\nHost: ",
        a.host_port.as_str(),
        "\r\nAccept: text/event-stream\r\nCache-Control: no-cache\r\nConnection: keep-alive\r\n\r\n",
    )
}

/// How long to wait before the next try: twice as long, a minute at the most.
pub fn next_backoff(b: u64) -> (r: u64)
    ensures
        r == if 2 * b < 60 {
            2 * b
        } else {
            60
        },
{
    if b < 30 {
        b * 2
    } else {
        60
    }
}

// ---------------------------------------------------------------- lines

/// Takes what came in: the lines that it completes are given, and what follows the
/// last line feed is kept.
pub fn feed(rest: &mut String, chunk: &str) -> (r: Vec<String>)
    ensures
        texts(r@) == split(old(rest)@ + chunk@, "\n"@).drop_last(),
        final(rest)@ == split(old(rest)@ + chunk@, "\n"@).last(),
{
    let all = cat(rest.as_str(), chunk);
    let mut p = pieces(all.as_str(), "\n");
    let ghost t = texts(p@);
    assert(t.len() == p@.len());
    assert(t.last() == p@[p@.len() - 1]@);
    let last = p.pop();
    match last {
        Some(l) => {
            *rest = l;
        },
        None => {},
    }
    assert(texts(p@) =~= t.drop_last());
    p
}

/// It does not matter how a stream is cut: what came in two parts gives the lines
/// that it gives in one.
pub proof fn parts_do_not_matter(a: Seq<char>, b: Seq<char>)
    ensures
        split(a + b, "\n"@) == split(a, "\n"@).drop_last() + split(
            split(a, "\n"@).last() + b,
            "\n"@,
        ),
    decreases a.len(),
{
    reveal_strlit("\n");
    let nl = "\n"@;
    find_from_is_first(a, nl, 0);
    find_from_is_first(a + b, nl, 0);
    let s = a + b;
    match find(a, nl) {
        Some(i) => {
            assert(s.subrange(i, i + 1) =~= a.subrange(i, i + 1));
            assert(occurs_at(s, nl, i));
            let k = find(s, nl)->0;
            if k < i {
                assert(s.subrange(k, k + 1) =~= a.subrange(k, k + 1));
                assert(occurs_at(a, nl, k));
            }
            let r = a.skip(i + 1);
            parts_do_not_matter(r, b);
            assert(s.take(i) =~= a.take(i));
            assert(s.skip(i + 1) =~= r + b);
            let head = seq![a.take(i)];
            let sr = split(r, nl);
            assert(split(a, nl) =~= head + sr);
            split_has_pieces(r, nl);
            assert(split(a, nl).drop_last() =~= head + sr.drop_last());
            assert(split(a, nl).last() == sr.last());
            assert(split(s, nl) =~= head + split(r + b, nl));
            assert(head + (sr.drop_last() + split(sr.last() + b, nl)) =~= (head + sr.drop_last())
                + split(sr.last() + b, nl));
        },
        None => {
            assert(split(a, nl).drop_last() =~= seq![]);
            assert(split(a, nl).last() == a);
            assert(seq![] + split(a + b, nl) =~= split(a + b, nl));
        },
    }
}

proof fn split_has_pieces(s: Seq<char>, sep: Seq<char>)
    ensures
        split(s, sep).len() > 0,
{
}

// ---------------------------------------------------------------- events

/// What an event brings: a key, and the value under it.
pub open spec fn event_value(line: Seq<char>) -> Option<Seq<char>> {
    let l = trim(line);
    if starts(l, "data:"@) {
        Some(trim(l.skip(5)))
    } else {
        None
    }
}

/// The key is one that is followed.
pub open spec fn followed(key: Seq<char>, prefixes: Seq<Seq<char>>) -> bool {
    key.len() > 0 && exists|i: int| 0 <= i < prefixes.len() && starts(key, #[trigger] prefixes[i])
}

/// What is kept of an event.
pub open spec fn kept_event(evt: JsonView, now: Seq<char>) -> JsonView {
    JsonView::object().put("ts"@, JsonView::Str(now)).put(
        "key"@,
        JsonView::Str(evt.text_or("key"@, seq![])),
    ).put("value"@, evt.at("value"@)).put("version"@, evt.at("version"@))
}

fn is_followed(key: &str, prefixes: &Vec<String>) -> (r: bool)
    ensures
        r == followed(key@, texts(prefixes@)),
{
    if key.is_empty() {
        return false;
    }
    let ghost t = texts(prefixes@);
    let mut i: usize = 0;
    while i < prefixes.len()
        invariant
            i <= prefixes@.len(),
            t == texts(prefixes@),
            key@.len() > 0,
            forall|j: int| 0 <= j < i ==> !starts(key@, #[trigger] t[j]),
        decreases prefixes@.len() - i,
    {
        assert(t[i as int] == prefixes@[i as int]@);
        if begins(key, prefixes[i].as_str()) {
            assert(starts(key@, texts(prefixes@)[i as int]));
            return true;
        }
        i += 1;
    }
    false
}

/// An event that is kept: its key, and what is kept of it.
pub struct Kept {
    pub key: String,
    pub entry: Json,
}

/// The event that a value is, if its key is followed.
pub fn take_event(evt: &Json, prefixes: &Vec<String>, now: &str) -> (r: Option<Kept>)
    ensures
        match r {
            Some(k) => followed(evt@.text_or("key"@, seq![]), texts(prefixes@)) && k.key@
                == evt@.text_or("key"@, seq![]) && k.entry@ == kept_event(evt@, now@),
            None => !followed(evt@.text_or("key"@, seq![]), texts(prefixes@)),
        },
{
    proof {
        reveal_strlit("");
        assert(""@ =~= seq![]);
    }
    let key = evt.text_or("key", "");
    if !is_followed(key.as_str(), prefixes) {
        return None;
    }
    let entry = Json::object().with("ts", Json::text(now)).with(
        "key",
        Json::text(key.as_str()),
    ).with("value", evt.at("value")).with("version", evt.at("version"));
    Some(Kept { key, entry })
}

/// The event on a line: what follows `data:`, where it holds a value with a key that
/// is followed.
pub fn read_event(line: &str, prefixes: &Vec<String>, now: &str) -> (r: Option<Kept>)
    ensures
        match event_value(line@) {
            Some(d) => match json_parsed(d) {
                Ok(v) => match r {
                    Some(k) => followed(v.text_or("key"@, seq![]), texts(prefixes@)) && k.key@
                        == v.text_or("key"@, seq![]) && k.entry@ == kept_event(v, now@)
                        && k.entry@.orderly(),
                    None => !followed(v.text_or("key"@, seq![]), texts(prefixes@)),
                },
                Err(_) => r is None,
            },
            None => r is None,
        },
{
    broadcast use put_keeps_orderly;

    let l = trimmed(line);
    if !begins(l.as_str(), "data:") {
        return None;
    }
    proof {
        reveal_strlit("data:");
    }
    let n: usize = chars_of(l.as_str()).len();
    let d = slice(l.as_str(), 5, n);
    assert(l@.subrange(5, n as int) =~= l@.skip(5));
    match parse(trimmed(d.as_str()).as_str()) {
        Ok(v) => {
            proof {
                crate::json::at_keeps_orderly(v@, "value"@);
                crate::json::at_keeps_orderly(v@, "version"@);
            }
            take_event(&v, prefixes, now)
        },
        Err(_) => None,
    }
}

/// The line that is appended to the inbox for an event.
pub fn inbox_line(entry: &Json) -> (r: String)
    ensures
        r@ == json_text(entry@.canon()) + "\n"@,
        entry@.orderly() ==> r@ == json_text(entry@) + "\n"@,
{
    cat(compact(entry).as_str(), "\n")
}

// ---------------------------------------------------------------- laws

/// What stands behind `data:` on a line is the event, without the blanks around it.
pub proof fn event_is_behind_its_name(
    a: Seq<char>,
    gap: Seq<char>,
    d: Seq<char>,
    b: Seq<char>,
)
    requires
        blank(a),
        blank(gap),
        blank(b),
        d.len() > 0,
        !is_space(d[0]),
        !is_space(d.last()),
    ensures
        event_value(a + ("data:"@ + gap + d) + b) == Some(d),
{
    reveal_strlit("data:");
    let l = "data:"@ + gap + d;
    assert(!is_space(l[0]));
    trimming_bares(a, l, b);
    parts_are_seen(seq![], "data:"@, gap + d);
    assert(l =~= "data:"@ + (gap + d));
    assert(l.skip(5) =~= gap + d + Seq::<char>::empty());
    trimming_bares(gap, d, seq![]);
}

/// A key is followed exactly where it goes on from one of the prefixes; the empty key never
/// is.
pub proof fn prefixes_are_followed(prefixes: Seq<Seq<char>>, i: int, rest: Seq<char>, key: Seq<char>)
    requires
        0 <= i < prefixes.len(),
    ensures
        (prefixes[i] + rest).len() > 0 ==> followed(prefixes[i] + rest, prefixes),
        followed(key, prefixes) ==> exists|j: int|
            0 <= j < prefixes.len() && key == (#[trigger] prefixes[j]) + key.skip(
                prefixes[j].len() as int,
            ),
        !followed(seq![], prefixes),
        !followed(key, seq![]),
{
    parts_are_seen(seq![], prefixes[i], rest);
    if followed(key, prefixes) {
        let j = choose|j: int| 0 <= j < prefixes.len() && starts(key, #[trigger] prefixes[j]);
        parts_are_seen(key, prefixes[j], rest);
    }
}

/// What is kept of an event are its key, its value and its version as they came, and the
/// time.
pub proof fn event_is_kept(evt: JsonView, key: Seq<char>, now: Seq<char>)
    requires
        evt.at("key"@) == JsonView::Str(key),
    ensures
        ({
            let k = kept_event(evt, now);
            &&& k.at("key"@) == JsonView::Str(key)
            &&& k.at("value"@) == evt.at("value"@)
            &&& k.at("version"@) == evt.at("version"@)
            &&& k.at("ts"@) == JsonView::Str(now)
        }),
{
    broadcast use read_of_put;

    reveal_strlit("ts");
    reveal_strlit("key");
    reveal_strlit("value");
    reveal_strlit("version");
    assert("ts"@.len() == 2 && "key"@.len() == 3 && "value"@.len() == 5 && "version"@.len() == 7);
}

} // verus!
