//! The record of pitfalls: what went wrong before, and how it was mended.
use vstd::prelude::*;
use crate::args::{
    last_of, last_value, names, options, plain_words, positionals, read_args,
};
use crate::bus::{read_json, value_read};
use crate::json::{json_pretty, pretty, put_keeps_orderly, read_of_put, views, Json, JsonView};
use crate::num::{dec, decimal};
use crate::order::at_most;
use crate::path::{path_under, under};
use crate::report::say;
use crate::text::{
    ascii_lower, cat3, chars_of, contains, has, join, joined, lowered, maybe, occurs_at,
    parts_are_seen, string_of, strip_end, strip_start, stripped_end, stripped_start, texts,
    to_lowercase,
};

verus! {

// ---------------------------------------------------------------- the record

/// The file of the record.
pub fn pitfalls_path(home: &str) -> (r: String)
    ensures
        r@ == under(home@, "dsh-collab/docs/pitfalls/pitfalls.json"@),
{
    path_under(home, "dsh-collab/docs/pitfalls/pitfalls.json")
}

/// The record without entries.
pub open spec fn no_pitfalls() -> JsonView {
    JsonView::object().put("version"@, JsonView::Int(1)).put("items"@, JsonView::Arr(seq![]))
}

/// The record, given the text of its file where it can be read.
pub fn load_pitfalls(text: &Option<String>) -> (r: Json)
    ensures
        r@ == match value_read(maybe(*text)) {
            Some(v) => v,
            None => no_pitfalls(),
        },
        r@.orderly(),
{
    broadcast use put_keeps_orderly;

    match read_json(text) {
        Some(v) => v,
        None => {
            let none: Vec<Json> = Vec::new();
            assert(views(none@) =~= seq![]);
            Json::object().with("version", Json::Uint(1)).with("items", Json::array(none))
        },
    }
}

// ---------------------------------------------------------------- asking

/// What is asked of the record.
pub struct PitfallQuery {
    pub tag: Option<String>,
    pub level: Option<String>,
}

/// The word that stands first, if any.
pub open spec fn first_word(w: Seq<Seq<char>>) -> Option<Seq<char>> {
    if w.len() > 0 {
        Some(w[0])
    } else {
        None
    }
}

/// Reads what is asked: the keyword is that of the last `--tag`, else the first word.
pub fn pitfall_query_args(args: &[String]) -> (r: PitfallQuery)
    ensures
        ({
            let o = options(texts(args@), seq!["--tag"@, "--level"@]);
            let w = plain_words(texts(args@), seq!["--tag"@, "--level"@]);
            &&& maybe(r.tag) == match last_value(o, "--tag"@) {
                Some(t) => Some(t),
                None => first_word(positionals(w)),
            }
            &&& maybe(r.level) == last_value(o, "--level"@)
        }),
{
    let valued = ["--tag", "--level"];
    let a = read_args(args, &valued);
    assert(names(valued@) =~= seq!["--tag"@, "--level"@]);
    let p = a.positionals();
    let ghost t = texts(p@);
    assert(t.len() == p@.len());
    let tag = match a.value("--tag") {
        Some(t) => Some(t),
        None => if p.len() > 0 {
            assert(t[0] == p@[0]@);
            Some(p[0].clone())
        } else {
            None
        },
    };
    PitfallQuery { tag, level: a.value("--level") }
}

/// What is searched in an entry.
pub open spec fn searched(e: JsonView) -> Seq<char> {
    join(
        seq![
            e.text_or("title"@, seq![]),
            e.text_or("root_cause"@, seq![]),
            e.text_or("fix"@, seq![]),
            e.text_or("id"@, seq![]),
        ],
        " "@,
    )
}

/// Two texts are the same but for the case of ASCII letters.
pub open spec fn same_but_case(a: Seq<char>, b: Seq<char>) -> bool {
    a.map_values(|c: char| ascii_lower(c)) == b.map_values(|c: char| ascii_lower(c))
}

/// An entry answers a question.
pub open spec fn answers(e: JsonView, tag: Option<Seq<char>>, level: Option<Seq<char>>) -> bool {
    &&& tag matches Some(t) ==> contains(lowered(searched(e)), lowered(t))
    &&& level matches Some(l) ==> same_but_case(e.text_or("severity"@, seq![]), l)
}

/// The entries that answer a question, in their order.
pub open spec fn hits(
    es: Seq<JsonView>,
    tag: Option<Seq<char>>,
    level: Option<Seq<char>>,
) -> Seq<JsonView>
    decreases es.len(),
{
    if es.len() == 0 {
        seq![]
    } else if answers(es.last(), tag, level) {
        hits(es.drop_last(), tag, level).push(es.last())
    } else {
        hits(es.drop_last(), tag, level)
    }
}

/// The entries on record.
pub open spec fn entries_of(data: JsonView) -> Seq<JsonView> {
    match data.items("items"@) {
        Some(a) => a,
        None => seq![],
    }
}

/// The answer to a question: how many entries, and the first twenty of them.
pub open spec fn answer_value(
    data: JsonView,
    tag: Option<Seq<char>>,
    level: Option<Seq<char>>,
) -> JsonView {
    let h = hits(entries_of(data), tag, level);
    JsonView::object().put("count"@, JsonView::Int(h.len() as int)).put(
        "hits"@,
        JsonView::Arr(at_most(h, 20)),
    )
}

/// A question without a keyword and a level is answered by everything.
pub proof fn open_question_gives_all(es: Seq<JsonView>)
    ensures
        hits(es, None, None) == es,
    decreases es.len(),
{
    if es.len() > 0 {
        open_question_gives_all(es.drop_last());
        assert(es.drop_last().push(es.last()) =~= es);
    }
}

/// Every entry that answers is found, and nothing else.
pub proof fn hits_are_answers(
    es: Seq<JsonView>,
    tag: Option<Seq<char>>,
    level: Option<Seq<char>>,
    e: JsonView,
)
    ensures
        hits(es, tag, level).contains(e) <==> es.contains(e) && answers(e, tag, level),
    decreases es.len(),
{
    if es.len() > 0 {
        let d = es.drop_last();
        let h = hits(es, tag, level);
        let g = hits(d, tag, level);
        hits_are_answers(d, tag, level, e);
        assert(es.last() == es[es.len() - 1]);
        if d.contains(e) {
            let i = choose|i: int| 0 <= i < d.len() && d[i] == e;
            assert(es[i] == e);
        }
        if es.contains(e) && e != es.last() {
            let i = choose|i: int| 0 <= i < es.len() && es[i] == e;
            assert(d[i] == e);
        }
        if g.contains(e) {
            let i = choose|i: int| 0 <= i < g.len() && g[i] == e;
            assert(h[i] == e);
        }
        if h.contains(e) && answers(es.last(), tag, level) {
            let i = choose|i: int| 0 <= i < h.len() && h[i] == e;
            if i < g.len() {
                assert(g[i] == e);
            }
        }
        if answers(es.last(), tag, level) && e == es.last() {
            assert(h[g.len() as int] == e);
        }
    }
}

fn search_text(e: &Json) -> (r: String)
    ensures
        r@ == searched(e@),
{
    proof {
        reveal_strlit("");
        assert(""@ =~= seq![]);
    }
    let mut v: Vec<String> = Vec::new();
    say(&mut v, e.text_or("title", "").as_str());
    say(&mut v, e.text_or("root_cause", "").as_str());
    say(&mut v, e.text_or("fix", "").as_str());
    say(&mut v, e.text_or("id", "").as_str());
    assert(texts(v@) =~= seq![
        e@.text_or("title"@, seq![]),
        e@.text_or("root_cause"@, seq![]),
        e@.text_or("fix"@, seq![]),
        e@.text_or("id"@, seq![]),
    ]);
    joined(&v, " ")
}

fn lower(c: char) -> (r: char)
    ensures
        r == ascii_lower(c),
{
    if 'A' <= c && c <= 'Z' {
        let n: u8 = c as u32 as u8;
        (n + 32) as char
    } else {
        c
    }
}

fn same_ignoring_case(a: &str, b: &str) -> (r: bool)
    ensures
        r == same_but_case(a@, b@),
{
    let x = chars_of(a);
    let y = chars_of(b);
    let ghost lx = x@.map_values(|c: char| ascii_lower(c));
    let ghost ly = y@.map_values(|c: char| ascii_lower(c));
    if x.len() != y.len() {
        assert(lx.len() != ly.len());
        return false;
    }
    let mut i: usize = 0;
    while i < x.len()
        invariant
            i <= x@.len() == y@.len(),
            x@ == a@,
            y@ == b@,
            lx == x@.map_values(|c: char| ascii_lower(c)),
            ly == y@.map_values(|c: char| ascii_lower(c)),
            forall|j: int| 0 <= j < i ==> lx[j] == ly[j],
        decreases x@.len() - i,
    {
        if lower(x[i]) != lower(y[i]) {
            assert(lx[i as int] != ly[i as int]);
            return false;
        }
        i += 1;
    }
    assert(lx =~= ly);
    true
}

fn does_answer(e: &Json, q: &PitfallQuery) -> (r: bool)
    ensures
        r == answers(e@, maybe(q.tag), maybe(q.level)),
{
    proof {
        reveal_strlit("");
        assert(""@ =~= seq![]);
    }
    if let Some(t) = &q.tag {
        let hay = to_lowercase(search_text(e).as_str());
        let found = has(hay.as_str(), to_lowercase(t.as_str()).as_str());
        if !found {
            return false;
        }
    }
    if let Some(l) = &q.level {
        if !same_ignoring_case(e.text_or("severity", "").as_str(), l.as_str()) {
            return false;
        }
    }
    true
}

/// The answer to a question.
pub fn pitfall_query(data: &Json, q: &PitfallQuery) -> (r: Json)
    ensures
        r@ == answer_value(data@, maybe(q.tag), maybe(q.level)),
{
    let ghost es = entries_of(data@);
    let ghost all = hits(es, maybe(q.tag), maybe(q.level));
    let mut n: usize = 0;
    let mut out: Vec<Json> = Vec::new();
    assert(views(out@) =~= seq![]);
    if let Some(a) = data.items("items") {
        let mut i: usize = 0;
        assert(es =~= views(a@));
        assert(es.take(0) =~= seq![]);
        while i < a.len()
            invariant
                n <= i <= a@.len(),
                es == views(a@),
                n == hits(es.take(i as int), maybe(q.tag), maybe(q.level)).len(),
                views(out@) == at_most(hits(es.take(i as int), maybe(q.tag), maybe(q.level)), 20),
            decreases a@.len() - i,
        {
            proof {
                assert(es.take(i + 1).drop_last() =~= es.take(i as int));
                assert(es.take(i + 1).last() == a@[i as int]@);
            }
            let ghost before = hits(es.take(i as int), maybe(q.tag), maybe(q.level));
            if does_answer(&a[i], q) {
                if n < 20 {
                    let ghost prev = views(out@);
                    let x = a[i].copy();
                    out.push(x);
                    assert(views(out@) =~= prev.push(a@[i as int]@));
                    assert(views(out@) =~= at_most(before.push(a@[i as int]@), 20));
                } else {
                    assert(at_most(before, 20) =~= at_most(before.push(a@[i as int]@), 20));
                }
                n += 1;
            }
            i += 1;
        }
        assert(es.take(i as int) =~= es);
    }
    Json::object().with("count", Json::Uint(n as u64)).with("hits", Json::array(out))
}

// ---------------------------------------------------------------- names

/// What a character of a title becomes in the name of an entry: letters and digits
/// stay, in lowercase, and what parts words becomes a hyphen.
pub open spec fn name_char(c: char) -> Option<char> {
    if 'a' <= c <= 'z' || 'A' <= c <= 'Z' || '0' <= c <= '9' || c == '-' {
        Some(ascii_lower(c))
    } else if c == ' ' || c == '/' || c == ':' {
        Some('-')
    } else {
        None
    }
}

/// A character put behind a text; a hyphen is not put behind another.
pub open spec fn put_char(s: Seq<char>, c: char) -> Seq<char> {
    if c == '-' && s.len() > 0 && s.last() == '-' {
        s
    } else {
        s.push(c)
    }
}

/// The characters that stay of a title, with single hyphens between the words.
pub open spec fn hyphened(s: Seq<char>) -> Seq<char>
    decreases s.len(),
{
    if s.len() == 0 {
        seq![]
    } else {
        match name_char(s.last()) {
            Some(c) => put_char(hyphened(s.drop_last()), c),
            None => hyphened(s.drop_last()),
        }
    }
}

/// The name that a title makes: its letters and digits, with single hyphens between
/// the words.
pub open spec fn slug_of(s: Seq<char>) -> Seq<char> {
    strip_end(strip_start(hyphened(s), "-"@), "-"@)
}

/// The name that a title makes.
pub fn slug(s: &str) -> (r: String)
    ensures
        r@ == slug_of(s@),
{
    let v = chars_of(s);
    let mut out: Vec<char> = Vec::new();
    let mut i: usize = 0;
    assert(v@.take(0) =~= seq![]);
    while i < v.len()
        invariant
            i <= v@.len(),
            out@ == hyphened(v@.take(i as int)),
        decreases v@.len() - i,
    {
        proof {
            assert(v@.take(i + 1).drop_last() =~= v@.take(i as int));
            assert(v@.take(i + 1).last() == v@[i as int]);
        }
        let c = v[i];
        let kept = ('a' <= c && c <= 'z') || ('A' <= c && c <= 'Z') || ('0' <= c && c <= '9') || c
            == '-';
        if kept || c == ' ' || c == '/' || c == ':' {
            let d: char = if kept {
                lower(c)
            } else {
                '-'
            };
            let n: usize = out.len();
            if !(d == '-' && n > 0 && out[n - 1] == '-') {
                out.push(d);
            }
        }
        i += 1;
    }
    assert(v@.take(i as int) =~= v@);
    let n: usize = out.len();
    assert(out@.subrange(0, n as int) =~= out@);
    let t = string_of(&out, 0, n);
    let front = stripped_start(t.as_str(), "-");
    stripped_end(front.as_str(), "-")
}

/// A character of a name.
pub open spec fn plain_char(c: char) -> bool {
    'a' <= c <= 'z' || '0' <= c <= '9' || c == '-'
}

/// Only characters of names, and no two hyphens in a row.
pub open spec fn plain(s: Seq<char>) -> bool {
    &&& forall|i: int| 0 <= i < s.len() ==> plain_char(#[trigger] s[i])
    &&& forall|i: int, j: int|
        0 <= i && j == i + 1 && j < s.len() ==> !(#[trigger] s[i] == '-' && #[trigger] s[j] == '-')
}

proof fn hyphened_is_plain(s: Seq<char>)
    ensures
        plain(hyphened(s)),
    decreases s.len(),
{
    if s.len() > 0 {
        hyphened_is_plain(s.drop_last());
    }
}

proof fn strip_start_keeps_plain(s: Seq<char>)
    requires
        plain(s),
    ensures
        plain(strip_start(s, seq!['-'])),
        strip_start(s, seq!['-']).len() > 0 ==> strip_start(s, seq!['-'])[0] != '-',
    decreases s.len(),
{
    if s.len() > 0 {
        assert(seq!['-'].contains('-')) by {
            assert(seq!['-'][0] == '-');
        }
        if seq!['-'].contains(s[0]) {
            strip_start_keeps_plain(s.skip(1));
        }
    }
}

proof fn strip_end_keeps_plain(s: Seq<char>)
    requires
        plain(s),
        s.len() > 0 ==> s[0] != '-',
    ensures
        plain(strip_end(s, seq!['-'])),
        strip_end(s, seq!['-']).len() > 0 ==> strip_end(s, seq!['-'])[0] != '-' && strip_end(
            s,
            seq!['-'],
        ).last() != '-',
    decreases s.len(),
{
    if s.len() > 0 {
        assert(seq!['-'].contains('-')) by {
            assert(seq!['-'][0] == '-');
        }
        if seq!['-'].contains(s.last()) {
            strip_end_keeps_plain(s.drop_last());
        }
    }
}

/// A name is made of lowercase letters, digits and single hyphens, and a hyphen stands
/// neither first nor last.
pub proof fn names_are_plain(s: Seq<char>)
    ensures
        plain(slug_of(s)),
        slug_of(s).len() > 0 ==> slug_of(s)[0] != '-' && slug_of(s).last() != '-',
{
    reveal_strlit("-");
    assert("-"@ =~= seq!['-']);
    hyphened_is_plain(s);
    strip_start_keeps_plain(hyphened(s));
    strip_end_keeps_plain(strip_start(hyphened(s), seq!['-']));
}

/// An ASCII letter or digit.
pub open spec fn ascii_alnum(c: char) -> bool {
    'a' <= c <= 'z' || 'A' <= c <= 'Z' || '0' <= c <= '9'
}

/// The ASCII letters and digits of a text, in order.
pub open spec fn alnums(s: Seq<char>) -> Seq<char>
    decreases s.len(),
{
    if s.len() == 0 {
        seq![]
    } else if ascii_alnum(s.last()) {
        alnums(s.drop_last()).push(s.last())
    } else {
        alnums(s.drop_last())
    }
}

/// The letters of a text in lowercase.
pub open spec fn in_lowercase(s: Seq<char>) -> Seq<char> {
    s.map_values(|c: char| ascii_lower(c))
}

proof fn alnums_of_two(a: Seq<char>, b: Seq<char>)
    ensures
        alnums(a + b) == alnums(a) + alnums(b),
    decreases b.len(),
{
    if b.len() == 0 {
        assert(a + b =~= a);
        assert(alnums(a) + alnums(b) =~= alnums(a));
    } else {
        assert((a + b).drop_last() =~= a + b.drop_last());
        alnums_of_two(a, b.drop_last());
        assert(alnums(a + b) =~= alnums(a) + alnums(b));
    }
}

proof fn hyphened_keeps_alnums(s: Seq<char>)
    ensures
        alnums(hyphened(s)) == in_lowercase(alnums(s)),
    decreases s.len(),
{
    if s.len() == 0 {
        assert(alnums(hyphened(s)) =~= in_lowercase(alnums(s)));
    } else {
        let d = s.drop_last();
        let c = s.last();
        let h = hyphened(d);
        hyphened_keeps_alnums(d);
        if let Some(x) = name_char(c) {
            assert(h.push(x).drop_last() =~= h);
            assert(x == '-' || ascii_alnum(x));
            assert(ascii_alnum(c) == (x != '-'));
        }
        assert(alnums(hyphened(s)) =~= in_lowercase(alnums(s)));
    }
}

proof fn strip_start_keeps_alnums(s: Seq<char>)
    ensures
        alnums(strip_start(s, seq!['-'])) == alnums(s),
    decreases s.len(),
{
    if s.len() > 0 && seq!['-'].contains(s[0]) {
        assert(s[0] == '-');
        let one = seq!['-'];
        assert(s =~= one + s.skip(1));
        alnums_of_two(one, s.skip(1));
        assert(one.last() == '-');
        assert(one.drop_last() =~= Seq::<char>::empty());
        assert(alnums(one.drop_last()) =~= Seq::<char>::empty());
        assert(alnums(one) == alnums(one.drop_last()));
        assert(alnums(s) =~= alnums(s.skip(1)));
        strip_start_keeps_alnums(s.skip(1));
    }
}

proof fn strip_end_keeps_alnums(s: Seq<char>)
    ensures
        alnums(strip_end(s, seq!['-'])) == alnums(s),
    decreases s.len(),
{
    if s.len() > 0 && seq!['-'].contains(s[s.len() - 1]) {
        assert(s.last() == '-');
        assert(s.take(s.len() - 1) =~= s.drop_last());
        strip_end_keeps_alnums(s.drop_last());
    }
}

proof fn hyphened_of_plain(s: Seq<char>)
    requires
        plain(s),
    ensures
        hyphened(s) == s,
    decreases s.len(),
{
    if s.len() == 0 {
        assert(hyphened(s) =~= s);
    } else {
        let d = s.drop_last();
        let c = s.last();
        assert(forall|i: int| 0 <= i < d.len() ==> d[i] == s[i]);
        hyphened_of_plain(d);
        assert(plain_char(s[s.len() - 1]));
        assert(name_char(c) == Some(c));
        if c == '-' && d.len() > 0 && d.last() == '-' {
            assert(s[s.len() - 2] == '-' && s[s.len() - 1] == '-');
        }
        assert(d.push(c) =~= s);
    }
}

/// A name holds the ASCII letters and digits of its title, in lowercase and in order, and
/// is empty exactly where the title has none.
pub proof fn names_keep_the_letters(s: Seq<char>)
    ensures
        alnums(slug_of(s)) == in_lowercase(alnums(s)),
        slug_of(s).len() == 0 <==> alnums(s).len() == 0,
{
    reveal_strlit("-");
    assert("-"@ =~= seq!['-']);
    let h = hyphened(s);
    hyphened_keeps_alnums(s);
    strip_start_keeps_alnums(h);
    strip_end_keeps_alnums(strip_start(h, seq!['-']));
    names_are_plain(s);
    let t = slug_of(s);
    assert(alnums(t).len() == alnums(s).len());
    if t.len() > 0 {
        assert(plain_char(t[t.len() - 1]));
        assert(ascii_alnum(t.last()));
        assert(alnums(t).len() > 0);
    } else {
        assert(alnums(t).len() == 0);
    }
}

/// A name makes itself: a second pass changes nothing.
pub proof fn names_stay(s: Seq<char>)
    ensures
        slug_of(slug_of(s)) == slug_of(s),
{
    reveal_strlit("-");
    assert("-"@ =~= seq!['-']);
    names_are_plain(s);
    let t = slug_of(s);
    hyphened_of_plain(t);
    if t.len() > 0 {
        assert(!seq!['-'].contains(t[0]));
        assert(!seq!['-'].contains(t[t.len() - 1]));
    }
}

// ---------------------------------------------------------------- recording

/// A pitfall that is to be recorded.
pub struct NewPitfall {
    pub title: Option<String>,
    pub severity: String,
    pub date: Option<String>,
    pub detail: Option<String>,
}

/// The options of a record that take a value.
pub open spec fn record_valued() -> Seq<Seq<char>> {
    seq!["--level"@, "--severity"@, "--date"@, "--detail"@]
}

/// Reads what is to be recorded: the title is the first word.
pub fn pitfall_add_args(args: &[String]) -> (r: NewPitfall)
    ensures
        ({
            let o = options(texts(args@), record_valued());
            let w = plain_words(texts(args@), record_valued());
            &&& maybe(r.title) == first_word(positionals(w))
            &&& r.severity@ == match last_of(o, "--level"@, "--severity"@) {
                Some(p) => p.1,
                None => "P2"@,
            }
            &&& maybe(r.date) == last_value(o, "--date"@)
            &&& maybe(r.detail) == last_value(o, "--detail"@)
        }),
{
    let valued = ["--level", "--severity", "--date", "--detail"];
    let a = read_args(args, &valued);
    assert(names(valued@) =~= record_valued());
    let p = a.positionals();
    let ghost t = texts(p@);
    assert(t.len() == p@.len());
    let title = if p.len() > 0 {
        assert(t[0] == p@[0]@);
        Some(p[0].clone())
    } else {
        None
    };
    let severity = match a.last_of("--level", "--severity") {
        Some((_, s)) => s,
        None => "P2".to_owned(),
    };
    NewPitfall { title, severity, date: a.value("--date"), detail: a.value("--detail") }
}

/// The name of an entry: its day and its title; where the title gives no name, its
/// place in the record.
pub open spec fn entry_id(date: Seq<char>, title: Seq<char>, count: nat) -> Seq<char> {
    if slug_of(title).len() == 0 {
        date + "-P"@ + dec(count + 1)
    } else {
        date + "-"@ + slug_of(title)
    }
}

/// An entry of the record.
pub open spec fn entry_value(
    id: Seq<char>,
    severity: Seq<char>,
    date: Seq<char>,
    title: Seq<char>,
    detail: Option<Seq<char>>,
) -> JsonView {
    JsonView::object().put("id"@, JsonView::Str(id)).put(
        "severity"@,
        JsonView::Str(severity),
    ).put("date"@, JsonView::Str(date)).put("title"@, JsonView::Str(title)).put(
        "phenomenon"@,
        JsonView::Str(
            match detail {
                Some(d) => d,
                None => seq![],
            },
        ),
    ).put("root_cause"@, JsonView::Str(seq![])).put("fix"@, JsonView::Str(seq![])).put(
        "lesson"@,
        JsonView::Str(seq![]),
    ).put("sop_update"@, JsonView::Str(seq![]))
}

/// An entry put on record: its name, the entry, and the record with it.
pub struct Recorded {
    pub id: String,
    pub entry: Json,
    pub data: Json,
}

/// Puts an entry at the end of the record; nothing where the record has no list of
/// entries.
pub fn pitfall_add(data: &Json, p: &NewPitfall, title: &str, date: &str) -> (r: Option<Recorded>)
    ensures
        match data@.items("items"@) {
            Some(es) => r matches Some(x) && {
                &&& x.id@ == entry_id(date@, title@, es.len())
                &&& x.entry@ == entry_value(x.id@, p.severity@, date@, title@, maybe(p.detail))
                &&& x.data@ == data@.put("items"@, JsonView::Arr(es.push(x.entry@)))
                &&& data@.orderly() ==> x.data@.orderly()
            },
            None => r is None,
        },
{
    broadcast use put_keeps_orderly;

    proof {
        reveal_strlit("");
        assert(""@ =~= seq![]);
    }
    let a = match data.items("items") {
        Some(a) => a,
        None => {
            return None;
        },
    };
    let ghost es = views(a@);
    let mut out: Vec<Json> = Vec::new();
    let mut i: usize = 0;
    while i < a.len()
        invariant
            i <= a@.len(),
            es == views(a@),
            out@.len() == i,
            forall|j: int| 0 <= j < i ==> (#[trigger] out@[j])@ == es[j],
        decreases a@.len() - i,
    {
        let x = a[i].copy();
        out.push(x);
        i += 1;
    }
    let detail = match &p.detail {
        Some(d) => d.clone(),
        None => String::new(),
    };
    let name = slug(title);
    out.push(Json::Null);
    let count: usize = out.len();
    let id = if name.as_str().is_empty() {
        cat3(date, "-P", decimal(count as u64).as_str())
    } else {
        cat3(date, "-", name.as_str())
    };
    let entry = Json::object().with("id", Json::text(id.as_str())).with(
        "severity",
        Json::text(p.severity.as_str()),
    ).with("date", Json::text(date)).with("title", Json::text(title)).with(
        "phenomenon",
        Json::text(detail.as_str()),
    ).with("root_cause", Json::text("")).with("fix", Json::text("")).with(
        "lesson",
        Json::text(""),
    ).with("sop_update", Json::text(""));
    let e = entry.copy();
    let ghost ev = entry@;
    out.set(count - 1, e);
    assert(views(out@) =~= es.push(ev));
    let whole = data.copy().with("items", Json::array(out));
    proof {
        assert(ev.orderly());
        if data@.orderly() {
            crate::json::at_keeps_orderly(data@, "items"@);
            assert(JsonView::Arr(es).orderly());
            assert forall|k: int| 0 <= k < es.push(ev).len() implies (#[trigger] es.push(
                ev,
            )[k]).orderly() by {
                if k < es.len() {
                    assert(es[k].orderly());
                }
            }
            assert(JsonView::Arr(es.push(ev)).orderly());
        }
    }
    Some(Recorded { id, entry, data: whole })
}

/// What is printed once an entry is on record; `ok` tells whether the file was written.
pub fn recorded_json(x: &Recorded, ok: bool) -> (r: Json)
    ensures
        r@ == JsonView::object().put("ok"@, JsonView::Bool(ok)).put(
            "id"@,
            JsonView::Str(x.id@),
        ).put("entry"@, x.entry@).put(
            "note"@,
            JsonView::Str(
                "已写入 ~/dsh-collab/docs/pitfalls/pitfalls.json（单一事实源）。写前应 agent_lock file:pitfalls.json（R001 红绿灯）"@,
            ),
        ),
{
    Json::object().with("ok", Json::Bool(ok)).with("id", Json::text(x.id.as_str())).with(
        "entry",
        x.entry.copy(),
    ).with(
        "note",
        Json::text(
            "已写入 ~/dsh-collab/docs/pitfalls/pitfalls.json（单一事实源）。写前应 agent_lock file:pitfalls.json（R001 红绿灯）",
        ),
    )
}

/// What is printed where no title is given.
pub fn pitfall_add_usage() -> (r: String)
    ensures
        r@
            == "用法: dsh-tools pitfall add <title> [--level P1|P2|P3] [--date YYYY-MM-DD] [--detail 坑/根因/修复]"@,
{
    "用法: dsh-tools pitfall add <title> [--level P1|P2|P3] [--date YYYY-MM-DD] [--detail 坑/根因/修复]".to_owned()
}

/// What is on record before an entry is added is on record after it, and the entry
/// with it.
pub proof fn records_grow(data: JsonView, es: Seq<JsonView>, entry: JsonView)
    requires
        data.items("items"@) == Some(es),
    ensures
        entries_of(data.put("items"@, JsonView::Arr(es.push(entry)))) == entries_of(data).push(
            entry,
        ),
{
    crate::json::put_then_get(data, "items"@, JsonView::Arr(es.push(entry)), "items"@);
}

// ---------------------------------------------------------------- the commands

/// What is printed of the answer to a question.
pub fn cmd_pitfall_query(args: &[String], text: &Option<String>) -> (r: String)
    ensures
        ({
            let o = options(texts(args@), seq!["--tag"@, "--level"@]);
            let w = plain_words(texts(args@), seq!["--tag"@, "--level"@]);
            let tag = match last_value(o, "--tag"@) {
                Some(t) => Some(t),
                None => first_word(positionals(w)),
            };
            let data = match value_read(maybe(*text)) {
                Some(v) => v,
                None => no_pitfalls(),
            };
            r@ == json_pretty(answer_value(data, tag, last_value(o, "--level"@)).canon())
        }),
{
    let q = pitfall_query_args(args);
    pretty(&pitfall_query(&load_pitfalls(text), &q))
}

/// What comes of recording a pitfall.
pub enum AddPlan {
    /// There is no title; what is printed instead.
    Usage { line: String },
    /// The record has no list of entries.
    NoList,
    /// The record with the entry, as the text of its file.
    Store { recorded: Recorded, text: String },
}

/// Decides what comes of recording a pitfall; `today` stands for the day where none is
/// given.
pub fn cmd_pitfall_add(p: &NewPitfall, text: &Option<String>, today: &str) -> (r: AddPlan)
    ensures
        ({
            let data = match value_read(maybe(*text)) {
                Some(v) => v,
                None => no_pitfalls(),
            };
            let date = match maybe(p.date) {
                Some(d) => d,
                None => today@,
            };
            match maybe(p.title) {
                None => r matches AddPlan::Usage { line } && line@
                    == "用法: dsh-tools pitfall add <title> [--level P1|P2|P3] [--date YYYY-MM-DD] [--detail 坑/根因/修复]"@,
                Some(title) => match data.items("items"@) {
                    None => r is NoList,
                    Some(es) => r matches AddPlan::Store { recorded, text: t } && {
                        &&& recorded.id@ == entry_id(date, title, es.len())
                        &&& recorded.entry@ == entry_value(
                            recorded.id@,
                            p.severity@,
                            date,
                            title,
                            maybe(p.detail),
                        )
                        &&& recorded.data@ == data.put(
                            "items"@,
                            JsonView::Arr(es.push(recorded.entry@)),
                        )
                        &&& t@ == json_pretty(recorded.data@)
                    },
                },
            }
        }),
{
    let title = match &p.title {
        Some(t) => t,
        None => {
            return AddPlan::Usage { line: pitfall_add_usage() };
        },
    };
    let date = match &p.date {
        Some(d) => d.clone(),
        None => today.to_owned(),
    };
    let data = load_pitfalls(text);
    match pitfall_add(&data, p, title.as_str(), date.as_str()) {
        Some(recorded) => {
            let t = pretty(&recorded.data);
            AddPlan::Store { recorded, text: t }
        },
        None => AddPlan::NoList,
    }
}

// ---------------------------------------------------------------- laws

proof fn lowered_part(s: Seq<char>, t: Seq<char>)
    requires
        vstd::utf8::is_ascii_chars(s),
        vstd::utf8::is_ascii_chars(t),
        contains(s, t),
    ensures
        contains(lowered(s), lowered(t)),
{
    let i = choose|i: int| occurs_at(s, t, i);
    let (a, b) = (lowered(s), lowered(t));
    assert(a.subrange(i, i + b.len()) =~= b) by {
        assert forall|k: int| 0 <= k < b.len() implies a.subrange(i, i + b.len())[k] == b[k] by {
            assert(s.subrange(i, i + t.len())[k] == s[i + k]);
        }
    }
    assert(occurs_at(a, b, i));
}

proof fn part_of_wider(a: Seq<char>, s: Seq<char>, b: Seq<char>, t: Seq<char>)
    requires
        contains(s, t),
    ensures
        contains(a + s + b, t),
{
    let i = choose|i: int| occurs_at(s, t, i);
    let k = a.len() + i;
    assert((a + s + b).subrange(k, k + t.len()) =~= s.subrange(i, i + t.len()));
    assert(occurs_at(a + s + b, t, k));
}

proof fn row_of_four(p: Seq<char>, q: Seq<char>, r: Seq<char>, u: Seq<char>, sp: Seq<char>)
    ensures
        join(seq![p, q, r, u], sp) == p + sp + q + sp + r + sp + u,
{
    let l = seq![p, q, r, u];
    assert(l.drop_last() =~= seq![p, q, r]);
    assert(l.drop_last().drop_last() =~= seq![p, q]);
    assert(l.drop_last().drop_last().drop_last() =~= seq![p]);
    reveal_with_fuel(join, 5);
}

proof fn part_of_row(
    p: Seq<char>,
    q: Seq<char>,
    r: Seq<char>,
    u: Seq<char>,
    sp: Seq<char>,
    t: Seq<char>,
)
    requires
        contains(p, t) || contains(q, t) || contains(r, t) || contains(u, t),
    ensures
        contains(join(seq![p, q, r, u], sp), t),
{
    row_of_four(p, q, r, u, sp);
    let s = p + sp + q + sp + r + sp + u;
    let e = Seq::<char>::empty();
    if contains(p, t) {
        assert(s =~= e + p + (sp + q + sp + r + sp + u));
        part_of_wider(e, p, sp + q + sp + r + sp + u, t);
    } else if contains(q, t) {
        assert(s =~= (p + sp) + q + (sp + r + sp + u));
        part_of_wider(p + sp, q, sp + r + sp + u, t);
    } else if contains(r, t) {
        assert(s =~= (p + sp + q + sp) + r + (sp + u));
        part_of_wider(p + sp + q + sp, r, sp + u, t);
    } else {
        assert(s =~= (p + sp + q + sp + r + sp) + u + e);
        part_of_wider(p + sp + q + sp + r + sp, u, e, t);
    }
}

/// A keyword is found in the title, the cause, the remedy and the name of an entry, whatever
/// stands around it and in whatever case.
pub proof fn keywords_are_found(e: JsonView, a: Seq<char>, t: Seq<char>, b: Seq<char>, key: Seq<char>)
    requires
        vstd::utf8::is_ascii_chars(searched(e)),
        vstd::utf8::is_ascii_chars(t),
        lowered(key) == lowered(t),
        e.at("title"@) == JsonView::Str(a + t + b) || e.at("root_cause"@) == JsonView::Str(
            a + t + b,
        ) || e.at("fix"@) == JsonView::Str(a + t + b) || e.at("id"@) == JsonView::Str(a + t + b),
    ensures
        answers(e, Some(key), None),
{
    let (p, q, r, u) = (
        e.text_or("title"@, seq![]),
        e.text_or("root_cause"@, seq![]),
        e.text_or("fix"@, seq![]),
        e.text_or("id"@, seq![]),
    );
    let s = searched(e);
    parts_are_seen(a, t, b);
    part_of_row(p, q, r, u, " "@, t);
    lowered_part(s, t);
}

/// A level is compared without regard to the case of its letters, and only as a whole.
pub proof fn levels_are_compared(e: JsonView, s: Seq<char>, l: Seq<char>)
    requires
        e.at("severity"@) == JsonView::Str(s),
    ensures
        answers(e, None, Some(s)),
        s.len() != l.len() ==> !answers(e, None, Some(l)),
        answers(e, None, Some(l)) ==> in_lowercase(s) == in_lowercase(l),
        in_lowercase(s) == in_lowercase(l) ==> answers(e, None, Some(l)),
{
    if s.len() != l.len() {
        assert(in_lowercase(s).len() == s.len());
        assert(in_lowercase(l).len() == l.len());
    }
}

/// An answer tells how many entries there are, and gives the first twenty of them at the
/// most.
pub proof fn answers_are_told(data: JsonView, tag: Option<Seq<char>>, level: Option<Seq<char>>)
    ensures
        ({
            let h = hits(entries_of(data), tag, level);
            let v = answer_value(data, tag, level);
            &&& v.at("count"@) == JsonView::Int(h.len() as int)
            &&& v.at("hits"@) matches JsonView::Arr(a) && a.len() <= 20 && (a.len() == 20
                || a.len() == h.len()) && forall|i: int|
                0 <= i < a.len() ==> #[trigger] a[i] == h[i]
        }),
{
    broadcast use read_of_put;

    reveal_strlit("count");
    reveal_strlit("hits");
    assert("count"@.len() == 5 && "hits"@.len() == 4);
}

/// An entry says its name, its level, its day, its title and what was seen.
pub proof fn entries_are_told(
    id: Seq<char>,
    severity: Seq<char>,
    date: Seq<char>,
    title: Seq<char>,
    detail: Seq<char>,
)
    ensures
        ({
            let e = entry_value(id, severity, date, title, Some(detail));
            let f = entry_value(id, severity, date, title, None);
            &&& e.at("id"@) == JsonView::Str(id)
            &&& e.at("severity"@) == JsonView::Str(severity)
            &&& e.at("date"@) == JsonView::Str(date)
            &&& e.at("title"@) == JsonView::Str(title)
            &&& e.at("phenomenon"@) == JsonView::Str(detail)
            &&& f.at("phenomenon"@) == JsonView::Str(seq![])
        }),
{
    broadcast use read_of_put;

    reveal_strlit("id");
    reveal_strlit("severity");
    reveal_strlit("date");
    reveal_strlit("title");
    reveal_strlit("phenomenon");
    reveal_strlit("root_cause");
    reveal_strlit("fix");
    reveal_strlit("lesson");
    reveal_strlit("sop_update");
    assert("id"@.len() == 2 && "severity"@.len() == 8 && "date"@.len() == 4 && "title"@.len() == 5 && "phenomenon"@.len() == 10 && "root_cause"@.len() == 10 && "fix"@.len() == 3 && "lesson"@.len() == 6 && "sop_update"@.len() == 10);
    assert("phenomenon"@[0] != "root_cause"@[0]);
    assert("phenomenon"@[0] != "sop_update"@[0]);
    assert("root_cause"@[0] != "sop_update"@[0]);
}

proof fn letters_follow(a: Seq<char>, b: Seq<char>)
    requires
        forall|i: int| 0 <= i < b.len() ==> ascii_alnum(#[trigger] b[i]),
    ensures
        hyphened(a + b) == hyphened(a) + in_lowercase(b),
    decreases b.len(),
{
    let s = a + b;
    if b.len() == 0 {
        assert(s =~= a);
        assert(hyphened(a) + in_lowercase(b) =~= hyphened(a));
    } else {
        let d = b.drop_last();
        assert(s.last() == b.last());
        assert(ascii_alnum(b[b.len() - 1]));
        assert(s.drop_last() =~= a + d);
        assert forall|i: int| 0 <= i < d.len() implies ascii_alnum(#[trigger] d[i]) by {
            assert(b[i] == d[i]);
        }
        letters_follow(a, d);
        assert(in_lowercase(b) =~= in_lowercase(d).push(ascii_lower(b.last())));
        not_a_hyphen(b.last());
        assert(hyphened(s) =~= hyphened(a) + in_lowercase(b));
    }
}

proof fn not_a_hyphen(c: char)
    requires
        ascii_alnum(c),
    ensures
        ascii_lower(c) != '-',
{
}

/// Two words of a title are two words of its name, in small letters, with one hyphen between
/// them, be it a space, a slash or a colon that parts them, or several of these.
pub proof fn words_stay_apart(a: Seq<char>, sep: char, b: Seq<char>)
    requires
        a.len() > 0,
        b.len() > 0,
        forall|i: int| 0 <= i < a.len() ==> ascii_alnum(#[trigger] a[i]),
        forall|i: int| 0 <= i < b.len() ==> ascii_alnum(#[trigger] b[i]),
        sep == ' ' || sep == '/' || sep == ':' || sep == '-',
    ensures
        slug_of(a + seq![sep] + b) == in_lowercase(a) + seq!['-'] + in_lowercase(b),
        slug_of(a + seq![sep] + seq![sep] + b) == in_lowercase(a) + seq!['-'] + in_lowercase(b),
{
    reveal_strlit("-");
    assert("-"@ =~= seq!['-']);
    let e = Seq::<char>::empty();
    letters_follow(e, a);
    assert(e + a =~= a);
    assert(hyphened(e) + in_lowercase(a) =~= in_lowercase(a));
    let x = a + seq![sep];
    assert(x.drop_last() =~= a);
    assert(ascii_alnum(a[a.len() - 1]));
    not_a_hyphen(a.last());
    not_a_hyphen(a[0]);
    not_a_hyphen(b.last());
    assert(in_lowercase(a).last() == ascii_lower(a.last()));
    assert(hyphened(x) =~= in_lowercase(a) + seq!['-']);
    let y = x + seq![sep];
    assert(y.drop_last() =~= x);
    assert(hyphened(y) =~= hyphened(x));
    letters_follow(x, b);
    letters_follow(y, b);
    let r = in_lowercase(a) + seq!['-'] + in_lowercase(b);
    assert(r[0] == ascii_lower(a[0]));
    assert(r[r.len() - 1] == ascii_lower(b.last()));
    assert(!seq!['-'].contains(r[0]));
    assert(!seq!['-'].contains(r[r.len() - 1]));
}

/// An entry is named for its day and its title; where the title has neither letters nor
/// digits, for its day and its number on record.
pub proof fn entries_are_named(date: Seq<char>, title: Seq<char>, count: nat)
    ensures
        alnums(title).len() > 0 ==> entry_id(date, title, count) == date + "-"@ + slug_of(title),
        alnums(title).len() == 0 ==> entry_id(date, title, count) == date + "-P"@ + dec(count + 1),
{
    names_keep_the_letters(title);
}

} // verus!
