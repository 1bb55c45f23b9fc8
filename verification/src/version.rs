//! Versions of a project: reading, raising and recording them.
use vstd::prelude::*;
use crate::args::{names, options, plain_words, read_args, value_or};
use crate::clock::{date_text, today, valid_moment, Moment};
use crate::json::{json_parsed, json_pretty, parse, pretty, put_keeps_orderly, Json, JsonView};
use crate::num::{dec, dec_is_plain, dec_round_trip, decimal, read_u64, uint_of};
use crate::report::{say, Outcome};
use crate::text::{
    begins, cat, cat3, cat5, cat7, chars_of, contains, cut, find, find_from_is_first, find_text,
    found_behind, is_space, join, joined, lines, lines_are_unbroken, lines_of, lines_of_joined,
    maybe, occurs_at, parts_are_seen, piece_between, pieces, same, second, second_piece, slice,
    split, split_once, starts, string_of, strip_cr, texts, trim, trim_end, trim_start,
    trim_start_appends, trim_start_cuts, trimmed, trimmed_start, unbroken,
};

verus! {

// ---------------------------------------------------------------- versions

/// The part of `s` before its first hyphen or plus sign.
pub open spec fn core_part(s: Seq<char>) -> Seq<char>
    decreases s.len(),
{
    if s.len() == 0 || s[0] == '-' || s[0] == '+' {
        seq![]
    } else {
        seq![s[0]] + core_part(s.skip(1))
    }
}

/// The number that the part `i` writes.
pub open spec fn part_number(p: Seq<Seq<char>>, i: int) -> Option<nat> {
    if i < p.len() {
        uint_of(p[i], false, u64::MAX as nat)
    } else {
        None
    }
}

/// A character of what follows the numbers of a version.
pub open spec fn label_char(c: char) -> bool {
    'a' <= c <= 'z' || 'A' <= c <= 'Z' || '0' <= c <= '9' || c == '.' || c == '-'
}

/// What may follow the numbers of a version: letters, digits, dots and hyphens, one of
/// them at the least.
pub open spec fn label(s: Seq<char>) -> bool {
    s.len() > 0 && forall|i: int| 0 <= i < s.len() ==> label_char(#[trigger] s[i])
}

/// The end of a version: nothing, or a hyphen and what comes before the release, or a plus
/// sign and what names the build, or both of these.
pub open spec fn good_suffix(r: Seq<char>) -> bool {
    ||| r.len() == 0
    ||| r[0] == '+' && label(r.skip(1))
    ||| r[0] == '-' && match split_once(r.skip(1), "+"@) {
        Some((a, b)) => label(a) && label(b),
        None => label(r.skip(1)),
    }
}

/// The three numbers of a version like `1.2.3` or `1.2.3-rc.1+b5`: what stands before a
/// hyphen or plus sign has three parts, by its dots.
pub open spec fn version_of(v: Seq<char>) -> Option<(nat, nat, nat)> {
    let t = trim(v);
    let p = split(core_part(t), "."@);
    if p.len() != 3 || !good_suffix(t.skip(core_part(t).len() as int)) {
        None
    } else {
        match (part_number(p, 0), part_number(p, 1), part_number(p, 2)) {
            (Some(a), Some(b), Some(c)) => Some((a, b, c)),
            _ => None,
        }
    }
}

/// The text of a version.
pub open spec fn version_text(v: (nat, nat, nat)) -> Seq<char> {
    dec(v.0) + "."@ + dec(v.1) + "."@ + dec(v.2)
}

/// The version after a change of a kind.
pub open spec fn raised(v: (nat, nat, nat), kind: Seq<char>) -> (nat, nat, nat) {
    if kind == "breaking"@ {
        (v.0 + 1, 0, 0)
    } else if kind == "feat"@ {
        (v.0, v.1 + 1, 0)
    } else {
        (v.0, v.1, v.2 + 1)
    }
}

/// The numbers fit into 64 bits.
pub open spec fn fits(v: (nat, nat, nat)) -> bool {
    v.0 <= u64::MAX && v.1 <= u64::MAX && v.2 <= u64::MAX
}

/// The version after the change, where there is one, fits into 64 bits.
pub open spec fn can_raise(current: Seq<char>, kind: Seq<char>) -> bool {
    match version_of(current) {
        Some(v) => fits(raised(v, kind)),
        None => true,
    }
}

/// `a` is an older version than `b`.
pub open spec fn older(a: (nat, nat, nat), b: (nat, nat, nat)) -> bool {
    a.0 < b.0 || (a.0 == b.0 && (a.1 < b.1 || (a.1 == b.1 && a.2 < b.2)))
}

fn is_label(s: &str) -> (r: bool)
    ensures
        r == label(s@),
{
    let v = chars_of(s);
    let mut i: usize = 0;
    while i < v.len()
        invariant
            i <= v@.len(),
            v@ == s@,
            forall|j: int| 0 <= j < i ==> label_char(#[trigger] v@[j]),
        decreases v@.len() - i,
    {
        let c: char = v[i];
        let good = ('a' <= c && c <= 'z') || ('A' <= c && c <= 'Z') || ('0' <= c && c <= '9') || c
            == '.' || c == '-';
        if !good {
            assert(!label_char(s@[i as int]));
            return false;
        }
        i += 1;
    }
    v.len() > 0
}

fn is_good_suffix(s: &str) -> (r: bool)
    ensures
        r == good_suffix(s@),
{
    let v = chars_of(s);
    let n: usize = v.len();
    if n == 0 {
        return true;
    }
    let rest = string_of(&v, 1, n);
    assert(v@.subrange(1, n as int) =~= s@.skip(1));
    if v[0] == '+' {
        return is_label(rest.as_str());
    }
    if v[0] != '-' {
        return false;
    }
    match cut(rest.as_str(), "+") {
        Some((a, b)) => is_label(a.as_str()) && is_label(b.as_str()),
        None => is_label(rest.as_str()),
    }
}

fn core_of(s: &str) -> (r: (String, String))
    ensures
        r.0@ == core_part(s@),
        r.1@ == s@.skip(core_part(s@).len() as int),
{
    let v = chars_of(s);
    let mut i: usize = 0;
    assert(v@.skip(0) =~= v@);
    assert(v@.take(0) + core_part(v@) =~= core_part(v@));
    while i < v.len() && v[i] != '-' && v[i] != '+'
        invariant
            i <= v@.len(),
            v@ == s@,
            core_part(s@) == v@.take(i as int) + core_part(v@.skip(i as int)),
        decreases v@.len() - i,
    {
        proof {
            let rest = v@.skip(i as int);
            assert(rest.skip(1) =~= v@.skip(i + 1));
            assert(v@.take(i as int) + (seq![rest[0]] + core_part(rest.skip(1))) =~= v@.take(i + 1)
                + core_part(v@.skip(i + 1)));
        }
        i += 1;
    }
    proof {
        assert(core_part(v@.skip(i as int)) =~= seq![]);
        assert(v@.take(i as int) + seq![] =~= v@.subrange(0, i as int));
        assert(v@.subrange(i as int, v@.len() as int) =~= v@.skip(i as int));
    }
    (string_of(&v, 0, i), string_of(&v, i, v.len()))
}

/// The three numbers of a version.
pub fn regex_capture(v: &str) -> (r: Option<(u64, u64, u64)>)
    ensures
        match r {
            Some(t) => version_of(v@) == Some((t.0 as nat, t.1 as nat, t.2 as nat)),
            None => version_of(v@) is None,
        },
{
    let (core, suffix) = core_of(trimmed(v).as_str());
    let p = pieces(core.as_str(), ".");
    let ghost t = texts(p@);
    assert(t.len() == p@.len());
    if p.len() != 3 || !is_good_suffix(suffix.as_str()) {
        return None;
    }
    assert(t[0] == p@[0]@ && t[1] == p@[1]@ && t[2] == p@[2]@);
    match (read_u64(p[0].as_str()), read_u64(p[1].as_str()), read_u64(p[2].as_str())) {
        (Some(a), Some(b), Some(c)) => Some((a, b, c)),
        _ => None,
    }
}

/// The three numbers of a version.
pub fn parse_version(v: &str) -> (r: Option<(u64, u64, u64)>)
    ensures
        match r {
            Some(t) => version_of(v@) == Some((t.0 as nat, t.1 as nat, t.2 as nat)),
            None => version_of(v@) is None,
        },
{
    regex_capture(v)
}

fn text_of_version(a: u64, b: u64, c: u64) -> (r: String)
    ensures
        r@ == version_text((a as nat, b as nat, c as nat)),
{
    cat5(decimal(a).as_str(), ".", decimal(b).as_str(), ".", decimal(c).as_str())
}

/// Whether the version after the change fits into 64 bits.
pub fn bump_fits(current: &str, kind: &str) -> (r: bool)
    ensures
        r == can_raise(current@, kind@),
{
    match parse_version(current) {
        Some((a, b, c)) => if same(kind, "breaking") {
            a < u64::MAX
        } else if same(kind, "feat") {
            b < u64::MAX
        } else {
            c < u64::MAX
        },
        None => true,
    }
}

/// The new version and the old one, or that the old one cannot be read.
pub fn bump(current: &str, kind: &str) -> (r: Result<(String, String), String>)
    requires
        can_raise(current@, kind@),
    ensures
        match r {
            Ok((new, old)) => version_of(current@) matches Some(v) && new@ == version_text(
                raised(v, kind@),
            ) && old@ == version_text(v),
            Err(e) => version_of(current@) is None && e@ == "无法解析版本号: "@ + current@,
        },
        r matches Ok((new, old)) ==> {
            let (a, b, c) = version_of(current@)->0;
            &&& version_of(old@) == Some((a, b, c))
            &&& kind@ == "fix"@ ==> version_of(new@) == Some((a, b, c + 1))
            &&& kind@ == "feat"@ ==> version_of(new@) == Some((a, b + 1, 0nat))
            &&& kind@ == "breaking"@ ==> version_of(new@) == Some((a + 1, 0nat, 0nat))
        },
{
    match parse_version(current) {
        Some((a, b, c)) => {
            proof {
                kinds_differ();
                let v = (a as nat, b as nat, c as nat);
                plain_version_reads_back(v);
                plain_version_reads_back(raised(v, kind@));
            }
            let old = text_of_version(a, b, c);
            let new = if same(kind, "breaking") {
                text_of_version(a + 1, 0, 0)
            } else if same(kind, "feat") {
                text_of_version(a, b + 1, 0)
            } else {
                text_of_version(a, b, c + 1)
            };
            Ok((new, old))
        },
        None => Err(cat("无法解析版本号: ", current)),
    }
}

// ---------------------------------------------------------------- laws of versions

proof fn core_before_suffix(s: Seq<char>, r: Seq<char>)
    requires
        forall|i: int| 0 <= i < s.len() ==> #[trigger] s[i] != '-' && s[i] != '+',
        r.len() == 0 || r[0] == '-' || r[0] == '+',
    ensures
        core_part(s + r) == s,
    decreases s.len(),
{
    if s.len() > 0 {
        core_before_suffix(s.skip(1), r);
        assert((s + r).skip(1) =~= s.skip(1) + r);
        assert(seq![s[0]] + s.skip(1) =~= s);
    } else {
        assert(s + r =~= r);
        assert(core_part(r) =~= s);
    }
}

/// A text splits at the first separator where what stands before holds none.
proof fn split_at_first(a: Seq<char>, b: Seq<char>)
    requires
        forall|i: int| 0 <= i < a.len() ==> #[trigger] a[i] != '.',
    ensures
        split(a + "."@ + b, "."@) == seq![a] + split(b, "."@),
{
    reveal_strlit(".");
    let s = a + "."@ + b;
    let n = a.len() as int;
    find_from_is_first(s, "."@, 0);
    assert(s.subrange(n, n + 1) =~= "."@);
    assert(occurs_at(s, "."@, n));
    let k = find(s, "."@)->0;
    if k < a.len() {
        assert(s.subrange(k, k + 1)[0] == '.');
        assert(s[k] == a[k]);
    }
    assert(s.take(n) =~= a);
    assert(s.skip(n + 1) =~= b);
}

proof fn split_plain(a: Seq<char>)
    requires
        forall|i: int| 0 <= i < a.len() ==> #[trigger] a[i] != '.',
    ensures
        split(a, "."@) == seq![a],
{
    reveal_strlit(".");
    find_from_is_first(a, "."@, 0);
    if let Some(k) = find(a, "."@) {
        assert(a.subrange(k, k + 1)[0] == '.');
        assert(a[k] == '.');
    }
}

/// Nothing but whitespace.
pub open spec fn blank(s: Seq<char>) -> bool {
    forall|i: int| 0 <= i < s.len() ==> is_space(#[trigger] s[i])
}

proof fn trim_start_of_blank(a: Seq<char>, w: Seq<char>)
    requires
        blank(a),
        w.len() > 0,
        !is_space(w[0]),
    ensures
        trim_start(a + w) == w,
    decreases a.len(),
{
    if a.len() == 0 {
        assert(a + w =~= w);
    } else {
        assert((a + w).skip(1) =~= a.skip(1) + w);
        trim_start_of_blank(a.skip(1), w);
    }
}

proof fn trim_end_of_blank(w: Seq<char>, b: Seq<char>)
    requires
        blank(b),
        w.len() > 0,
        !is_space(w.last()),
    ensures
        trim_end(w + b) == w,
    decreases b.len(),
{
    if b.len() == 0 {
        assert(w + b =~= w);
    } else {
        let s = w + b;
        assert(s[s.len() - 1] == b[b.len() - 1]);
        assert(s.take(s.len() - 1) =~= w + b.drop_last());
        trim_end_of_blank(w, b.drop_last());
    }
}

proof fn parts_of_text(v: (nat, nat, nat))
    ensures
        split(version_text(v), "."@) == seq![dec(v.0), dec(v.1), dec(v.2)],
        forall|i: int|
            0 <= i < version_text(v).len() ==> #[trigger] version_text(v)[i] == '.' || '0'
                <= version_text(v)[i] <= '9',
        version_text(v).len() > 0,
        version_text(v)[0] != '.',
        version_text(v).last() != '.',
{
    reveal_strlit(".");
    let s = version_text(v);
    dec_is_plain(v.0);
    dec_is_plain(v.1);
    dec_is_plain(v.2);
    let (a, b, c) = (dec(v.0), dec(v.1), dec(v.2));
    assert forall|i: int| 0 <= i < s.len() implies #[trigger] s[i] == '.' || '0' <= s[i]
        <= '9' by {
        if i < a.len() {
            assert(s[i] == a[i]);
        } else if i == a.len() {
            assert(s[i] == '.');
        } else if i < a.len() + 1 + b.len() {
            assert(s[i] == b[i - a.len() - 1]);
        } else if i == a.len() + 1 + b.len() {
            assert(s[i] == '.');
        } else {
            assert(s[i] == c[i - a.len() - b.len() - 2]);
        }
    }
    assert(s[0] == a[0]);
    assert(s[s.len() - 1] == c[c.len() - 1]);
    assert(s =~= a + "."@ + (b + "."@ + c));
    split_at_first(a, b + "."@ + c);
    split_at_first(b, c);
    split_plain(c);
    assert(split(s, "."@) =~= seq![a, b, c]);
}

proof fn suffix_ends_plain(r: Seq<char>)
    requires
        good_suffix(r),
        r.len() > 0,
    ensures
        r[0] == '-' || r[0] == '+',
        label_char(r.last()),
{
    reveal_strlit("+");
    let t = r.skip(1);
    find_from_is_first(t, "+"@, 0);
    if r[0] == '+' {
        assert(label_char(t[t.len() - 1]));
    } else {
        match split_once(t, "+"@) {
            Some((a, b)) => {
                assert(label_char(b[b.len() - 1]));
                assert(b[b.len() - 1] == r.last());
            },
            None => {
                assert(label_char(t[t.len() - 1]));
            },
        }
    }
}

/// The text of a version reads back as the version, with whatever may follow its numbers,
/// and with whitespace around it.
pub proof fn version_reads_back(v: (nat, nat, nat), suffix: Seq<char>, a: Seq<char>, b: Seq<char>)
    requires
        fits(v),
        good_suffix(suffix),
        blank(a),
        blank(b),
    ensures
        version_of(a + version_text(v) + suffix + b) == Some(v),
{
    let t = version_text(v);
    let w = t + suffix;
    parts_of_text(v);
    assert(w[0] == t[0]);
    assert(!is_space(w[0]));
    if suffix.len() > 0 {
        suffix_ends_plain(suffix);
        assert(w.last() == suffix.last());
    } else {
        assert(w =~= t);
        assert(t[t.len() - 1] == t.last());
    }
    assert(!is_space(w.last()));
    assert(a + t + suffix + b =~= a + (w + b));
    assert((w + b)[0] == w[0]);
    trim_start_of_blank(a, w + b);
    trim_end_of_blank(w, b);
    assert(trim(a + t + suffix + b) == w);
    core_before_suffix(t, suffix);
    assert(w.skip(t.len() as int) =~= suffix);
    dec_round_trip(v.0, u64::MAX as nat);
    dec_round_trip(v.1, u64::MAX as nat);
    dec_round_trip(v.2, u64::MAX as nat);
}

proof fn plain_version_reads_back(v: (nat, nat, nat))
    requires
        fits(v),
    ensures
        version_of(version_text(v)) == Some(v),
{
    let t = version_text(v);
    version_reads_back(v, seq![], seq![], seq![]);
    assert(seq![] + t + seq![] + seq![] =~= t);
}

proof fn kinds_differ()
    ensures
        "fix"@ != "feat"@,
        "fix"@ != "breaking"@,
        "feat"@ != "breaking"@,
{
    reveal_strlit("fix");
    reveal_strlit("feat");
    reveal_strlit("breaking");
    assert("fix"@.len() == 3 && "feat"@.len() == 4 && "breaking"@.len() == 8);
}

/// A fix raises the third number by one and keeps the others, a feature raises the second by
/// one and sets the third to zero, a breaking change raises the first by one and sets the
/// others to zero; all numbers are plain numbers, none carries over into another. So it
/// reads in the text of the new version, whatever followed the numbers of the old one.
pub proof fn each_kind_raises_its_number(
    a: nat,
    b: nat,
    c: nat,
    suffix: Seq<char>,
    before: Seq<char>,
    behind: Seq<char>,
)
    requires
        a < u64::MAX,
        b < u64::MAX,
        c < u64::MAX,
        good_suffix(suffix),
        blank(before),
        blank(behind),
    ensures
        ({
            let current = before + (dec(a) + "."@ + dec(b) + "."@ + dec(c)) + suffix + behind;
            &&& version_of(current) == Some((a, b, c))
            &&& can_raise(current, "fix"@) && can_raise(current, "feat"@) && can_raise(
                current,
                "breaking"@,
            )
            &&& version_text(raised((a, b, c), "fix"@)) == dec(a) + "."@ + dec(b) + "."@ + dec(
                c + 1,
            )
            &&& version_text(raised((a, b, c), "feat"@)) == dec(a) + "."@ + dec(b + 1) + "."@
                + dec(0)
            &&& version_text(raised((a, b, c), "breaking"@)) == dec(a + 1) + "."@ + dec(0) + "."@
                + dec(0)
            &&& version_of(version_text(raised((a, b, c), "fix"@))) == Some((a, b, c + 1))
            &&& version_of(version_text(raised((a, b, c), "feat"@))) == Some((a, b + 1, 0nat))
            &&& version_of(version_text(raised((a, b, c), "breaking"@))) == Some(
                (a + 1, 0nat, 0nat),
            )
        }),
{
    kinds_differ();
    version_reads_back((a, b, c), suffix, before, behind);
    plain_version_reads_back((a, b, c + 1));
    plain_version_reads_back((a, b + 1, 0));
    plain_version_reads_back((a + 1, 0, 0));
}

/// A raised version is newer than the one before, and its text reads back as it.
pub proof fn raised_is_newer(current: Seq<char>, kind: Seq<char>)
    requires
        version_of(current) is Some,
        can_raise(current, kind),
    ensures
        ({
            let v = version_of(current)->0;
            &&& older(v, raised(v, kind))
            &&& version_of(version_text(raised(v, kind))) == Some(raised(v, kind))
        }),
{
    let v = version_of(current)->0;
    let t = version_text(raised(v, kind));
    version_reads_back(raised(v, kind), seq![], seq![], seq![]);
    assert(seq![] + t + seq![] + seq![] =~= t);
}

// ---------------------------------------------------------------- Cargo.toml

/// A line that gives a version.
pub open spec fn version_line(l: Seq<char>) -> bool {
    starts(trim_start(l), "version = "@)
}

/// The whitespace that a line begins with.
pub open spec fn indent(l: Seq<char>) -> Seq<char> {
    l.take(l.len() - trim_start(l).len())
}

/// The line that gives the version `ver`, indented as `l` is.
pub open spec fn new_version_line(l: Seq<char>, ver: Seq<char>) -> Seq<char> {
    indent(l) + "version = \""@ + ver + "\""@
}

/// The lines with the version `ver` in place of the first one that is given.
pub open spec fn bumped_lines(ls: Seq<Seq<char>>, ver: Seq<char>) -> Seq<Seq<char>>
    decreases ls.len(),
{
    if ls.len() == 0 {
        seq![]
    } else if version_line(ls[0]) {
        seq![new_version_line(ls[0], ver)] + ls.skip(1)
    } else {
        seq![ls[0]] + bumped_lines(ls.skip(1), ver)
    }
}

/// Some line gives a version.
pub open spec fn gives_version(ls: Seq<Seq<char>>) -> bool {
    exists|i: int| 0 <= i < ls.len() && version_line(#[trigger] ls[i])
}

/// The version between quotes on the first line that gives one.
pub open spec fn given_version(ls: Seq<Seq<char>>) -> Seq<char>
    decreases ls.len(),
{
    if ls.len() == 0 {
        "?"@
    } else if version_line(ls[0]) {
        match second_piece(ls[0], "\""@) {
            Some(v) => v,
            None => "?"@,
        }
    } else {
        given_version(ls.skip(1))
    }
}

/// The text of a `Cargo.toml` with the version `ver`.
pub open spec fn bumped_cargo(raw: Seq<char>, ver: Seq<char>) -> Seq<char> {
    join(bumped_lines(lines(raw), ver), "\n"@) + "\n"@
}

fn is_version_line(l: &str) -> (r: bool)
    ensures
        r == version_line(l@),
{
    begins(trimmed_start(l).as_str(), "version = ")
}

/// The text of a `Cargo.toml` with the version `ver`, or that it gives none.
pub fn bump_cargo(raw: &str, ver: &str) -> (r: Result<String, String>)
    ensures
        match r {
            Ok(t) => gives_version(lines(raw@)) && t@ == bumped_cargo(raw@, ver@),
            Err(e) => !gives_version(lines(raw@)) && e@ == "Cargo.toml 未找到 version 字段"@,
        },
{
    let mut ls = lines_of(raw);
    let ghost t = lines(raw@);
    let mut i: usize = 0;
    assert(t.skip(0) =~= t);
    assert(t.take(0) + bumped_lines(t, ver@) =~= bumped_lines(t, ver@));
    while i < ls.len()
        invariant
            i <= ls@.len(),
            t == texts(ls@),
            t == lines(raw@),
            bumped_lines(t, ver@) == t.take(i as int) + bumped_lines(t.skip(i as int), ver@),
            forall|j: int| 0 <= j < i ==> !version_line(#[trigger] t[j]),
        decreases ls@.len() - i,
    {
        let ghost rest = t.skip(i as int);
        assert(rest[0] == t[i as int]);
        assert(t[i as int] == ls@[i as int]@);
        assert(rest.skip(1) =~= t.skip(i + 1));
        if is_version_line(ls[i].as_str()) {
            let v = chars_of(ls[i].as_str());
            let k: usize = chars_of(trimmed_start(ls[i].as_str()).as_str()).len();
            proof {
                trim_start_cuts(t[i as int]);
            }
            let ind = string_of(&v, 0, v.len() - k);
            let mut line = cat3(ind.as_str(), "version = \"", ver);
            line.append("\"");
            assert(line@ == new_version_line(t[i as int], ver@)) by {
                assert(v@.subrange(0, v@.len() - k) =~= indent(t[i as int]));
            }
            let ghost nl = line@;
            ls.remove(i);
            ls.insert(i, line);
            proof {
                assert(texts(ls@) =~= t.take(i as int) + (seq![nl] + rest.skip(1)));
            }
            let mut out = joined(&ls, "\n");
            out.append("\n");
            return Ok(out);
        }
        assert(t.take(i as int) + (seq![rest[0]] + bumped_lines(rest.skip(1), ver@)) =~= t.take(
            i + 1,
        ) + bumped_lines(t.skip(i + 1), ver@));
        i += 1;
    }
    Err("Cargo.toml 未找到 version 字段".to_owned())
}

/// The version that a `Cargo.toml` gives.
pub fn cargo_version(raw: &str) -> (r: String)
    ensures
        r@ == given_version(lines(raw@)),
{
    let ls = lines_of(raw);
    let ghost t = lines(raw@);
    let mut i: usize = 0;
    assert(t.skip(0) =~= t);
    while i < ls.len()
        invariant
            i <= ls@.len(),
            t == texts(ls@),
            t == lines(raw@),
            given_version(t) == given_version(t.skip(i as int)),
        decreases ls@.len() - i,
    {
        assert(t.skip(i as int)[0] == ls@[i as int]@);
        if is_version_line(ls[i].as_str()) {
            return match second(ls[i].as_str(), "\"") {
                Some(v) => v,
                None => "?".to_owned(),
            };
        }
        assert(t.skip(i as int).skip(1) =~= t.skip(i + 1));
        i += 1;
    }
    "?".to_owned()
}

proof fn new_line_quotes_version(l: Seq<char>, ver: Seq<char>)
    requires
        !ver.contains('"'),
    ensures
        second_piece(new_version_line(l, ver), "\""@) == Some(ver),
{
    reveal_strlit("version = \"");
    reveal_strlit("\"");
    let ind = indent(l);
    let q = seq!['"'];
    assert("\""@ =~= q);
    trim_start_cuts(l);
    let head = ind + "version = \""@.take(10);
    assert forall|i: int| 0 <= i < head.len() implies head[i] != '"' by {
        if i < ind.len() {
            assert(head[i] == l[i]);
            assert(is_space(l[i]));
        } else {
            assert(head[i] == "version = \""@[i - ind.len()]);
        }
    }
    assert(new_version_line(l, ver) =~= head + q + (ver + q));
    found_behind(head, '"', ver + q);
    assert(ver + q =~= ver + q + seq![]);
    found_behind(ver, '"', seq![]);
}

proof fn new_line_gives_version(l: Seq<char>, ver: Seq<char>)
    ensures
        version_line(new_version_line(l, ver)),
        strip_cr(new_version_line(l, ver)) == new_version_line(l, ver),
{
    reveal_strlit("version = ");
    reveal_strlit("version = \"");
    reveal_strlit("\"");
    let ind = indent(l);
    let nl = new_version_line(l, ver);
    let tail = "version = \""@ + ver + "\""@;
    assert(nl =~= ind + tail);
    trim_start_cuts(l);
    trim_start_cuts(ind);
    let n = trim_start(ind).len();
    if n > 0 {
        assert(trim_start(ind)[0] == ind[ind.len() - n]);
        assert(ind[ind.len() - n] == l[ind.len() - n]);
        assert(is_space(l[ind.len() - n]));
    }
    assert(tail[0] == 'v');
    assert(trim_start(tail) == tail);
    trim_start_blank(ind, tail);
    assert(tail.subrange(0, 10) =~= "version = "@);
    assert(nl[nl.len() - 1] == '"');
}

proof fn trim_start_blank(a: Seq<char>, b: Seq<char>)
    requires
        trim_start(a).len() == 0,
    ensures
        trim_start(a + b) == trim_start(b),
    decreases a.len(),
{
    if a.len() == 0 {
        assert(a + b =~= b);
    } else {
        assert((a + b).skip(1) =~= a.skip(1) + b);
        trim_start_blank(a.skip(1), b);
    }
}

proof fn other_line_stays_other(l: Seq<char>)
    requires
        !version_line(l),
    ensures
        !version_line(strip_cr(l)),
{
    reveal_strlit("version = ");
    let c = strip_cr(l);
    if version_line(c) && c != l {
        let cr = seq!['\r'];
        assert(l =~= c + cr);
        trim_start_appends(c, cr);
        let t = trim_start(c);
        assert((t + cr).subrange(0, 10) =~= t.subrange(0, 10));
    }
}

proof fn bumped_lines_give_version(ls: Seq<Seq<char>>, ver: Seq<char>)
    requires
        gives_version(ls),
        !ver.contains('"'),
    ensures
        given_version(bumped_lines(ls, ver).map_values(|l: Seq<char>| strip_cr(l))) == ver,
    decreases ls.len(),
{
    let b = bumped_lines(ls, ver);
    let m = b.map_values(|l: Seq<char>| strip_cr(l));
    if version_line(ls[0]) {
        new_line_gives_version(ls[0], ver);
        new_line_quotes_version(ls[0], ver);
        assert(m[0] == strip_cr(b[0]));
    } else {
        other_line_stays_other(ls[0]);
        let i = choose|i: int| 0 <= i < ls.len() && version_line(#[trigger] ls[i]);
        assert(ls.skip(1)[i - 1] == ls[i]);
        bumped_lines_give_version(ls.skip(1), ver);
        assert(m[0] == strip_cr(b[0]));
        assert(m.skip(1) =~= bumped_lines(ls.skip(1), ver).map_values(|l: Seq<char>| strip_cr(l)));
    }
}

proof fn bumped_lines_unbroken(ls: Seq<Seq<char>>, ver: Seq<char>)
    requires
        unbroken(ls),
        !ver.contains('\n'),
    ensures
        unbroken(bumped_lines(ls, ver)),
    decreases ls.len(),
{
    if ls.len() > 0 {
        let b = bumped_lines(ls, ver);
        let r = ls.skip(1);
        assert(unbroken(r)) by {
            assert forall|i: int| 0 <= i < r.len() implies !(#[trigger] r[i]).contains('\n') by {
                assert(!ls[i + 1].contains('\n'));
            }
        }
        assert(!ls[0].contains('\n'));
        if version_line(ls[0]) {
            reveal_strlit("version = \"");
            reveal_strlit("\"");
            let nl = new_version_line(ls[0], ver);
            let ind = indent(ls[0]);
            trim_start_cuts(ls[0]);
            assert forall|i: int| 0 <= i < nl.len() implies nl[i] != '\n' by {
                if i < ind.len() {
                    assert(nl[i] == ls[0][i]);
                } else if i < ind.len() + 11 {
                    assert(nl[i] == "version = \""@[i - ind.len()]);
                } else if i < ind.len() + 11 + ver.len() {
                    assert(nl[i] == ver[i - ind.len() - 11]);
                } else {
                    assert(nl[i] == '"');
                }
            }
            assert forall|i: int| 0 <= i < b.len() implies !(#[trigger] b[i]).contains('\n') by {
                if i > 0 {
                    assert(b[i] == r[i - 1]);
                }
            }
        } else {
            bumped_lines_unbroken(r, ver);
            let c = bumped_lines(r, ver);
            assert forall|i: int| 0 <= i < b.len() implies !(#[trigger] b[i]).contains('\n') by {
                if i > 0 {
                    assert(b[i] == c[i - 1]);
                }
            }
        }
    }
}

/// The version that was put into a `Cargo.toml` is the one that it gives. A version
/// that holds a quote or a line feed is cut off there.
pub proof fn cargo_version_reads_back(raw: Seq<char>, ver: Seq<char>)
    requires
        gives_version(lines(raw)),
        !ver.contains('"'),
        !ver.contains('\n'),
    ensures
        given_version(lines(bumped_cargo(raw, ver))) == ver,
{
    reveal_strlit("\n");
    assert("\n"@ =~= seq!['\n']);
    let b = bumped_lines(lines(raw), ver);
    lines_are_unbroken(raw);
    bumped_lines_unbroken(lines(raw), ver);
    bumped_lines_give_version(lines(raw), ver);
    assert(b.len() > 0);
    lines_of_joined(b);
}

// ---------------------------------------------------------------- package.json

/// The version that a `package.json` gives.
pub open spec fn package_version(pkg: JsonView) -> Seq<char> {
    pkg.text_or("version"@, "?"@)
}

/// A value into which a version can be put.
pub open spec fn takes_version(pkg: JsonView) -> bool {
    pkg is Obj || pkg is Null
}

/// A `package.json` with the version `ver`.
pub open spec fn with_version(pkg: JsonView, ver: Seq<char>) -> JsonView {
    pkg.put("version"@, JsonView::Str(ver))
}

/// The text of a `package.json` with the version `ver`. Where the value holds no
/// fractions, the text reads as the value with that version.
pub fn bump_package(pkg: Json, ver: &str) -> (r: String)
    requires
        takes_version(pkg@),
        pkg@.orderly(),
    ensures
        r@ == json_pretty(with_version(pkg@, ver@)).push('\n'),
        pkg@.simple(crate::json::max_depth()) ==> crate::json::reads_as(
            r@,
            with_version(pkg@, ver@),
        ),
{
    broadcast use put_keeps_orderly;
    broadcast use crate::json::put_keeps_simple;

    let ghost p = pkg@;
    let v = pkg.with("version", Json::text(ver));
    assert(v@ == with_version(p, ver@));
    let mut s = pretty(&v);
    s.push('\n');
    s
}

/// The text of a `package.json` with the version `ver`; nothing where the text holds
/// a value that takes none.
pub fn bump_package_text(raw: &str, ver: &str) -> (r: Result<Option<String>, String>)
    ensures
        match json_parsed(raw@) {
            Ok(v) => match r {
                Ok(Some(t)) => takes_version(v) && t@ == json_pretty(with_version(v, ver@)).push(
                    '\n',
                ) && (v.simple(crate::json::max_depth()) ==> crate::json::reads_as(
                    t@,
                    with_version(v, ver@),
                )),
                Ok(None) => !takes_version(v),
                Err(_) => false,
            },
            Err(e) => r matches Err(m) && m@ == "解析 package.json: "@ + e,
        },
{
    match parse(raw) {
        Ok(v) => match v {
            Json::Obj(_) => Ok(Some(bump_package(v, ver))),
            Json::Null => Ok(Some(bump_package(v, ver))),
            _ => Ok(None),
        },
        Err(e) => Err(cat("解析 package.json: ", e.as_str())),
    }
}

/// The version that the text of a `package.json` gives.
pub fn package_text_version(raw: &str) -> (r: String)
    ensures
        r@ == match json_parsed(raw@) {
            Ok(v) => package_version(v),
            Err(_) => "?"@,
        },
{
    match parse(raw) {
        Ok(v) => v.text_or("version", "?"),
        Err(_) => "?".to_owned(),
    }
}

/// The version that was put into a `package.json` is the one that it gives.
pub proof fn package_version_reads_back(pkg: JsonView, ver: Seq<char>)
    ensures
        package_version(with_version(pkg, ver)) == ver,
{
    crate::json::put_then_get(pkg, "version"@, JsonView::Str(ver), "version"@);
}

// ---------------------------------------------------------------- the project

/// The file that gives the version of a project: its text, or why it could not be
/// read.
pub enum Project {
    Node(Result<String, String>),
    Rust(Result<String, String>),
    Unknown,
}

/// A text that was read, or the empty text.
pub open spec fn text_read(r: Result<String, String>) -> Seq<char> {
    match r {
        Ok(t) => t@,
        Err(_) => seq![],
    }
}

/// The version of a project.
pub open spec fn project_version(p: Project) -> Option<Seq<char>> {
    match p {
        Project::Node(r) => Some(
            match json_parsed(text_read(r)) {
                Ok(v) => package_version(v),
                Err(_) => "?"@,
            },
        ),
        Project::Rust(r) => Some(given_version(lines(text_read(r)))),
        Project::Unknown => None,
    }
}

/// The version of a project, if it has a file that gives one.
pub fn current_version(p: &Project) -> (r: Option<String>)
    ensures
        match r {
            Some(v) => project_version(*p) == Some(v@),
            None => project_version(*p) is None,
        },
{
    proof {
        reveal_strlit("");
        assert(""@ =~= seq![]);
    }
    match p {
        Project::Node(Ok(t)) => Some(package_text_version(t.as_str())),
        Project::Node(Err(_)) => Some(package_text_version("")),
        Project::Rust(Ok(t)) => Some(cargo_version(t.as_str())),
        Project::Rust(Err(_)) => Some(cargo_version("")),
        Project::Unknown => None,
    }
}

/// What becomes of the file that gives the version of a project.
pub open spec fn bumped_project(p: Project, ver: Seq<char>) -> Result<Option<Seq<char>>, Seq<char>> {
    match p {
        Project::Node(Ok(t)) => match json_parsed(t@) {
            Ok(v) => if takes_version(v) {
                Ok(Some(json_pretty(with_version(v, ver)).push('\n')))
            } else {
                Ok(None)
            },
            Err(e) => Err("解析 package.json: "@ + e),
        },
        Project::Node(Err(e)) => Err("读 package.json: "@ + e@),
        Project::Rust(Ok(t)) => if gives_version(lines(t@)) {
            Ok(Some(bumped_cargo(t@, ver)))
        } else {
            Err("Cargo.toml 未找到 version 字段"@)
        },
        Project::Rust(Err(e)) => Err("读 Cargo.toml: "@ + e@),
        Project::Unknown => Err("未找到 package.json 或 Cargo.toml（不支持的项目类型）"@),
    }
}

/// The new text of the file that gives the version of a project; nothing where a
/// `package.json` holds a value that takes no version.
pub fn bump_project(p: &Project, ver: &str) -> (r: Result<Option<String>, String>)
    ensures
        match r {
            Ok(Some(t)) => bumped_project(*p, ver@) == Ok::<Option<Seq<char>>, Seq<char>>(
                Some(t@),
            ),
            Ok(None) => bumped_project(*p, ver@) == Ok::<Option<Seq<char>>, Seq<char>>(None),
            Err(e) => bumped_project(*p, ver@) == Err::<Option<Seq<char>>, Seq<char>>(e@),
        },
{
    match p {
        Project::Node(Ok(t)) => bump_package_text(t.as_str(), ver),
        Project::Node(Err(e)) => Err(cat("读 package.json: ", e.as_str())),
        Project::Rust(Ok(t)) => match bump_cargo(t.as_str(), ver) {
            Ok(x) => Ok(Some(x)),
            Err(e) => Err(e),
        },
        Project::Rust(Err(e)) => Err(cat("读 Cargo.toml: ", e.as_str())),
        Project::Unknown => Err("未找到 package.json 或 Cargo.toml（不支持的项目类型）".to_owned()),
    }
}

// ---------------------------------------------------------------- the changelog

/// What a kind of change is called.
pub open spec fn kind_label(kind: Seq<char>) -> Seq<char> {
    if kind == "breaking"@ {
        "破坏性变更"@
    } else if kind == "feat"@ {
        "新功能"@
    } else {
        "修复"@
    }
}

/// How a section of the changelog begins.
pub open spec fn section_mark() -> Seq<char> {
    "\n## ["@
}

/// The section of a version.
pub open spec fn section(
    ver: Seq<char>,
    date: Seq<char>,
    kind: Seq<char>,
    desc: Seq<char>,
) -> Seq<char> {
    section_mark() + ver + "] - "@ + date + "\n\n### "@ + kind_label(kind) + "\n- "@ + desc + "\n"@
}

/// A section of a changelog begins at a place: at the beginning of a line.
pub open spec fn section_at(content: Seq<char>, i: int) -> bool {
    occurs_at(content, "## ["@, i) && (i == 0 || content[i - 1] == '\n')
}

/// Where a new section goes: before the first one, else at the end.
pub open spec fn section_place(content: Seq<char>) -> int {
    if starts(content, "## ["@) {
        0
    } else {
        match find(content, section_mark()) {
            Some(i) => i,
            None => content.len() as int,
        }
    }
}

/// The changelog with a new section; a changelog that did not exist is begun.
pub open spec fn updated_changelog(content: Option<Seq<char>>, entry: Seq<char>) -> Seq<char> {
    match content {
        Some(c) => c.take(section_place(c)) + entry + c.skip(section_place(c)),
        None => "# Changelog\n"@ + entry,
    }
}

fn changelog_section(ver: &str, date: &str, kind: &str, desc: &str) -> (r: String)
    ensures
        r@ == section(ver@, date@, kind@, desc@),
{
    let label = if same(kind, "breaking") {
        "破坏性变更"
    } else if same(kind, "feat") {
        "新功能"
    } else {
        "修复"
    };
    let mut s = cat7("\n## [", ver, "] - ", date, "\n\n### ", label, "\n- ");
    s.append(desc);
    s.append("\n");
    s
}

/// The changelog with the section of a version that came on a date.
pub fn changelog_with(
    content: &Option<String>,
    ver: &str,
    kind: &str,
    desc: &str,
    date: &str,
) -> (r: String)
    ensures
        r@ == updated_changelog(maybe(*content), section(ver@, date@, kind@, desc@)),
{
    let entry = changelog_section(ver, date, kind, desc);
    match content {
        Some(c) => {
            let n: usize = chars_of(c.as_str()).len();
            let k: usize = if begins(c.as_str(), "## [") {
                0
            } else {
                match find_text(c.as_str(), "\n## [") {
                    Some(k) => k,
                    None => n,
                }
            };
            let a = slice(c.as_str(), 0, k);
            let b = slice(c.as_str(), k, n);
            assert(c@.subrange(0, k as int) =~= c@.take(k as int));
            assert(c@.subrange(k as int, n as int) =~= c@.skip(k as int));
            cat3(a.as_str(), entry.as_str(), b.as_str())
        },
        None => cat("# Changelog\n", entry.as_str()),
    }
}

/// The changelog with the section of a version of today.
pub fn update_changelog(content: &Option<String>, ver: &str, kind: &str, desc: &str) -> (r: String)
    ensures
        exists|t: Moment| #[trigger]
            valid_moment(t) && r@ == updated_changelog(
                maybe(*content),
                section(ver@, date_text(t), kind@, desc@),
            ),
{
    let date = today();
    changelog_with(content, ver, kind, desc, date.as_str())
}

/// The newest section stands on top: it is the first one that a reader of the
/// changelog finds, and all that stood in the changelog stands around it.
pub proof fn newest_on_top(
    c: Seq<char>,
    ver: Seq<char>,
    date: Seq<char>,
    kind: Seq<char>,
    desc: Seq<char>,
)
    ensures
        ({
            let e = section(ver, date, kind, desc);
            let new = updated_changelog(Some(c), e);
            let i = section_place(c);
            &&& 0 <= i <= c.len()
            &&& section_at(new, i + 1)
            &&& forall|k: int| k <= i ==> !#[trigger] section_at(new, k)
            &&& occurs_at(new, e, i)
            &&& new.take(i) + new.skip(i + e.len()) == c
        }),
{
    reveal_strlit("\n## [");
    reveal_strlit("## [");
    let h = "## ["@;
    let m = section_mark();
    let e = section(ver, date, kind, desc);
    let new = updated_changelog(Some(c), e);
    let i = section_place(c);
    find_from_is_first(c, m, 0);
    assert(e.subrange(0, 5) =~= m);
    assert(e.len() >= 5);
    assert(new.subrange(i, i + e.len()) =~= e);
    assert(new.subrange(i + 1, i + 5) =~= e.subrange(0, 5).subrange(1, 5));
    assert(m.subrange(1, 5) =~= h);
    assert(new[i] == e[0] && e[0] == m[0]);
    assert forall|k: int| k <= i implies !#[trigger] section_at(new, k) by {
        if section_at(new, k) {
            let at = new.subrange(k, k + 4);
            assert(at == h);
            if k == i {
                assert(at[0] == new[i]);
            } else if i < k + 4 {
                assert(at[i - k] == new[i]);
            } else {
                assert(c.subrange(k, k + 4) =~= at);
                if k == 0 {
                    assert(c.take(4) =~= h);
                    assert(starts(c, h));
                } else {
                    assert(c[k - 1] == new[k - 1]);
                    assert(c[k] == at[0] && c[k + 1] == at[1] && c[k + 2] == at[2] && c[k + 3]
                        == at[3]);
                    assert(c.subrange(k - 1, k + 4) =~= m);
                    assert(occurs_at(c, m, k - 1));
                }
            }
        }
    }
    assert(new.take(i) =~= c.take(i));
    assert(new.skip(i + e.len()) =~= c.skip(i));
    assert(c.take(i) + c.skip(i) =~= c);
}

// ---------------------------------------------------------------- the command

/// The arguments of the command.
pub struct VersionArgs {
    pub kind: String,
    pub desc: String,
    pub repo: String,
    pub dry_run: bool,
}

/// The options of the command that take a value.
pub open spec fn version_valued() -> Seq<Seq<char>> {
    seq!["--type"@, "--desc"@, "--repo"@]
}

/// Reads the arguments.
pub fn version_args(args: &[String]) -> (r: VersionArgs)
    ensures
        ({
            let o = options(texts(args@), version_valued());
            &&& r.kind@ == value_or(o, "--type"@, "fix"@)
            &&& r.desc@ == value_or(o, "--desc"@, seq![])
            &&& r.repo@ == value_or(o, "--repo"@, "."@)
            &&& r.dry_run == plain_words(texts(args@), version_valued()).contains("--dry-run"@)
        }),
{
    let valued = ["--type", "--desc", "--repo"];
    let a = read_args(args, &valued);
    assert(names(valued@) =~= version_valued());
    proof {
        reveal_strlit("");
        assert(""@ =~= seq![]);
    }
    VersionArgs {
        kind: a.value_or("--type", "fix"),
        desc: a.value_or("--desc", ""),
        repo: a.value_or("--repo", "."),
        dry_run: a.has("--dry-run"),
    }
}

/// A kind of change that there is.
pub open spec fn known_kind(kind: Seq<char>) -> bool {
    kind == "fix"@ || kind == "feat"@ || kind == "breaking"@
}

/// How the command is called.
pub open spec fn version_usage() -> Seq<Seq<char>> {
    seq![
        "用法: dsh-tools version [--type fix|feat|breaking] [--desc '变更描述'] [--repo <路径>] [--dry-run]"@,
        "  --type   变更类型: fix(补丁) / feat(新功能) / breaking(破坏性)   [默认 fix]"@,
        "  --desc   变更描述（写入 commit + CHANGELOG）                     [必填]"@,
        "  --repo   目标仓库路径（默认当前目录）"@,
        "  --dry-run 只预览不执行"@,
    ]
}

/// What is wrong with the arguments: a missing description, or a kind of change that
/// there is not.
pub fn version_refusal(a: &VersionArgs) -> (r: Option<Outcome>)
    ensures
        match r {
            Some(o) => o.code == 2 && texts(o.lines@) == if a.desc@.len() == 0 {
                version_usage()
            } else {
                seq!["错误: --type 必须是 fix/feat/breaking"@]
            } && (a.desc@.len() == 0 || !known_kind(a.kind@)),
            None => a.desc@.len() > 0 && known_kind(a.kind@),
        },
{
    let mut out: Vec<String> = Vec::new();
    assert(texts(out@) =~= seq![]);
    if a.desc.as_str().is_empty() {
        say(
            &mut out,
            "用法: dsh-tools version [--type fix|feat|breaking] [--desc '变更描述'] [--repo <路径>] [--dry-run]",
        );
        say(&mut out, "  --type   变更类型: fix(补丁) / feat(新功能) / breaking(破坏性)   [默认 fix]");
        say(&mut out, "  --desc   变更描述（写入 commit + CHANGELOG）                     [必填]");
        say(&mut out, "  --repo   目标仓库路径（默认当前目录）");
        say(&mut out, "  --dry-run 只预览不执行");
        assert(texts(out@) =~= version_usage());
        return Some(Outcome { lines: out, code: 2 });
    }
    let k = a.kind.as_str();
    if !same(k, "fix") && !same(k, "feat") && !same(k, "breaking") {
        say(&mut out, "错误: --type 必须是 fix/feat/breaking");
        assert(texts(out@) =~= seq!["错误: --type 必须是 fix/feat/breaking"@]);
        return Some(Outcome { lines: out, code: 2 });
    }
    None
}

/// What the command is about to do.
pub enum Plan {
    /// It ends here.
    Stop(Outcome),
    /// The new version would not fit into 64 bits.
    TooLarge,
    /// It goes on to the new version.
    Raise { lines: Vec<String>, version: String },
}

/// The first lines that the command prints.
pub open spec fn plan_lines(
    repo: Seq<char>,
    kind: Seq<char>,
    v: (nat, nat, nat),
) -> Seq<Seq<char>> {
    seq![
        "═══ dsh-tools version ═══"@,
        "  仓库: "@ + repo,
        "  类型: "@ + kind + " | 版本: "@ + version_text(v) + " → "@ + version_text(raised(v, kind)),
    ]
}

/// Decides what the command does with a project whose version reads `current`.
pub fn plan_from(a: &VersionArgs, current: &Option<String>) -> (r: Plan)
    ensures
        match current {
            None => r matches Plan::Stop(o) && o.code == 1 && texts(o.lines@) == seq![
                "错误: 未找到 package.json 或 Cargo.toml"@,
            ],
            Some(c) => match version_of(c@) {
                None => r matches Plan::Stop(o) && o.code == 1 && texts(o.lines@) == seq![
                    "错误: "@ + ("无法解析版本号: "@ + c@),
                ],
                Some(v) => if !can_raise(c@, a.kind@) {
                    r is TooLarge
                } else if a.dry_run {
                    r matches Plan::Stop(o) && o.code == 0 && texts(o.lines@) == plan_lines(
                        a.repo@,
                        a.kind@,
                        v,
                    ).push("  [dry-run] 预览完成，未执行任何变更"@)
                } else {
                    r matches Plan::Raise { lines, version } && texts(lines@) == plan_lines(
                        a.repo@,
                        a.kind@,
                        v,
                    ) && version@ == version_text(raised(v, a.kind@))
                },
            },
        },
{
    let mut out: Vec<String> = Vec::new();
    assert(texts(out@) =~= seq![]);
    match current {
        None => {
            say(&mut out, "错误: 未找到 package.json 或 Cargo.toml");
            assert(texts(out@) =~= seq!["错误: 未找到 package.json 或 Cargo.toml"@]);
            Plan::Stop(Outcome { lines: out, code: 1 })
        },
        Some(c) => {
            if !bump_fits(c.as_str(), a.kind.as_str()) {
                return Plan::TooLarge;
            }
            match bump(c.as_str(), a.kind.as_str()) {
                Ok((new, old)) => {
                    say(&mut out, "═══ dsh-tools version ═══");
                    say(&mut out, cat("  仓库: ", a.repo.as_str()).as_str());
                    let mut s = cat5(
                        "  类型: ",
                        a.kind.as_str(),
                        " | 版本: ",
                        old.as_str(),
                        " → ",
                    );
                    s.append(new.as_str());
                    say(&mut out, s.as_str());
                    assert(texts(out@) =~= plan_lines(a.repo@, a.kind@, version_of(c@)->0));
                    if a.dry_run {
                        say(&mut out, "  [dry-run] 预览完成，未执行任何变更");
                        Plan::Stop(Outcome { lines: out, code: 0 })
                    } else {
                        Plan::Raise { lines: out, version: new }
                    }
                },
                Err(e) => {
                    say(&mut out, cat("错误: ", e.as_str()).as_str());
                    assert(texts(out@) =~= seq!["错误: "@ + ("无法解析版本号: "@ + c@)]);
                    Plan::Stop(Outcome { lines: out, code: 1 })
                },
            }
        },
    }
}

/// The message of the commit.
pub open spec fn commit_text(ver: Seq<char>, desc: Seq<char>) -> Seq<char> {
    "v"@ + ver + ": "@ + desc
}

/// The message of the commit.
pub fn commit_message(ver: &str, desc: &str) -> (r: String)
    ensures
        r@ == commit_text(ver@, desc@),
{
    let mut s = cat3("v", ver, ": ");
    s.append(desc);
    s
}

/// The name of the tag.
pub fn tag_name(ver: &str) -> (r: String)
    ensures
        r@ == "v"@ + ver@,
{
    cat("v", ver)
}

// ---------------------------------------------------------------- one line is changed

proof fn blank_before(gap: Seq<char>, s: Seq<char>)
    requires
        crate::text::blank(gap),
        s.len() > 0,
        !crate::text::is_space(s[0]),
    ensures
        trim_start(gap + s) == s,
    decreases gap.len(),
{
    let t = gap + s;
    if gap.len() == 0 {
        assert(t =~= s);
    } else {
        assert(t[0] == gap[0]);
        assert(t.skip(1) =~= gap.skip(1) + s);
        blank_before(gap.skip(1), s);
    }
}

/// Of a `Cargo.toml` the first line that gives a version is changed, indented as it was, and
/// every other line stays as it is and where it is.
pub proof fn only_the_version_line_changes(
    before: Seq<Seq<char>>,
    gap: Seq<char>,
    rest: Seq<char>,
    behind: Seq<Seq<char>>,
    ver: Seq<char>,
)
    requires
        crate::text::blank(gap),
        forall|i: int| 0 <= i < before.len() ==> !version_line(#[trigger] before[i]),
    ensures
        bumped_lines(before + seq![gap + ("version = "@ + rest)] + behind, ver) == before + seq![
            gap + "version = \""@ + ver + "\""@,
        ] + behind,
    decreases before.len(),
{
    reveal_strlit("version = ");
    let v = "version = "@ + rest;
    let l = gap + v;
    blank_before(gap, v);
    parts_are_seen(seq![], "version = "@, rest);
    assert(version_line(l));
    assert(indent(l) =~= gap);
    let ls = before + seq![l] + behind;
    let new = seq![gap + "version = \""@ + ver + "\""@];
    if before.len() == 0 {
        assert(ls[0] == l);
        assert(ls.skip(1) =~= behind);
        assert(bumped_lines(ls, ver) =~= before + new + behind);
    } else {
        assert(ls[0] == before[0]);
        assert(!version_line(before[0]));
        assert(ls.skip(1) =~= before.skip(1) + seq![l] + behind);
        only_the_version_line_changes(before.skip(1), gap, rest, behind, ver);
        assert(bumped_lines(ls, ver) =~= before + new + behind);
    }
}

/// A `Cargo.toml` gives the version that stands between the quotes of its first line for one.
pub proof fn first_version_is_given(
    before: Seq<Seq<char>>,
    gap: Seq<char>,
    v: Seq<char>,
    behind: Seq<Seq<char>>,
)
    requires
        crate::text::blank(gap),
        !v.contains('"'),
        forall|i: int| 0 <= i < before.len() ==> !version_line(#[trigger] before[i]),
    ensures
        given_version(
            before + seq![(gap + "version = "@) + seq!['"'] + (v + seq!['"'] + Seq::<char>::empty())]
                + behind,
        ) == v,
        given_version(before) == "?"@,
    decreases before.len(),
{
    reveal_strlit("version = ");
    reveal_strlit("\"");
    assert("\""@ =~= seq!['"']);
    let e = Seq::<char>::empty();
    let r = seq!['"'] + (v + seq!['"'] + e);
    let l = (gap + "version = "@) + seq!['"'] + (v + seq!['"'] + e);
    assert(l =~= gap + ("version = "@ + r));
    blank_before(gap, "version = "@ + r);
    parts_are_seen(seq![], "version = "@, r);
    assert(version_line(l));
    let ls = before + seq![l] + behind;
    if before.len() == 0 {
        assert(ls[0] == l);
        assert(!(gap + "version = "@).contains('"')) by {
            if (gap + "version = "@).contains('"') {
                let i = choose|i: int|
                    0 <= i < (gap + "version = "@).len() && (gap + "version = "@)[i] == '"';
                if i < gap.len() {
                    assert(crate::text::is_space(gap[i]));
                }
            }
        }
        piece_between(gap + "version = "@, '"', v, e);
    } else {
        assert(ls[0] == before[0]);
        assert(!version_line(before[0]));
        assert(ls.skip(1) =~= before.skip(1) + seq![l] + behind);
        first_version_is_given(before.skip(1), gap, v, behind);
    }
}

/// A `package.json` with a new version holds everything else as it was.
pub proof fn the_rest_of_a_package_stays(pkg: JsonView, ver: Seq<char>, k: Seq<char>)
    ensures
        k != "version"@ ==> with_version(pkg, ver).get(k) == pkg.get(k),
        with_version(pkg, ver).at("version"@) == JsonView::Str(ver),
{
    crate::json::put_then_get(pkg, "version"@, JsonView::Str(ver), k);
    crate::json::put_then_get(pkg, "version"@, JsonView::Str(ver), "version"@);
}

/// A changelog that did not exist is begun with its title; the section follows it.
pub proof fn a_changelog_is_begun(entry: Seq<char>)
    ensures
        updated_changelog(None, entry).take(12) == "# Changelog\n"@,
        updated_changelog(None, entry).skip(12) == entry,
{
    reveal_strlit("# Changelog\n");
    assert(updated_changelog(None, entry).take(12) =~= "# Changelog\n"@);
    assert(updated_changelog(None, entry).skip(12) =~= entry);
}

} // verus!
